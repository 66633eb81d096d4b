//! Cyclic right rotation of a bit vector: `out[i] = in[(i + r) mod n]`.
//!
//! A pure permutation — each output bit is a single equality copy of one
//! input bit, so the gadget emits `n` equality constraints and no
//! multiplication gates.

use vstd::prelude::*;
use vstd::arithmetic::div_mod::{
    lemma_add_mod_noop_right, lemma_mod_add_multiples_vanish, lemma_mod_bound,
    lemma_mod_sub_multiples_vanish, lemma_small_mod,
};
use crate::cs::{ConstraintSystem, SynthesisError, is_equality_gate, mult_gate_count};
use crate::scope::Scope;
use crate::template::CircomTemplate;
use crate::wire::{
    Wire, constrain_equal, lemma_consistent_extends, lemma_extends_trans,
    lemma_wires_consistent_extends, unbound_wires, wires_bound, wires_consistent,
};

verus! {

/// The input index feeding output bit `i` of a rotation by `r` over `n`
/// bits.
pub open spec fn rot_index(i: int, r: int, n: int) -> int {
    (i + r) % n
}

/// Rotation by zero moves nothing.
pub proof fn lemma_rot_index_zero(i: int, n: int)
    requires
        0 <= i < n,
    ensures
        rot_index(i, 0, n) == i,
{
    lemma_small_mod(i as nat, n as nat);
}

/// Every input index feeds exactly one output bit: `rot_index(·, r, n)`
/// maps `(k + n - r) % n` back to `k`.
pub proof fn lemma_rot_index_onto(k: int, r: int, n: int)
    requires
        0 < n,
        0 <= r < n,
        0 <= k < n,
    ensures
        0 <= (k + n - r) % n < n,
        rot_index((k + n - r) % n, r, n) == k,
{
    lemma_mod_bound(k + n - r, n);
    let j = (k + n - r) % n;
    assert((r + j) % n == (r + (k + n - r)) % n) by {
        lemma_add_mod_noop_right(r, k + n - r, n);
    }
    assert((n + k) % n == k % n) by {
        lemma_mod_add_multiples_vanish(k, n);
    }
    lemma_small_mod(k as nat, n as nat);
}

/// The rotation gadget: wires `out[i] <== in[(i + r) mod n]` for every
/// `i`, copying witnesses along the same permutation.  Requires `r < n`
/// strictly.  Fails with `MissingWitness` exactly when some input wire
/// is unbound.
pub fn rotr(
    cs: &mut ConstraintSystem,
    scope: &Scope,
    n: usize,
    r: usize,
    input: &Vec<Wire>,
) -> (result: Result<Vec<Wire>, SynthesisError>)
    requires
        old(cs).wf(),
        0 < n,
        r < n,
        input@.len() == n,
        wires_consistent(input@, *old(cs)),
    ensures
        final(cs).wf(),
        final(cs).extends(*old(cs)),
        (final(cs).satisfied() <==> old(cs).satisfied()),
        wires_bound(input@) <==> result is Ok,
        result is Err ==> result == Err::<Vec<Wire>, SynthesisError>(
            SynthesisError::MissingWitness,
        ),
        result matches Ok(out) ==> {
            &&& out@.len() == n
            &&& wires_bound(out@)
            &&& wires_consistent(out@, *final(cs))
            &&& forall|i: int|
                0 <= i < n ==> (#[trigger] out@[i]).value_int() == input@[rot_index(
                    i,
                    r as int,
                    n as int,
                )].value_int()
            &&& final(cs).num_vars() == old(cs).num_vars() + n
            &&& final(cs).constraints@.len() == old(cs).constraints@.len() + n
            &&& mult_gate_count(final(cs).constraints@) == mult_gate_count(
                old(cs).constraints@,
            )
            &&& forall|i: int|
                0 <= i < n ==> (#[trigger] out@[i]).var() as int == old(cs).num_vars() + i
            &&& forall|i: int|
                0 <= i < n ==> is_equality_gate(
                    #[trigger] final(cs).constraints@[old(cs).constraints@.len() + i],
                    input@[rot_index(i, r as int, n as int)].var(),
                    out@[i].var(),
                )
            &&& forall|i: int|
                0 <= i < n ==> (#[trigger] final(cs).constraints@[old(
                    cs,
                ).constraints@.len() + i]).label.path@ == scope.path@.push(i as u64)
        },
{
    let mut out: Vec<Wire> = Vec::new();
    let ghost cs0 = *cs;
    let mut i: usize = 0;
    while i < n
        invariant
            cs0 == *old(cs),
            i <= n,
            0 < n,
            r < n,
            n == input@.len(),
            out@.len() == i,
            (*cs).wf(),
            (*cs).extends(cs0),
            ((*cs).satisfied() <==> cs0.satisfied()),
            wires_consistent(input@, *cs),
            forall|j: int| 0 <= j < i ==> (#[trigger] out@[j]).is_bound(),
            forall|j: int| 0 <= j < i ==> (#[trigger] out@[j]).consistent_with(*cs),
            forall|j: int|
                0 <= j < i ==> (#[trigger] out@[j]).value_int() == input@[rot_index(
                    j,
                    r as int,
                    n as int,
                )].value_int(),
            forall|j: int|
                0 <= j < i ==> input@[rot_index(j, r as int, n as int)].is_bound(),
            (*cs).num_vars() == cs0.num_vars() + i,
            (*cs).constraints@.len() == cs0.constraints@.len() + i,
            mult_gate_count((*cs).constraints@) == mult_gate_count(cs0.constraints@),
            forall|j: int| 0 <= j < i ==> (#[trigger] out@[j]).var() as int == cs0.num_vars() + j,
            forall|j: int|
                0 <= j < i ==> is_equality_gate(
                    #[trigger] (*cs).constraints@[cs0.constraints@.len() + j],
                    input@[rot_index(j, r as int, n as int)].var(),
                    out@[j].var(),
                ),
            forall|j: int|
                0 <= j < i ==> (#[trigger] (*cs).constraints@[cs0.constraints@.len()
                    + j]).label.path@ == scope.path@.push(j as u64),
        decreases n - i,
    {
        let nr = n - r;
        let idx = if i < nr {
            i + r
        } else {
            i - nr
        };
        proof {
            if i < nr {
                lemma_small_mod((i + r) as nat, n as nat);
            } else {
                lemma_mod_sub_multiples_vanish((i + r) as int, n as int);
                lemma_small_mod((i + r - n) as nat, n as nat);
            }
            assert(idx as int == rot_index(i as int, r as int, n as int));
        }
        let ghost prev = *cs;
        let label = scope.child(i as u64);
        match constrain_equal(cs, label, &input[idx]) {
            Ok(w) => {
                proof {
                    assert forall|j: int|
                        0 <= j < i implies (#[trigger] (*cs).constraints@[cs0.constraints@.len()
                        + j]) == prev.constraints@[cs0.constraints@.len() + j] by {
                        assert((*cs).extends(prev));
                    }
                    lemma_wires_consistent_extends(input@, prev, *cs);
                    assert forall|j: int|
                        0 <= j < i implies (#[trigger] out@[j]).consistent_with(*cs) by {
                        lemma_consistent_extends(out@[j], prev, *cs);
                    }
                    lemma_extends_trans(cs0, prev, *cs);
                }
                out.push(w);
            }
            Err(e) => {
                proof {
                    assert(!input@[idx as int].is_bound());
                    assert(!wires_bound(input@));
                }
                return Err(e);
            }
        }
        i = i + 1;
    }
    proof {
        assert forall|k: int| 0 <= k < n implies (#[trigger] input@[k]).is_bound() by {
            lemma_rot_index_onto(k, r as int, n as int);
            let j = (k + n - r) % (n as int);
            assert(input@[rot_index(j, r as int, n as int)].is_bound());
        }
    }
    Ok(out)
}

/// The rotation template: configuration `n`, `r`, an input vector and an
/// output vector of `n` wires each.
pub struct RotR {
    pub n: usize,
    pub r: usize,
    pub input: Vec<Wire>,
    pub out: Vec<Wire>,
}

impl RotR {
    /// A fresh instance with all ports unbound.
    pub fn new(n: usize, r: usize) -> (g: RotR)
        ensures
            g.n == n,
            g.r == r,
            g.input@.len() == n,
            g.out@.len() == n,
            forall|i: int| 0 <= i < n ==> !(#[trigger] g.input@[i]).is_bound(),
            forall|i: int| 0 <= i < n ==> !(#[trigger] g.out@[i]).is_bound(),
    {
        RotR { n, r, input: unbound_wires(n), out: unbound_wires(n) }
    }

    /// Runs the single generation pass: fills `self.out` with the
    /// rotated copies of `self.input`.
    pub fn force(&mut self, cs: &mut ConstraintSystem, scope: &Scope) -> (result: Result<
        (),
        SynthesisError,
    >)
        requires
            old(cs).wf(),
            0 < old(self).n,
            old(self).r < old(self).n,
            old(self).input@.len() == old(self).n,
            wires_consistent(old(self).input@, *old(cs)),
        ensures
            final(cs).wf(),
            final(cs).extends(*old(cs)),
            (final(cs).satisfied() <==> old(cs).satisfied()),
            final(self).n == old(self).n,
            final(self).r == old(self).r,
            final(self).input == old(self).input,
            wires_bound(old(self).input@) <==> result is Ok,
            result is Err ==> result == Err::<(), SynthesisError>(SynthesisError::MissingWitness)
                && final(self).out == old(self).out,
            result is Ok ==> {
                &&& final(self).out@.len() == old(self).n
                &&& wires_bound(final(self).out@)
                &&& wires_consistent(final(self).out@, *final(cs))
                &&& forall|i: int|
                    0 <= i < old(self).n ==> (#[trigger] final(self).out@[i]).value_int() == old(
                        self,
                    ).input@[rot_index(i, old(self).r as int, old(self).n as int)].value_int()
                &&& final(cs).num_vars() == old(cs).num_vars() + old(self).n
                &&& final(cs).constraints@.len() == old(cs).constraints@.len() + old(self).n
                &&& mult_gate_count(final(cs).constraints@) == mult_gate_count(
                    old(cs).constraints@,
                )
                &&& forall|i: int|
                    0 <= i < old(self).n ==> (#[trigger] final(cs).constraints@[old(
                        cs,
                    ).constraints@.len() + i]).label.path@ == scope.path@.push(i as u64)
            },
    {
        match rotr(cs, scope, self.n, self.r, &self.input) {
            Ok(o) => {
                self.out = o;
                Ok(())
            }
            Err(e) => Err(e),
        }
    }
}

impl CircomTemplate for RotR {
    type Target = ();

    /// Ready when the rotation amount is in range and the inputs live in
    /// `cs`.
    open spec fn ready(&self, cs: &ConstraintSystem) -> bool {
        &&& 0 < self.n
        &&& self.r < self.n
        &&& self.input@.len() == self.n
        &&& wires_consistent(self.input@, *cs)
    }

    /// Delegates to `force`, refining the trait's contract with the
    /// rotation's full result.
    fn generate_output_signal(&mut self, cs: &mut ConstraintSystem, scope: &Scope) -> (r: Result<
        (),
        SynthesisError,
    >)
        ensures
            final(self).n == old(self).n,
            final(self).r == old(self).r,
            final(self).input == old(self).input,
            wires_bound(old(self).input@) <==> r is Ok,
            r is Err ==> r == Err::<(), SynthesisError>(SynthesisError::MissingWitness)
                && final(self).out == old(self).out,
            r is Ok ==> {
                &&& final(self).out@.len() == old(self).n
                &&& wires_bound(final(self).out@)
                &&& wires_consistent(final(self).out@, *final(cs))
                &&& forall|i: int|
                    0 <= i < old(self).n ==> (#[trigger] final(self).out@[i]).value_int() == old(
                        self,
                    ).input@[rot_index(i, old(self).r as int, old(self).n as int)].value_int()
            },
    {
        self.force(cs, scope)
    }
}

} // verus!
