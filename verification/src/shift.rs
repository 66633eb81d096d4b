//! Logical right shift of a bit vector: `out[i] = in[i + r]` while the
//! source index exists, else `out[i] = 0`.
//!
//! The copy branch is the same equality wiring as rotation; a vacated
//! bit gets a fresh wire bound to zero and a constraint forcing its
//! variable to the field's additive identity.  `r = 0` is the identity
//! and `r >= n` yields an all-zero output.

use vstd::prelude::*;
use crate::cs::{
    Constraint, ConstraintSystem, SynthesisError, Term, constraint_holds, is_equality_gate,
    is_zero_gate, lc0, lc1, lemma_copy_gates_not_multiplication, lemma_lc_sum_len0,
    lemma_lc_sum_len1, mult_gate_count,
};
use crate::field::Fe;
use crate::scope::Scope;
use crate::template::CircomTemplate;
use crate::wire::{
    Wire, constrain_equal, lemma_consistent_extends, lemma_extends_trans,
    lemma_wires_consistent_extends, unbound_wires, wires_bound, wires_consistent,
};

verus! {

/// The value output bit `i` of a shift by `r` over `n` bits must carry:
/// the input bit `i + r` when it exists, else zero.
pub open spec fn shift_value(input: Seq<Wire>, r: int, n: int, i: int) -> int {
    if i + r < n {
        input[i + r].value_int()
    } else {
        0
    }
}

/// The inputs a shift actually reads: bits `r` and above.
pub open spec fn shift_inputs_bound(input: Seq<Wire>, r: int, n: int) -> bool {
    forall|i: int| r <= i < n ==> (#[trigger] input[i]).is_bound()
}

/// A shift by zero is the identity.
pub proof fn lemma_shift_value_zero(input: Seq<Wire>, n: int, i: int)
    requires
        0 <= i < n,
        n == input.len(),
    ensures
        shift_value(input, 0, n, i) == input[i].value_int(),
{
}

/// A shift by at least the width yields an all-zero output.
pub proof fn lemma_shift_value_all_zero(input: Seq<Wire>, r: int, n: int, i: int)
    requires
        0 <= i,
        r >= n,
    ensures
        shift_value(input, r, n, i) == 0,
{
}

/// The shift gadget: `out[i] <== in[i + r]` where `i + r < n`, and a
/// zero-forced fresh wire for every vacated position.  Fails with
/// `MissingWitness` exactly when some input bit it reads is unbound.
pub fn shr(
    cs: &mut ConstraintSystem,
    scope: &Scope,
    n: usize,
    r: usize,
    input: &Vec<Wire>,
) -> (result: Result<Vec<Wire>, SynthesisError>)
    requires
        old(cs).wf(),
        input@.len() == n,
        wires_consistent(input@, *old(cs)),
    ensures
        final(cs).wf(),
        final(cs).extends(*old(cs)),
        (final(cs).satisfied() <==> old(cs).satisfied()),
        shift_inputs_bound(input@, r as int, n as int) <==> result is Ok,
        result is Err ==> result == Err::<Vec<Wire>, SynthesisError>(
            SynthesisError::MissingWitness,
        ),
        result matches Ok(out) ==> {
            &&& out@.len() == n
            &&& wires_bound(out@)
            &&& wires_consistent(out@, *final(cs))
            &&& forall|i: int|
                0 <= i < n ==> (#[trigger] out@[i]).value_int() == shift_value(
                    input@,
                    r as int,
                    n as int,
                    i,
                )
            &&& final(cs).num_vars() == old(cs).num_vars() + n
            &&& final(cs).constraints@.len() == old(cs).constraints@.len() + n
            &&& mult_gate_count(final(cs).constraints@) == mult_gate_count(
                old(cs).constraints@,
            )
            &&& forall|i: int|
                0 <= i < n ==> (#[trigger] out@[i]).var() as int == old(cs).num_vars() + i
            &&& forall|i: int|
                0 <= i < n && i + r < n ==> is_equality_gate(
                    #[trigger] final(cs).constraints@[old(cs).constraints@.len() + i],
                    input@[i + r].var(),
                    out@[i].var(),
                )
            &&& forall|i: int|
                0 <= i < n && i + r >= n ==> is_zero_gate(
                    #[trigger] final(cs).constraints@[old(cs).constraints@.len() + i],
                    out@[i].var(),
                )
            &&& forall|i: int|
                0 <= i < n ==> (#[trigger] final(cs).constraints@[old(
                    cs,
                ).constraints@.len() + i]).label.path@ == scope.path@.push(i as u64)
        },
{
    let mut out: Vec<Wire> = Vec::new();
    let ghost cs0 = *cs;
    let mut i: usize = 0;
    while i < n
        invariant
            cs0 == *old(cs),
            i <= n,
            n == input@.len(),
            out@.len() == i,
            (*cs).wf(),
            (*cs).extends(cs0),
            ((*cs).satisfied() <==> cs0.satisfied()),
            wires_consistent(input@, *cs),
            forall|j: int| 0 <= j < i ==> (#[trigger] out@[j]).is_bound(),
            forall|j: int| 0 <= j < i ==> (#[trigger] out@[j]).consistent_with(*cs),
            forall|j: int|
                0 <= j < i ==> (#[trigger] out@[j]).value_int() == shift_value(
                    input@,
                    r as int,
                    n as int,
                    j,
                ),
            forall|j: int| 0 <= j < i && j + r < n ==> (#[trigger] input@[j + r]).is_bound(),
            (*cs).num_vars() == cs0.num_vars() + i,
            (*cs).constraints@.len() == cs0.constraints@.len() + i,
            mult_gate_count((*cs).constraints@) == mult_gate_count(cs0.constraints@),
            forall|j: int| 0 <= j < i ==> (#[trigger] out@[j]).var() as int == cs0.num_vars() + j,
            forall|j: int|
                0 <= j < i && j + r < n ==> is_equality_gate(
                    #[trigger] (*cs).constraints@[cs0.constraints@.len() + j],
                    input@[j + r].var(),
                    out@[j].var(),
                ),
            forall|j: int|
                0 <= j < i && j + r >= n ==> is_zero_gate(
                    #[trigger] (*cs).constraints@[cs0.constraints@.len() + j],
                    out@[j].var(),
                ),
            forall|j: int|
                0 <= j < i ==> (#[trigger] (*cs).constraints@[cs0.constraints@.len()
                    + j]).label.path@ == scope.path@.push(j as u64),
        decreases n - i,
    {
        let ghost prev = *cs;
        let label = scope.child(i as u64);
        if r >= n - i {
            // vacated position: fresh wire forced to zero
            let zero = Fe::zero();
            let var = cs.allocate(zero);
            let w = Wire::Bound { var, value: zero };
            let one = Fe { v: 1 };
            let con = Constraint {
                label,
                a: lc0(),
                b: lc1(Term::Constant(one)),
                c: lc1(Term::Variable(one, var)),
            };
            proof {
                lemma_lc_sum_len0(con.a.terms@, (*cs).asg());
                lemma_lc_sum_len1(con.b.terms@, (*cs).asg());
                lemma_lc_sum_len1(con.c.terms@, (*cs).asg());
                assert(constraint_holds(con, (*cs).asg()));
                lemma_copy_gates_not_multiplication(con, 0, var);
            }
            let ghost mid = *cs;
            cs.enforce(con);
            proof {
                assert forall|j: int|
                    0 <= j < i implies (#[trigger] (*cs).constraints@[cs0.constraints@.len()
                    + j]) == prev.constraints@[cs0.constraints@.len() + j] by {
                    assert((*cs).extends(prev));
                }
                lemma_wires_consistent_extends(input@, prev, *cs);
                assert forall|j: int|
                    0 <= j < i implies (#[trigger] out@[j]).consistent_with(*cs) by {
                    lemma_consistent_extends(out@[j], prev, *cs);
                }
                lemma_extends_trans(prev, mid, *cs);
                lemma_extends_trans(cs0, prev, *cs);
                lemma_consistent_extends(w, mid, *cs);
            }
            out.push(w);
        } else {
            match constrain_equal(cs, label, &input[i + r]) {
                Ok(w) => {
                    proof {
                        assert forall|j: int|
                            0 <= j < i implies (#[trigger] (*cs).constraints@[cs0.constraints@.len()
                            + j]) == prev.constraints@[cs0.constraints@.len() + j] by {
                            assert((*cs).extends(prev));
                        }
                        lemma_wires_consistent_extends(input@, prev, *cs);
                        assert forall|j: int|
                            0 <= j < i implies (#[trigger] out@[j]).consistent_with(*cs) by {
                            lemma_consistent_extends(out@[j], prev, *cs);
                        }
                        lemma_extends_trans(cs0, prev, *cs);
                    }
                    out.push(w);
                }
                Err(e) => {
                    proof {
                        assert(!input@[i + r].is_bound());
                        assert(!shift_inputs_bound(input@, r as int, n as int));
                    }
                    return Err(e);
                }
            }
        }
        i = i + 1;
    }
    proof {
        assert forall|k: int| r <= k < n implies (#[trigger] input@[k]).is_bound() by {
            let j = k - r;
            assert(0 <= j < n && j + r < n);
            assert(input@[j + r].is_bound());
        }
    }
    Ok(out)
}

/// The shift template: configuration `n`, `r`, an input vector and an
/// output vector of `n` wires each.
pub struct Shr {
    pub n: usize,
    pub r: usize,
    pub input: Vec<Wire>,
    pub out: Vec<Wire>,
}

impl Shr {
    /// A fresh instance with all ports unbound.
    pub fn new(n: usize, r: usize) -> (g: Shr)
        ensures
            g.n == n,
            g.r == r,
            g.input@.len() == n,
            g.out@.len() == n,
            forall|i: int| 0 <= i < n ==> !(#[trigger] g.input@[i]).is_bound(),
            forall|i: int| 0 <= i < n ==> !(#[trigger] g.out@[i]).is_bound(),
    {
        Shr { n, r, input: unbound_wires(n), out: unbound_wires(n) }
    }

    /// Runs the single generation pass: fills `self.out` with the
    /// shifted copies of `self.input` and zeroes for the vacated bits.
    pub fn force(&mut self, cs: &mut ConstraintSystem, scope: &Scope) -> (result: Result<
        (),
        SynthesisError,
    >)
        requires
            old(cs).wf(),
            old(self).input@.len() == old(self).n,
            wires_consistent(old(self).input@, *old(cs)),
        ensures
            final(cs).wf(),
            final(cs).extends(*old(cs)),
            (final(cs).satisfied() <==> old(cs).satisfied()),
            final(self).n == old(self).n,
            final(self).r == old(self).r,
            final(self).input == old(self).input,
            shift_inputs_bound(old(self).input@, old(self).r as int, old(self).n as int)
                <==> result is Ok,
            result is Err ==> result == Err::<(), SynthesisError>(SynthesisError::MissingWitness)
                && final(self).out == old(self).out,
            result is Ok ==> {
                &&& final(self).out@.len() == old(self).n
                &&& wires_bound(final(self).out@)
                &&& wires_consistent(final(self).out@, *final(cs))
                &&& forall|i: int|
                    0 <= i < old(self).n ==> (#[trigger] final(self).out@[i]).value_int()
                        == shift_value(
                        old(self).input@,
                        old(self).r as int,
                        old(self).n as int,
                        i,
                    )
                &&& final(cs).num_vars() == old(cs).num_vars() + old(self).n
                &&& final(cs).constraints@.len() == old(cs).constraints@.len() + old(self).n
                &&& mult_gate_count(final(cs).constraints@) == mult_gate_count(
                    old(cs).constraints@,
                )
                &&& forall|i: int|
                    0 <= i < old(self).n ==> (#[trigger] final(cs).constraints@[old(
                        cs,
                    ).constraints@.len() + i]).label.path@ == scope.path@.push(i as u64)
            },
    {
        match shr(cs, scope, self.n, self.r, &self.input) {
            Ok(o) => {
                self.out = o;
                Ok(())
            }
            Err(e) => Err(e),
        }
    }
}

impl CircomTemplate for Shr {
    type Target = ();

    /// Ready when the input vector has the declared width and lives in
    /// `cs`.
    open spec fn ready(&self, cs: &ConstraintSystem) -> bool {
        &&& self.input@.len() == self.n
        &&& wires_consistent(self.input@, *cs)
    }

    /// Delegates to `force`, refining the trait's contract with the
    /// shift's full result.
    fn generate_output_signal(&mut self, cs: &mut ConstraintSystem, scope: &Scope) -> (r: Result<
        (),
        SynthesisError,
    >)
        ensures
            final(self).n == old(self).n,
            final(self).r == old(self).r,
            final(self).input == old(self).input,
            shift_inputs_bound(old(self).input@, old(self).r as int, old(self).n as int)
                <==> r is Ok,
            r is Err ==> r == Err::<(), SynthesisError>(SynthesisError::MissingWitness)
                && final(self).out == old(self).out,
            r is Ok ==> {
                &&& final(self).out@.len() == old(self).n
                &&& wires_bound(final(self).out@)
                &&& wires_consistent(final(self).out@, *final(cs))
                &&& forall|i: int|
                    0 <= i < old(self).n ==> (#[trigger] final(self).out@[i]).value_int()
                        == shift_value(
                        old(self).input@,
                        old(self).r as int,
                        old(self).n as int,
                        i,
                    )
            },
    {
        self.force(cs, scope)
    }
}

} // verus!
