//! The "small sigma" mixing function of the hash compression round:
//! rotate the 32-bit input by `ra` and by `rb`, shift it by `rc`, then
//! three-way XOR the three results.
//!
//! Each sub-gadget gets its own copies of the input wires (one equality
//! constraint per bit) rather than sharing them, trading a few extra
//! constraints for fully isolated, independently testable sub-circuits.
//! Each sub-gadget is generated under a distinct child scope, so labels
//! never collide.

use vstd::prelude::*;
use crate::cs::{
    ConstraintSystem, SynthesisError, label_under, labels_distinct, lemma_labels_merge,
    lemma_tagged_pair_run_labels, lemma_tagged_run_labels, mult_gate_count,
};
use crate::rotate::{RotR, rot_index};
use crate::scope::Scope;
use crate::shift::{Shr, shift_value};
use crate::template::CircomTemplate;
use crate::wire::{
    Wire, copy_vector, lemma_extends_trans, lemma_wires_consistent_extends, unbound_wires,
    wires_bound, wires_consistent,
};
use crate::xor3::{XOr3, xor3_val};

verus! {

/// The value of output bit `k` of small sigma: the XOR encoding applied
/// to the two rotations and the shift of the input.
pub open spec fn sigma_val(input: Seq<Wire>, ra: int, rb: int, rc: int, k: int) -> int {
    xor3_val(
        input[rot_index(k, ra, 32)].value_int(),
        input[rot_index(k, rb, 32)].value_int(),
        shift_value(input, rc, 32, k),
    )
}

/// The small-sigma gadget over a 32-bit input: allocates the two
/// rotation sub-gadgets and the shift sub-gadget, copies the input into
/// each, generates them, feeds their outputs into a three-way XOR, and
/// copies the XOR's output out.  Fails with `MissingWitness` exactly
/// when some input wire is unbound.
#[verifier::rlimit(100)]
pub fn small_sigma(
    cs: &mut ConstraintSystem,
    scope: &Scope,
    ra: usize,
    rb: usize,
    rc: usize,
    input: &Vec<Wire>,
) -> (result: Result<Vec<Wire>, SynthesisError>)
    requires
        old(cs).wf(),
        ra < 32,
        rb < 32,
        input@.len() == 32,
        wires_consistent(input@, *old(cs)),
    ensures
        final(cs).wf(),
        final(cs).extends(*old(cs)),
        (final(cs).satisfied() <==> old(cs).satisfied()),
        wires_bound(input@) <==> result is Ok,
        result is Err ==> result == Err::<Vec<Wire>, SynthesisError>(
            SynthesisError::MissingWitness,
        ),
        result matches Ok(out) ==> {
            &&& out@.len() == 32
            &&& wires_bound(out@)
            &&& wires_consistent(out@, *final(cs))
            &&& forall|k: int|
                0 <= k < 32 ==> (#[trigger] out@[k]).value_int() == sigma_val(
                    input@,
                    ra as int,
                    rb as int,
                    rc as int,
                    k,
                )
            &&& final(cs).num_vars() == old(cs).num_vars() + 384
            &&& final(cs).constraints@.len() == old(cs).constraints@.len() + 384
            &&& mult_gate_count(final(cs).constraints@) == mult_gate_count(old(cs).constraints@)
                + 64
            &&& forall|j: int|
                old(cs).constraints@.len() <= j < final(cs).constraints@.len() ==> label_under(
                    #[trigger] final(cs).constraints@[j],
                    *scope,
                )
            &&& labels_distinct(
                final(cs).constraints@,
                old(cs).constraints@.len() as int,
                final(cs).constraints@.len() as int,
            )
        },
{
    let ghost s0 = *cs;
    let mut rota = RotR::new(32, ra);
    let mut rotb = RotR::new(32, rb);
    let mut shrc = Shr::new(32, rc);

    // bind each sub-gadget's input to its own copy of the sigma input
    let sc0 = scope.child(0);
    match copy_vector(cs, &sc0, input) {
        Ok(v) => {
            rota.input = v;
        }
        Err(e) => {
            return Err(e);
        }
    }
    let ghost s1 = *cs;
    proof {
        lemma_wires_consistent_extends(input@, s0, s1);
    }
    let sc1 = scope.child(1);
    match copy_vector(cs, &sc1, input) {
        Ok(v) => {
            rotb.input = v;
        }
        Err(e) => {
            proof {
                assert(false);
            }
            return Err(e);
        }
    }
    let ghost s2 = *cs;
    proof {
        lemma_extends_trans(s0, s1, s2);
        lemma_wires_consistent_extends(input@, s1, s2);
        lemma_wires_consistent_extends(rota.input@, s1, s2);
    }
    let sc2 = scope.child(2);
    match copy_vector(cs, &sc2, input) {
        Ok(v) => {
            shrc.input = v;
        }
        Err(e) => {
            proof {
                assert(false);
            }
            return Err(e);
        }
    }
    let ghost s3 = *cs;
    proof {
        lemma_extends_trans(s0, s2, s3);
        lemma_wires_consistent_extends(rota.input@, s2, s3);
        lemma_wires_consistent_extends(rotb.input@, s2, s3);
    }

    // generate each sub-gadget under its own scope
    let sc3 = scope.child(3);
    match rota.force(cs, &sc3) {
        Ok(_) => {}
        Err(e) => {
            proof {
                assert(false);
            }
            return Err(e);
        }
    }
    let ghost s4 = *cs;
    proof {
        lemma_extends_trans(s0, s3, s4);
        lemma_wires_consistent_extends(rotb.input@, s3, s4);
        lemma_wires_consistent_extends(shrc.input@, s3, s4);
    }
    let sc4 = scope.child(4);
    match rotb.force(cs, &sc4) {
        Ok(_) => {}
        Err(e) => {
            proof {
                assert(false);
            }
            return Err(e);
        }
    }
    let ghost s5 = *cs;
    proof {
        lemma_extends_trans(s0, s4, s5);
        lemma_wires_consistent_extends(shrc.input@, s4, s5);
        lemma_wires_consistent_extends(rota.out@, s4, s5);
    }
    let sc5 = scope.child(5);
    match shrc.force(cs, &sc5) {
        Ok(_) => {}
        Err(e) => {
            proof {
                assert(false);
            }
            return Err(e);
        }
    }
    let ghost s6 = *cs;
    proof {
        lemma_extends_trans(s0, s5, s6);
        lemma_wires_consistent_extends(rota.out@, s5, s6);
        lemma_wires_consistent_extends(rotb.out@, s5, s6);
    }

    // feed the three results into the XOR gadget
    let mut x = XOr3::new(32);
    let sc6 = scope.child(6);
    match copy_vector(cs, &sc6, &rota.out) {
        Ok(v) => {
            x.a = v;
        }
        Err(e) => {
            proof {
                assert(false);
            }
            return Err(e);
        }
    }
    let ghost s7 = *cs;
    proof {
        lemma_extends_trans(s0, s6, s7);
        lemma_wires_consistent_extends(rotb.out@, s6, s7);
        lemma_wires_consistent_extends(shrc.out@, s6, s7);
    }
    let sc7 = scope.child(7);
    match copy_vector(cs, &sc7, &rotb.out) {
        Ok(v) => {
            x.b = v;
        }
        Err(e) => {
            proof {
                assert(false);
            }
            return Err(e);
        }
    }
    let ghost s8 = *cs;
    proof {
        lemma_extends_trans(s0, s7, s8);
        lemma_wires_consistent_extends(shrc.out@, s7, s8);
        lemma_wires_consistent_extends(x.a@, s7, s8);
    }
    let sc8 = scope.child(8);
    match copy_vector(cs, &sc8, &shrc.out) {
        Ok(v) => {
            x.c = v;
        }
        Err(e) => {
            proof {
                assert(false);
            }
            return Err(e);
        }
    }
    let ghost s9 = *cs;
    proof {
        lemma_extends_trans(s0, s8, s9);
        lemma_wires_consistent_extends(x.a@, s8, s9);
        lemma_wires_consistent_extends(x.b@, s8, s9);
    }
    let sc9 = scope.child(9);
    match x.force(cs, &sc9) {
        Ok(_) => {}
        Err(e) => {
            proof {
                assert(false);
            }
            return Err(e);
        }
    }
    let ghost s10 = *cs;
    proof {
        lemma_extends_trans(s0, s9, s10);
    }

    // copy the XOR output into sigma's own output vector
    let sc10 = scope.child(10);
    let out = match copy_vector(cs, &sc10, &x.out) {
        Ok(v) => v,
        Err(e) => {
            proof {
                assert(false);
            }
            return Err(e);
        }
    };
    proof {
        lemma_extends_trans(s0, s10, *cs);
        lemma_extends_trans(s9, s10, *cs);
        lemma_extends_trans(s8, s9, *cs);
        lemma_extends_trans(s7, s8, *cs);
        lemma_extends_trans(s6, s7, *cs);
        lemma_extends_trans(s5, s6, *cs);
        lemma_extends_trans(s4, s5, *cs);
        lemma_extends_trans(s3, s4, *cs);
        lemma_extends_trans(s2, s3, *cs);
        lemma_extends_trans(s1, s2, *cs);
        let ghost cons = (*cs).constraints@;
        let ghost ln = scope.path@.len() as int;
        let ghost e0 = s0.constraints@.len() as int;
        assert forall|i: int|
            0 <= i < 32 implies (#[trigger] cons[e0 + i]).label.path@ == scope.path@.push(
            0,
        ).push(i as u64) by {
            assert(cons[e0 + i] == s1.constraints@[e0 + i]);
        }
        assert forall|i: int|
            0 <= i < 32 implies (#[trigger] cons[e0 + 32 + i]).label.path@ == scope.path@.push(
            1,
        ).push(i as u64) by {
            assert(cons[e0 + 32 + i] == s2.constraints@[e0 + 32 + i]);
        }
        assert forall|i: int|
            0 <= i < 32 implies (#[trigger] cons[e0 + 64 + i]).label.path@ == scope.path@.push(
            2,
        ).push(i as u64) by {
            assert(cons[e0 + 64 + i] == s3.constraints@[e0 + 64 + i]);
        }
        assert forall|i: int|
            0 <= i < 32 implies (#[trigger] cons[e0 + 96 + i]).label.path@ == scope.path@.push(
            3,
        ).push(i as u64) by {
            assert(cons[e0 + 96 + i] == s4.constraints@[e0 + 96 + i]);
        }
        assert forall|i: int|
            0 <= i < 32 implies (#[trigger] cons[e0 + 128 + i]).label.path@ == scope.path@.push(
            4,
        ).push(i as u64) by {
            assert(cons[e0 + 128 + i] == s5.constraints@[e0 + 128 + i]);
        }
        assert forall|i: int|
            0 <= i < 32 implies (#[trigger] cons[e0 + 160 + i]).label.path@ == scope.path@.push(
            5,
        ).push(i as u64) by {
            assert(cons[e0 + 160 + i] == s6.constraints@[e0 + 160 + i]);
        }
        assert forall|i: int|
            0 <= i < 32 implies (#[trigger] cons[e0 + 192 + i]).label.path@ == scope.path@.push(
            6,
        ).push(i as u64) by {
            assert(cons[e0 + 192 + i] == s7.constraints@[e0 + 192 + i]);
        }
        assert forall|i: int|
            0 <= i < 32 implies (#[trigger] cons[e0 + 224 + i]).label.path@ == scope.path@.push(
            7,
        ).push(i as u64) by {
            assert(cons[e0 + 224 + i] == s8.constraints@[e0 + 224 + i]);
        }
        assert forall|i: int|
            0 <= i < 32 implies (#[trigger] cons[e0 + 256 + i]).label.path@ == scope.path@.push(
            8,
        ).push(i as u64) by {
            assert(cons[e0 + 256 + i] == s9.constraints@[e0 + 256 + i]);
        }
        assert forall|k: int|
            0 <= k < 32 implies (#[trigger] cons[e0 + 288 + 2 * k]).label.path@
                == scope.path@.push(9).push(k as u64).push(0) by {
            assert(cons[e0 + 288 + 2 * k] == s10.constraints@[e0 + 288 + 2 * k]);
        }
        assert forall|k: int|
            0 <= k < 32 implies (#[trigger] cons[e0 + 288 + 2 * k + 1]).label.path@
                == scope.path@.push(9).push(k as u64).push(1) by {
            assert(cons[e0 + 288 + 2 * k + 1] == s10.constraints@[e0 + 288 + 2 * k + 1]);
        }
        assert forall|i: int|
            0 <= i < 32 implies (#[trigger] cons[e0 + 352 + i]).label.path@ == scope.path@.push(
            10,
        ).push(i as u64) by {
            assert(s10.constraints@.len() == e0 + 352);
        }
        lemma_tagged_run_labels(cons, e0, 32, *scope, 0);
        lemma_tagged_run_labels(cons, e0 + 32, 32, *scope, 1);
        lemma_labels_merge(cons, e0, e0 + 32, e0 + 64, ln, 1);
        lemma_tagged_run_labels(cons, e0 + 64, 32, *scope, 2);
        lemma_labels_merge(cons, e0, e0 + 64, e0 + 96, ln, 2);
        lemma_tagged_run_labels(cons, e0 + 96, 32, *scope, 3);
        lemma_labels_merge(cons, e0, e0 + 96, e0 + 128, ln, 3);
        lemma_tagged_run_labels(cons, e0 + 128, 32, *scope, 4);
        lemma_labels_merge(cons, e0, e0 + 128, e0 + 160, ln, 4);
        lemma_tagged_run_labels(cons, e0 + 160, 32, *scope, 5);
        lemma_labels_merge(cons, e0, e0 + 160, e0 + 192, ln, 5);
        lemma_tagged_run_labels(cons, e0 + 192, 32, *scope, 6);
        lemma_labels_merge(cons, e0, e0 + 192, e0 + 224, ln, 6);
        lemma_tagged_run_labels(cons, e0 + 224, 32, *scope, 7);
        lemma_labels_merge(cons, e0, e0 + 224, e0 + 256, ln, 7);
        lemma_tagged_run_labels(cons, e0 + 256, 32, *scope, 8);
        lemma_labels_merge(cons, e0, e0 + 256, e0 + 288, ln, 8);
        lemma_tagged_pair_run_labels(cons, e0 + 288, 32, *scope, 9);
        lemma_labels_merge(cons, e0, e0 + 288, e0 + 352, ln, 9);
        lemma_tagged_run_labels(cons, e0 + 352, 32, *scope, 10);
        lemma_labels_merge(cons, e0, e0 + 352, e0 + 384, ln, 10);
        assert forall|k: int|
            0 <= k < 32 implies (#[trigger] out@[k]).value_int() == sigma_val(
            input@,
            ra as int,
            rb as int,
            rc as int,
            k,
        ) by {
            let ja = rot_index(k, ra as int, 32);
            let jb = rot_index(k, rb as int, 32);
            assert(0 <= ja < 32);
            assert(0 <= jb < 32);
            assert(out@[k].value_int() == x.out@[k].value_int());
            assert(x.out@[k].value_int() == xor3_val(
                x.a@[k].value_int(),
                x.b@[k].value_int(),
                x.c@[k].value_int(),
            ));
            assert(x.a@[k].value_int() == rota.out@[k].value_int());
            assert(x.b@[k].value_int() == rotb.out@[k].value_int());
            assert(x.c@[k].value_int() == shrc.out@[k].value_int());
            assert(rota.out@[k].value_int() == rota.input@[ja].value_int());
            assert(rota.input@[ja].value_int() == input@[ja].value_int());
            assert(rotb.out@[k].value_int() == rotb.input@[jb].value_int());
            assert(rotb.input@[jb].value_int() == input@[jb].value_int());
            assert(shrc.out@[k].value_int() == shift_value(shrc.input@, rc as int, 32, k));
            if k + rc < 32 {
                assert(shrc.input@[k + rc].value_int() == input@[k + rc].value_int());
                assert(shift_value(shrc.input@, rc as int, 32, k) == shift_value(
                    input@,
                    rc as int,
                    32,
                    k,
                ));
            } else {
                assert(shift_value(shrc.input@, rc as int, 32, k) == 0);
            }
        }
    }
    Ok(out)
}

/// The small-sigma template: rotation amounts `ra`, `rb`, shift amount
/// `rc`, a 32-bit input vector and a 32-bit output vector.
pub struct SmallSigma {
    pub ra: usize,
    pub rb: usize,
    pub rc: usize,
    pub input: Vec<Wire>,
    pub out: Vec<Wire>,
}

impl SmallSigma {
    /// A fresh instance with all ports unbound.
    pub fn new(ra: usize, rb: usize, rc: usize) -> (g: SmallSigma)
        ensures
            g.ra == ra,
            g.rb == rb,
            g.rc == rc,
            g.input@.len() == 32,
            g.out@.len() == 32,
            forall|i: int| 0 <= i < 32 ==> !(#[trigger] g.input@[i]).is_bound(),
            forall|i: int| 0 <= i < 32 ==> !(#[trigger] g.out@[i]).is_bound(),
    {
        SmallSigma { ra, rb, rc, input: unbound_wires(32), out: unbound_wires(32) }
    }

    /// Runs the single generation pass: fills `self.out` with the mixing
    /// function of `self.input`.
    pub fn force(&mut self, cs: &mut ConstraintSystem, scope: &Scope) -> (result: Result<
        (),
        SynthesisError,
    >)
        requires
            old(cs).wf(),
            old(self).ra < 32,
            old(self).rb < 32,
            old(self).input@.len() == 32,
            wires_consistent(old(self).input@, *old(cs)),
        ensures
            final(cs).wf(),
            final(cs).extends(*old(cs)),
            (final(cs).satisfied() <==> old(cs).satisfied()),
            final(self).ra == old(self).ra,
            final(self).rb == old(self).rb,
            final(self).rc == old(self).rc,
            final(self).input == old(self).input,
            wires_bound(old(self).input@) <==> result is Ok,
            result is Err ==> result == Err::<(), SynthesisError>(SynthesisError::MissingWitness)
                && final(self).out == old(self).out,
            result is Ok ==> {
                &&& final(self).out@.len() == 32
                &&& wires_bound(final(self).out@)
                &&& wires_consistent(final(self).out@, *final(cs))
                &&& forall|k: int|
                    0 <= k < 32 ==> (#[trigger] final(self).out@[k]).value_int() == sigma_val(
                        old(self).input@,
                        old(self).ra as int,
                        old(self).rb as int,
                        old(self).rc as int,
                        k,
                    )
            },
    {
        match small_sigma(cs, scope, self.ra, self.rb, self.rc, &self.input) {
            Ok(o) => {
                self.out = o;
                Ok(())
            }
            Err(e) => Err(e),
        }
    }
}

impl CircomTemplate for SmallSigma {
    type Target = ();

    /// Ready when the rotation amounts are in range and the input lives
    /// in `cs`.
    open spec fn ready(&self, cs: &ConstraintSystem) -> bool {
        &&& self.ra < 32
        &&& self.rb < 32
        &&& self.input@.len() == 32
        &&& wires_consistent(self.input@, *cs)
    }

    /// Delegates to `force`, refining the trait's contract with the
    /// mixing function's full result.
    fn generate_output_signal(&mut self, cs: &mut ConstraintSystem, scope: &Scope) -> (r: Result<
        (),
        SynthesisError,
    >)
        ensures
            final(self).ra == old(self).ra,
            final(self).rb == old(self).rb,
            final(self).rc == old(self).rc,
            final(self).input == old(self).input,
            wires_bound(old(self).input@) <==> r is Ok,
            r is Err ==> r == Err::<(), SynthesisError>(SynthesisError::MissingWitness)
                && final(self).out == old(self).out,
            r is Ok ==> {
                &&& final(self).out@.len() == 32
                &&& wires_bound(final(self).out@)
                &&& wires_consistent(final(self).out@, *final(cs))
                &&& forall|k: int|
                    0 <= k < 32 ==> (#[trigger] final(self).out@[k]).value_int() == sigma_val(
                        old(self).input@,
                        old(self).ra as int,
                        old(self).rb as int,
                        old(self).rc as int,
                        k,
                    )
            },
    {
        self.force(cs, scope)
    }
}

} // verus!
