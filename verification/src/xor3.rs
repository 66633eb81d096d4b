//! Arithmetized three-input XOR.
//!
//! For inputs that the caller guarantees to be boolean, each output bit
//! is `a[k] xor b[k] xor c[k]`, encoded with two multiplication gates
//! per bit — the minimal known encoding in this constraint model:
//!
//! 1. an auxiliary wire `mid[k] = b[k] * c[k]`, and
//! 2. `out[k] = a[k] * (1 - 2*b[k] - 2*c[k] + 4*mid[k]) + b[k] + c[k]
//!    - 2*mid[k]`, one multiplication between `a[k]` and a linear
//!    combination, equated to a second linear combination.
//!
//! The witness is computed by the same algebraic formula over the field,
//! so the witness always satisfies the emitted constraints.  Inputs are
//! not checked to be boolean here: that is a documented caller
//! obligation, and for non-boolean inputs the gadget still yields the
//! algebraically consistent value of the same formula.

use vstd::prelude::*;
use vstd::arithmetic::div_mod::{
    lemma_add_mod_noop, lemma_add_mod_noop_right, lemma_fundamental_div_mod,
    lemma_mod_equivalence, lemma_mod_multiples_vanish, lemma_mod_twice, lemma_mul_mod_noop_right,
    lemma_small_mod, lemma_sub_mod_noop, lemma_sub_mod_noop_right,
};
use crate::cs::{
    Constraint, ConstraintSystem, SynthesisError, Term, constraint_holds, is_multiplication_gate,
    lc1, lc4, lc_has_variable, lemma_lc_sum_len1, lemma_lc_sum_len4, mult_gate_count,
};
use crate::field::{Fe, MODULUS};
use crate::scope::Scope;
use crate::template::CircomTemplate;
use crate::wire::{
    Wire, lemma_consistent_extends, lemma_extends_trans, lemma_wires_consistent_extends,
    unbound_wires, wires_bound, wires_consistent,
};

verus! {

/// The field value of one XOR output bit: the two-gate encoding's
/// formula, over representatives reduced modulo the field modulus.  On
/// boolean inputs this is exactly `a xor b xor c`
/// (`lemma_xor3_val_boolean`).
pub open spec fn xor3_val(a: int, b: int, c: int) -> int {
    let p = MODULUS as int;
    let m = (b * c) % p;
    (a * (1 - 2 * b - 2 * c + 4 * m) + b + c - 2 * m) % p
}

/// On boolean inputs the encoding computes the parity of the three
/// bits, i.e. their XOR.
pub proof fn lemma_xor3_val_boolean(a: int, b: int, c: int)
    requires
        a == 0 || a == 1,
        b == 0 || b == 1,
        c == 0 || c == 1,
    ensures
        xor3_val(a, b, c) == (a + b + c) % 2,
{
    let p = MODULUS as int;
    lemma_small_mod(0nat, MODULUS as nat);
    lemma_small_mod(1nat, MODULUS as nat);
    if a == 0 {
        if b == 0 {
            if c == 0 {
                assert(xor3_val(a, b, c) == 0);
            } else {
                assert(xor3_val(a, b, c) == 1);
            }
        } else {
            if c == 0 {
                assert(xor3_val(a, b, c) == 1);
            } else {
                assert(xor3_val(a, b, c) == 0);
            }
        }
    } else {
        if b == 0 {
            if c == 0 {
                assert(xor3_val(a, b, c) == 1);
            } else {
                assert(xor3_val(a, b, c) == 0);
            }
        } else {
            if c == 0 {
                assert(xor3_val(a, b, c) == 0);
            } else {
                assert(xor3_val(a, b, c) == 1);
            }
        }
    }
}

/// The auxiliary multiplication gate is satisfied by its own witness:
/// `b * c` is congruent to its reduced value.
proof fn lemma_xor3_mid_constraint(b: int, c: int)
    ensures
        (b * c - (b * c) % (MODULUS as int)) % (MODULUS as int) == 0,
{
    let p = MODULUS as int;
    lemma_mod_twice(b * c, p);
    lemma_mod_equivalence(b * c, (b * c) % p, p);
}

/// The main gate is satisfied by the formula's value: with
/// `m = (b*c) % p` and `o = xor3_val(a, b, c)`,
/// `a * (1 + (p-2)*b + (p-2)*c + 4*m)` is congruent to
/// `o + (p-1)*b + (p-1)*c + 2*m`.
proof fn lemma_xor3_out_constraint(a: int, b: int, c: int)
    ensures
        ({
            let p = MODULUS as int;
            let m = (b * c) % p;
            let o = xor3_val(a, b, c);
            (a * (1 + (p - 2) * b + (p - 2) * c + 4 * m) - (o + (p - 1) * b + (p - 1) * c + 2
                * m)) % p == 0
        }),
{
    let p = MODULUS as int;
    let m = (b * c) % p;
    let s = a * (1 - 2 * b - 2 * c + 4 * m) + b + c - 2 * m;
    let o = xor3_val(a, b, c);
    assert(o == s % p);
    lemma_fundamental_div_mod(s, p);
    let k = s / p + a * (b + c) - (b + c);
    assert(a * (1 + (p - 2) * b + (p - 2) * c + 4 * m) - (o + (p - 1) * b + (p - 1) * c + 2 * m)
        == p * k) by (nonlinear_arith)
        requires
            o == s - p * (s / p),
            s == a * (1 - 2 * b - 2 * c + 4 * m) + b + c - 2 * m,
            k == s / p + a * (b + c) - (b + c),
    ;
    lemma_mod_multiples_vanish(k, 0, p);
    lemma_small_mod(0nat, MODULUS as nat);
}

/// The witness computed by the chain of reduced field operations equals
/// the formula's value reduced once.
proof fn lemma_xor3_witness_eval(a: int, b: int, c: int)
    requires
        0 <= a < MODULUS as int,
        0 <= b < MODULUS as int,
        0 <= c < MODULUS as int,
    ensures
        ({
            let p = MODULUS as int;
            let m = (b * c) % p;
            let l1 = (1 - (2 * b) % p) % p;
            let l2 = (l1 - (2 * c) % p) % p;
            let lin = (l2 + (4 * m) % p) % p;
            let s1 = ((a * lin) % p + b) % p;
            let s2 = (s1 + c) % p;
            (s2 - (2 * m) % p) % p == xor3_val(a, b, c)
        }),
{
    let p = MODULUS as int;
    let m = (b * c) % p;
    let l1 = (1 - (2 * b) % p) % p;
    let l2 = (l1 - (2 * c) % p) % p;
    let lin = (l2 + (4 * m) % p) % p;
    let s1 = ((a * lin) % p + b) % p;
    let s2 = (s1 + c) % p;
    assert(l1 == (1 - 2 * b) % p) by {
        lemma_sub_mod_noop_right(1, 2 * b, p);
    }
    assert(l2 == (1 - 2 * b - 2 * c) % p) by {
        lemma_sub_mod_noop(1 - 2 * b, 2 * c, p);
    }
    assert(lin == (1 - 2 * b - 2 * c + 4 * m) % p) by {
        lemma_add_mod_noop(1 - 2 * b - 2 * c, 4 * m, p);
    }
    assert((a * lin) % p == (a * (1 - 2 * b - 2 * c + 4 * m)) % p) by {
        lemma_mul_mod_noop_right(a, 1 - 2 * b - 2 * c + 4 * m, p);
        lemma_mod_twice(a * (1 - 2 * b - 2 * c + 4 * m), p);
    }
    assert(s1 == (a * (1 - 2 * b - 2 * c + 4 * m) + b) % p) by {
        lemma_add_mod_noop_right(b, a * (1 - 2 * b - 2 * c + 4 * m), p);
    }
    assert(s2 == (a * (1 - 2 * b - 2 * c + 4 * m) + b + c) % p) by {
        lemma_add_mod_noop_right(c, a * (1 - 2 * b - 2 * c + 4 * m) + b, p);
    }
    assert((s2 - (2 * m) % p) % p == (a * (1 - 2 * b - 2 * c + 4 * m) + b + c - 2 * m) % p) by {
        lemma_sub_mod_noop(a * (1 - 2 * b - 2 * c + 4 * m) + b + c, 2 * m, p);
    }
}

/// The auxiliary multiplication gate of the encoding: `b * c = mid`,
/// one variable on each side.
pub open spec fn is_mid_gate(con: Constraint, b_var: usize, c_var: usize, mid_var: usize) -> bool {
    &&& con.a.terms@.len() == 1 && con.a.terms@[0] == Term::Variable(Fe { v: 1 }, b_var)
    &&& con.b.terms@.len() == 1 && con.b.terms@[0] == Term::Variable(Fe { v: 1 }, c_var)
    &&& con.c.terms@.len() == 1 && con.c.terms@[0] == Term::Variable(Fe { v: 1 }, mid_var)
}

/// The main multiplication gate of the encoding: `a` times the linear
/// combination `1 - 2b - 2c + 4*mid` (negative coefficients written as
/// `p - 2`), equated to `out - b - c + 2*mid`.
pub open spec fn is_out_gate(
    con: Constraint,
    a_var: usize,
    b_var: usize,
    c_var: usize,
    mid_var: usize,
    out_var: usize,
) -> bool {
    &&& con.a.terms@.len() == 1 && con.a.terms@[0] == Term::Variable(Fe { v: 1 }, a_var)
    &&& con.b.terms@.len() == 4
    &&& con.b.terms@[0] == Term::Constant(Fe { v: 1 })
    &&& con.b.terms@[1] == Term::Variable(Fe { v: (MODULUS - 2) as u64 }, b_var)
    &&& con.b.terms@[2] == Term::Variable(Fe { v: (MODULUS - 2) as u64 }, c_var)
    &&& con.b.terms@[3] == Term::Variable(Fe { v: 4 }, mid_var)
    &&& con.c.terms@.len() == 4
    &&& con.c.terms@[0] == Term::Variable(Fe { v: 1 }, out_var)
    &&& con.c.terms@[1] == Term::Variable(Fe { v: (MODULUS - 1) as u64 }, b_var)
    &&& con.c.terms@[2] == Term::Variable(Fe { v: (MODULUS - 1) as u64 }, c_var)
    &&& con.c.terms@[3] == Term::Variable(Fe { v: 2 }, mid_var)
}

/// Both gate shapes of the encoding multiply two circuit values.
proof fn lemma_mid_gate_is_multiplication(
    con: Constraint,
    b_var: usize,
    c_var: usize,
    mid_var: usize,
)
    requires
        is_mid_gate(con, b_var, c_var, mid_var),
    ensures
        is_multiplication_gate(con),
{
    assert(lc_has_variable(con.a.terms@)) by {
        assert(con.a.terms@[0] is Variable);
    }
    assert(lc_has_variable(con.b.terms@)) by {
        assert(con.b.terms@[0] is Variable);
    }
}

proof fn lemma_out_gate_is_multiplication(
    con: Constraint,
    a_var: usize,
    b_var: usize,
    c_var: usize,
    mid_var: usize,
    out_var: usize,
)
    requires
        is_out_gate(con, a_var, b_var, c_var, mid_var, out_var),
    ensures
        is_multiplication_gate(con),
{
    assert(lc_has_variable(con.a.terms@)) by {
        assert(con.a.terms@[0] is Variable);
    }
    assert(lc_has_variable(con.b.terms@)) by {
        assert(con.b.terms@[1] is Variable);
    }
}

/// The auxiliary gate `b * c = mid`, as emitted, is satisfied by any
/// assignment in which the mid variable carries the reduced product of
/// the two input variables.
proof fn lemma_mid_gate_holds(
    con: Constraint,
    asg: Seq<int>,
    b_var: usize,
    c_var: usize,
    mid_var: usize,
)
    requires
        is_mid_gate(con, b_var, c_var, mid_var),
        asg[mid_var as int] == (asg[b_var as int] * asg[c_var as int]) % (MODULUS as int),
    ensures
        constraint_holds(con, asg),
{
    let bv = asg[b_var as int];
    let cv = asg[c_var as int];
    let mv = asg[mid_var as int];
    lemma_lc_sum_len1(con.a.terms@, asg);
    lemma_lc_sum_len1(con.b.terms@, asg);
    lemma_lc_sum_len1(con.c.terms@, asg);
    assert(crate::cs::term_sum(con.a.terms@[0], asg) == 1 * bv);
    assert(crate::cs::term_sum(con.b.terms@[0], asg) == 1 * cv);
    assert(crate::cs::term_sum(con.c.terms@[0], asg) == 1 * mv);
    assert(crate::cs::lc_sum(con.a.terms@, asg) == bv);
    assert(crate::cs::lc_sum(con.b.terms@, asg) == cv);
    assert(crate::cs::lc_sum(con.c.terms@, asg) == mv);
    lemma_xor3_mid_constraint(bv, cv);
    assert((bv * cv - mv) % (MODULUS as int) == 0);
}

/// The main gate, as emitted, is satisfied by any assignment in which
/// the mid variable carries the reduced product and the out variable
/// carries the formula's value.
proof fn lemma_out_gate_holds(
    con: Constraint,
    asg: Seq<int>,
    a_var: usize,
    b_var: usize,
    c_var: usize,
    mid_var: usize,
    out_var: usize,
)
    requires
        is_out_gate(con, a_var, b_var, c_var, mid_var, out_var),
        asg[mid_var as int] == (asg[b_var as int] * asg[c_var as int]) % (MODULUS as int),
        asg[out_var as int] == xor3_val(asg[a_var as int], asg[b_var as int], asg[c_var as int]),
    ensures
        constraint_holds(con, asg),
{
    let p = MODULUS as int;
    let av = asg[a_var as int];
    let bv = asg[b_var as int];
    let cv = asg[c_var as int];
    let m = asg[mid_var as int];
    let o = asg[out_var as int];
    lemma_lc_sum_len1(con.a.terms@, asg);
    lemma_lc_sum_len4(con.b.terms@, asg);
    lemma_lc_sum_len4(con.c.terms@, asg);
    assert(crate::cs::term_sum(con.a.terms@[0], asg) == 1 * av);
    assert(crate::cs::term_sum(con.b.terms@[0], asg) == 1);
    assert(crate::cs::term_sum(con.b.terms@[1], asg) == (p - 2) * bv);
    assert(crate::cs::term_sum(con.b.terms@[2], asg) == (p - 2) * cv);
    assert(crate::cs::term_sum(con.b.terms@[3], asg) == 4 * m);
    assert(crate::cs::term_sum(con.c.terms@[0], asg) == 1 * o);
    assert(crate::cs::term_sum(con.c.terms@[1], asg) == (p - 1) * bv);
    assert(crate::cs::term_sum(con.c.terms@[2], asg) == (p - 1) * cv);
    assert(crate::cs::term_sum(con.c.terms@[3], asg) == 2 * m);
    assert(crate::cs::lc_sum(con.a.terms@, asg) == av);
    assert(crate::cs::lc_sum(con.b.terms@, asg) == 1 + (p - 2) * bv + (p - 2) * cv + 4 * m);
    assert(crate::cs::lc_sum(con.c.terms@, asg) == o + (p - 1) * bv + (p - 1) * cv + 2 * m);
    lemma_xor3_out_constraint(av, bv, cv);
}

/// The three-way XOR gadget over `n`-bit vectors `a`, `b`, `c`: per bit,
/// one auxiliary wire `mid[k] = b[k] * c[k]` with its multiplication
/// gate, and the output wire bound to the encoding's formula with its
/// gate.  Fails with `MissingWitness` exactly when some input wire is
/// unbound.
#[verifier::rlimit(100)]
pub fn xor3(
    cs: &mut ConstraintSystem,
    scope: &Scope,
    n: usize,
    a: &Vec<Wire>,
    b: &Vec<Wire>,
    c: &Vec<Wire>,
) -> (result: Result<Vec<Wire>, SynthesisError>)
    requires
        old(cs).wf(),
        a@.len() == n,
        b@.len() == n,
        c@.len() == n,
        wires_consistent(a@, *old(cs)),
        wires_consistent(b@, *old(cs)),
        wires_consistent(c@, *old(cs)),
    ensures
        final(cs).wf(),
        final(cs).extends(*old(cs)),
        (final(cs).satisfied() <==> old(cs).satisfied()),
        (wires_bound(a@) && wires_bound(b@) && wires_bound(c@)) <==> result is Ok,
        result is Err ==> result == Err::<Vec<Wire>, SynthesisError>(
            SynthesisError::MissingWitness,
        ),
        result matches Ok(out) ==> {
            &&& out@.len() == n
            &&& wires_bound(out@)
            &&& wires_consistent(out@, *final(cs))
            &&& forall|k: int|
                0 <= k < n ==> (#[trigger] out@[k]).value_int() == xor3_val(
                    a@[k].value_int(),
                    b@[k].value_int(),
                    c@[k].value_int(),
                )
            &&& final(cs).num_vars() == old(cs).num_vars() + 2 * n
            &&& final(cs).constraints@.len() == old(cs).constraints@.len() + 2 * n
            &&& mult_gate_count(final(cs).constraints@) == mult_gate_count(old(cs).constraints@)
                + 2 * n
            &&& forall|k: int|
                0 <= k < n ==> (#[trigger] out@[k]).var() as int == old(cs).num_vars() + 2 * k
                    + 1
            &&& forall|k: int|
                0 <= k < n ==> is_mid_gate(
                    #[trigger] final(cs).constraints@[old(cs).constraints@.len() + 2 * k],
                    b@[k].var(),
                    c@[k].var(),
                    (out@[k].var() - 1) as usize,
                )
            &&& forall|k: int|
                0 <= k < n ==> is_out_gate(
                    #[trigger] final(cs).constraints@[old(cs).constraints@.len() + 2 * k + 1],
                    a@[k].var(),
                    b@[k].var(),
                    c@[k].var(),
                    (out@[k].var() - 1) as usize,
                    out@[k].var(),
                )
            &&& forall|k: int|
                0 <= k < n ==> (#[trigger] final(cs).constraints@[old(cs).constraints@.len() + 2
                    * k]).label.path@ == scope.path@.push(k as u64).push(0)
            &&& forall|k: int|
                0 <= k < n ==> (#[trigger] final(cs).constraints@[old(cs).constraints@.len() + 2
                    * k + 1]).label.path@ == scope.path@.push(k as u64).push(1)
        },
{
    let mut out: Vec<Wire> = Vec::new();
    let ghost cs0 = *cs;
    let mut k: usize = 0;
    while k < n
        invariant
            cs0 == *old(cs),
            k <= n,
            n == a@.len(),
            n == b@.len(),
            n == c@.len(),
            out@.len() == k,
            (*cs).wf(),
            (*cs).extends(cs0),
            ((*cs).satisfied() <==> cs0.satisfied()),
            wires_consistent(a@, *cs),
            wires_consistent(b@, *cs),
            wires_consistent(c@, *cs),
            forall|j: int| 0 <= j < k ==> (#[trigger] a@[j]).is_bound(),
            forall|j: int| 0 <= j < k ==> (#[trigger] b@[j]).is_bound(),
            forall|j: int| 0 <= j < k ==> (#[trigger] c@[j]).is_bound(),
            forall|j: int| 0 <= j < k ==> (#[trigger] out@[j]).is_bound(),
            forall|j: int| 0 <= j < k ==> (#[trigger] out@[j]).consistent_with(*cs),
            forall|j: int|
                0 <= j < k ==> (#[trigger] out@[j]).value_int() == xor3_val(
                    a@[j].value_int(),
                    b@[j].value_int(),
                    c@[j].value_int(),
                ),
            (*cs).num_vars() == cs0.num_vars() + 2 * k,
            (*cs).constraints@.len() == cs0.constraints@.len() + 2 * k,
            mult_gate_count((*cs).constraints@) == mult_gate_count(cs0.constraints@) + 2 * k,
            forall|j: int|
                0 <= j < k ==> (#[trigger] out@[j]).var() as int == cs0.num_vars() + 2 * j + 1,
            forall|j: int|
                0 <= j < k ==> is_mid_gate(
                    #[trigger] (*cs).constraints@[cs0.constraints@.len() + 2 * j],
                    b@[j].var(),
                    c@[j].var(),
                    (out@[j].var() - 1) as usize,
                ),
            forall|j: int|
                0 <= j < k ==> is_out_gate(
                    #[trigger] (*cs).constraints@[cs0.constraints@.len() + 2 * j + 1],
                    a@[j].var(),
                    b@[j].var(),
                    c@[j].var(),
                    (out@[j].var() - 1) as usize,
                    out@[j].var(),
                ),
            forall|j: int|
                0 <= j < k ==> (#[trigger] (*cs).constraints@[cs0.constraints@.len() + 2
                    * j]).label.path@ == scope.path@.push(j as u64).push(0),
            forall|j: int|
                0 <= j < k ==> (#[trigger] (*cs).constraints@[cs0.constraints@.len() + 2 * j
                    + 1]).label.path@ == scope.path@.push(j as u64).push(1),
        decreases n - k,
    {
        let (a_var, a_v) = match a[k] {
            Wire::Bound { var, value } => (var, value),
            Wire::Unbound => {
                proof {
                    assert(!a@[k as int].is_bound());
                }
                return Err(SynthesisError::MissingWitness);
            }
        };
        let (b_var, b_v) = match b[k] {
            Wire::Bound { var, value } => (var, value),
            Wire::Unbound => {
                proof {
                    assert(!b@[k as int].is_bound());
                }
                return Err(SynthesisError::MissingWitness);
            }
        };
        let (c_var, c_v) = match c[k] {
            Wire::Bound { var, value } => (var, value),
            Wire::Unbound => {
                proof {
                    assert(!c@[k as int].is_bound());
                }
                return Err(SynthesisError::MissingWitness);
            }
        };
        let ghost av = a_v.as_int();
        let ghost bv = b_v.as_int();
        let ghost cv = c_v.as_int();
        let lbl = scope.child(k as u64);
        let ghost prev = *cs;

        // the auxiliary gate: mid = b * c
        let mid_v = b_v.mul(c_v);
        let mid_var = cs.allocate(mid_v);
        let ghost mid_w = Wire::Bound { var: mid_var, value: mid_v };
        let one = Fe { v: 1 };
        let con_mid = Constraint {
            label: lbl.child(0),
            a: lc1(Term::Variable(one, b_var)),
            b: lc1(Term::Variable(one, c_var)),
            c: lc1(Term::Variable(one, mid_var)),
        };
        proof {
            lemma_consistent_extends(b@[k as int], prev, *cs);
            lemma_consistent_extends(c@[k as int], prev, *cs);
            assert((*cs).asg()[b_var as int] == bv);
            assert((*cs).asg()[c_var as int] == cv);
            assert((*cs).asg()[mid_var as int] == mid_v.as_int());
            assert(is_mid_gate(con_mid, b_var, c_var, mid_var));
            lemma_mid_gate_holds(con_mid, (*cs).asg(), b_var, c_var, mid_var);
            lemma_mid_gate_is_multiplication(con_mid, b_var, c_var, mid_var);
        }
        let ghost at_mid = *cs;
        cs.enforce(con_mid);
        let ghost after_mid = *cs;

        // the main gate, with the witness computed by the same formula
        let two = Fe { v: 2 };
        let four = Fe { v: 4 };
        let lin = Fe::one().sub(two.mul(b_v)).sub(two.mul(c_v)).add(four.mul(mid_v));
        let out_v = a_v.mul(lin).add(b_v).add(c_v).sub(two.mul(mid_v));
        proof {
            lemma_xor3_witness_eval(av, bv, cv);
            assert(out_v.as_int() == xor3_val(av, bv, cv));
        }
        let out_var = cs.allocate(out_v);
        let pm2 = Fe { v: MODULUS - 2 };
        let pm1 = Fe { v: MODULUS - 1 };
        let con_out = Constraint {
            label: lbl.child(1),
            a: lc1(Term::Variable(one, a_var)),
            b: lc4(
                Term::Constant(one),
                Term::Variable(pm2, b_var),
                Term::Variable(pm2, c_var),
                Term::Variable(four, mid_var),
            ),
            c: lc4(
                Term::Variable(one, out_var),
                Term::Variable(pm1, b_var),
                Term::Variable(pm1, c_var),
                Term::Variable(two, mid_var),
            ),
        };
        proof {
            lemma_extends_trans(at_mid, after_mid, *cs);
            lemma_extends_trans(prev, at_mid, *cs);
            lemma_consistent_extends(a@[k as int], prev, *cs);
            lemma_consistent_extends(b@[k as int], prev, *cs);
            lemma_consistent_extends(c@[k as int], prev, *cs);
            lemma_consistent_extends(mid_w, at_mid, *cs);
            assert((*cs).asg()[a_var as int] == av);
            assert((*cs).asg()[b_var as int] == bv);
            assert((*cs).asg()[c_var as int] == cv);
            assert((*cs).asg()[mid_var as int] == mid_v.as_int());
            assert((*cs).asg()[out_var as int] == out_v.as_int());
            assert(is_out_gate(con_out, a_var, b_var, c_var, mid_var, out_var));
            lemma_out_gate_holds(con_out, (*cs).asg(), a_var, b_var, c_var, mid_var, out_var);
            lemma_out_gate_is_multiplication(con_out, a_var, b_var, c_var, mid_var, out_var);
        }
        let ghost at_out = *cs;
        cs.enforce(con_out);
        proof {
            lemma_extends_trans(prev, after_mid, at_out);
            lemma_extends_trans(prev, at_out, *cs);
            lemma_extends_trans(cs0, prev, *cs);
            assert forall|j: int|
                0 <= j < 2 * k + 2 implies (#[trigger] (*cs).constraints@[cs0.constraints@.len()
                + j]) == (if j < 2 * k {
                prev.constraints@[cs0.constraints@.len() + j]
            } else if j == 2 * k {
                con_mid
            } else {
                con_out
            }) by {
                assert((*cs).constraints@ == at_out.constraints@.push(con_out));
                assert(at_out.constraints@ == after_mid.constraints@);
                assert(after_mid.constraints@ == at_mid.constraints@.push(con_mid));
                assert(at_mid.constraints@ == prev.constraints@);
            }
            assert(mult_gate_count((*cs).constraints@) == mult_gate_count(cs0.constraints@) + 2
                * (k as int) + 2);
            lemma_wires_consistent_extends(a@, prev, *cs);
            lemma_wires_consistent_extends(b@, prev, *cs);
            lemma_wires_consistent_extends(c@, prev, *cs);
            assert forall|j: int| 0 <= j < k implies (#[trigger] out@[j]).consistent_with(*cs) by {
                lemma_consistent_extends(out@[j], prev, *cs);
            }
            assert((*cs).asg()[out_var as int] == out_v.as_int());
        }
        out.push(Wire::Bound { var: out_var, value: out_v });
        k = k + 1;
    }
    Ok(out)
}

/// The three-way XOR template: three input vectors and one output
/// vector, all of width `n`.
pub struct XOr3 {
    pub n: usize,
    pub a: Vec<Wire>,
    pub b: Vec<Wire>,
    pub c: Vec<Wire>,
    pub out: Vec<Wire>,
}

impl XOr3 {
    /// A fresh instance with all ports unbound.
    pub fn new(n: usize) -> (g: XOr3)
        ensures
            g.n == n,
            g.a@.len() == n,
            g.b@.len() == n,
            g.c@.len() == n,
            g.out@.len() == n,
            forall|i: int| 0 <= i < n ==> !(#[trigger] g.a@[i]).is_bound(),
            forall|i: int| 0 <= i < n ==> !(#[trigger] g.b@[i]).is_bound(),
            forall|i: int| 0 <= i < n ==> !(#[trigger] g.c@[i]).is_bound(),
            forall|i: int| 0 <= i < n ==> !(#[trigger] g.out@[i]).is_bound(),
    {
        XOr3 {
            n,
            a: unbound_wires(n),
            b: unbound_wires(n),
            c: unbound_wires(n),
            out: unbound_wires(n),
        }
    }

    /// Runs the single generation pass: fills `self.out` with the
    /// per-bit XOR encoding of `self.a`, `self.b`, `self.c`.
    pub fn force(&mut self, cs: &mut ConstraintSystem, scope: &Scope) -> (result: Result<
        (),
        SynthesisError,
    >)
        requires
            old(cs).wf(),
            old(self).a@.len() == old(self).n,
            old(self).b@.len() == old(self).n,
            old(self).c@.len() == old(self).n,
            wires_consistent(old(self).a@, *old(cs)),
            wires_consistent(old(self).b@, *old(cs)),
            wires_consistent(old(self).c@, *old(cs)),
        ensures
            final(cs).wf(),
            final(cs).extends(*old(cs)),
            (final(cs).satisfied() <==> old(cs).satisfied()),
            final(self).n == old(self).n,
            final(self).a == old(self).a,
            final(self).b == old(self).b,
            final(self).c == old(self).c,
            (wires_bound(old(self).a@) && wires_bound(old(self).b@) && wires_bound(
                old(self).c@,
            )) <==> result is Ok,
            result is Err ==> result == Err::<(), SynthesisError>(SynthesisError::MissingWitness)
                && final(self).out == old(self).out,
            result is Ok ==> {
                &&& final(self).out@.len() == old(self).n
                &&& wires_bound(final(self).out@)
                &&& wires_consistent(final(self).out@, *final(cs))
                &&& forall|i: int|
                    0 <= i < old(self).n ==> (#[trigger] final(self).out@[i]).value_int()
                        == xor3_val(
                        old(self).a@[i].value_int(),
                        old(self).b@[i].value_int(),
                        old(self).c@[i].value_int(),
                    )
                &&& final(cs).num_vars() == old(cs).num_vars() + 2 * old(self).n
                &&& final(cs).constraints@.len() == old(cs).constraints@.len() + 2 * old(self).n
                &&& mult_gate_count(final(cs).constraints@) == mult_gate_count(
                    old(cs).constraints@,
                ) + 2 * old(self).n
                &&& forall|k: int|
                    0 <= k < old(self).n ==> (#[trigger] final(cs).constraints@[old(
                        cs,
                    ).constraints@.len() + 2 * k]).label.path@ == scope.path@.push(k as u64).push(
                        0,
                    )
                &&& forall|k: int|
                    0 <= k < old(self).n ==> (#[trigger] final(cs).constraints@[old(
                        cs,
                    ).constraints@.len() + 2 * k + 1]).label.path@ == scope.path@.push(
                        k as u64,
                    ).push(1)
            },
    {
        match xor3(cs, scope, self.n, &self.a, &self.b, &self.c) {
            Ok(o) => {
                self.out = o;
                Ok(())
            }
            Err(e) => Err(e),
        }
    }
}

impl CircomTemplate for XOr3 {
    type Target = ();

    /// Ready when the three input vectors have the declared width and
    /// live in `cs`.
    open spec fn ready(&self, cs: &ConstraintSystem) -> bool {
        &&& self.a@.len() == self.n
        &&& self.b@.len() == self.n
        &&& self.c@.len() == self.n
        &&& wires_consistent(self.a@, *cs)
        &&& wires_consistent(self.b@, *cs)
        &&& wires_consistent(self.c@, *cs)
    }

    /// Delegates to `force`, refining the trait's contract with the
    /// XOR encoding's full result.
    fn generate_output_signal(&mut self, cs: &mut ConstraintSystem, scope: &Scope) -> (r: Result<
        (),
        SynthesisError,
    >)
        ensures
            final(self).n == old(self).n,
            final(self).a == old(self).a,
            final(self).b == old(self).b,
            final(self).c == old(self).c,
            (wires_bound(old(self).a@) && wires_bound(old(self).b@) && wires_bound(
                old(self).c@,
            )) <==> r is Ok,
            r is Err ==> r == Err::<(), SynthesisError>(SynthesisError::MissingWitness)
                && final(self).out == old(self).out,
            r is Ok ==> {
                &&& final(self).out@.len() == old(self).n
                &&& wires_bound(final(self).out@)
                &&& wires_consistent(final(self).out@, *final(cs))
                &&& forall|i: int|
                    0 <= i < old(self).n ==> (#[trigger] final(self).out@[i]).value_int()
                        == xor3_val(
                        old(self).a@[i].value_int(),
                        old(self).b@[i].value_int(),
                        old(self).c@[i].value_int(),
                    )
            },
    {
        self.force(cs, scope)
    }
}

} // verus!
