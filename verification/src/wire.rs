//! Circuit wires.
//!
//! A wire is a field-valued circuit variable.  Between construction and
//! generation it is a placeholder; binding it registers a fresh variable
//! in the constraint system and fixes its witness value.  Reading an
//! unbound wire's witness is the one recoverable error of synthesis.

use vstd::prelude::*;
use crate::field::Fe;
use crate::cs::{
    Constraint, ConstraintSystem, SynthesisError, Term, constraint_holds, is_equality_gate,
    lc_sum, lemma_copy_gates_not_multiplication, mult_gate_count,
};
use crate::scope::Scope;

verus! {

/// A wire: either still waiting for its witness, or bound to a
/// constraint-system variable carrying one.
#[derive(Clone, Copy, PartialEq, Eq, Structural, Debug)]
pub enum Wire {
    Unbound,
    Bound { var: usize, value: Fe },
}

impl Wire {
    pub open spec fn is_bound(self) -> bool {
        self is Bound
    }

    /// The variable the wire is bound to (meaningful only when bound).
    pub open spec fn var(self) -> usize {
        match self {
            Wire::Unbound => 0,
            Wire::Bound { var, .. } => var,
        }
    }

    /// The witness value as a field element (zero when unbound).
    pub open spec fn value_fe(self) -> Fe {
        match self {
            Wire::Unbound => Fe { v: 0 },
            Wire::Bound { value, .. } => value,
        }
    }

    /// The witness value as an integer.
    pub open spec fn value_int(self) -> int {
        self.value_fe().as_int()
    }

    /// A bound wire names an allocated variable whose entry in the
    /// witness assignment is exactly the wire's value.
    pub open spec fn consistent_with(self, cs: ConstraintSystem) -> bool {
        self is Bound ==> {
            &&& self.var() < cs.num_vars()
            &&& self.value_fe().valid()
            &&& cs.asg()[self.var() as int] == self.value_int()
        }
    }

    /// A fresh placeholder wire.
    pub fn initialize() -> (w: Wire)
        ensures
            !w.is_bound(),
    {
        Wire::Unbound
    }

    /// The witness value, or `MissingWitness` when the wire is unbound.
    pub fn get_value(&self) -> (r: Result<Fe, SynthesisError>)
        ensures
            self.is_bound() ==> r == Ok::<Fe, SynthesisError>(self.value_fe()),
            !self.is_bound() ==> r == Err::<Fe, SynthesisError>(SynthesisError::MissingWitness),
    {
        match self {
            Wire::Unbound => Err(SynthesisError::MissingWitness),
            Wire::Bound { value, .. } => Ok(*value),
        }
    }

    /// Binds the wire: registers a fresh variable holding `value` and
    /// makes the wire point at it.
    pub fn assign(&mut self, cs: &mut ConstraintSystem, value: Fe)
        requires
            old(cs).wf(),
            value.valid(),
        ensures
            final(cs).wf(),
            final(cs).extends(*old(cs)),
            (final(cs).satisfied() <==> old(cs).satisfied()),
            final(cs).num_vars() == old(cs).num_vars() + 1,
            final(cs).constraints@ == old(cs).constraints@,
            final(self).is_bound(),
            final(self).var() == old(cs).num_vars(),
            final(self).value_fe() == value,
            final(self).consistent_with(*final(cs)),
    {
        let var = cs.allocate(value);
        *self = Wire::Bound { var, value };
    }
}

/// Every wire of the sequence is bound.
pub open spec fn wires_bound(ws: Seq<Wire>) -> bool {
    forall|i: int| 0 <= i < ws.len() ==> (#[trigger] ws[i]).is_bound()
}

/// Every wire of the sequence is consistent with the system.
pub open spec fn wires_consistent(ws: Seq<Wire>, cs: ConstraintSystem) -> bool {
    forall|i: int| 0 <= i < ws.len() ==> (#[trigger] ws[i]).consistent_with(cs)
}

/// Consistency of a wire is kept while the system only grows.
pub proof fn lemma_consistent_extends(w: Wire, base: ConstraintSystem, cur: ConstraintSystem)
    requires
        w.consistent_with(base),
        cur.extends(base),
    ensures
        w.consistent_with(cur),
{
}

pub proof fn lemma_wires_consistent_extends(
    ws: Seq<Wire>,
    base: ConstraintSystem,
    cur: ConstraintSystem,
)
    requires
        wires_consistent(ws, base),
        cur.extends(base),
    ensures
        wires_consistent(ws, cur),
{
    assert forall|i: int| 0 <= i < ws.len() implies (#[trigger] ws[i]).consistent_with(cur) by {
        lemma_consistent_extends(ws[i], base, cur);
    }
}

/// `extends` chains across successive synthesis steps.
pub proof fn lemma_extends_trans(
    a: ConstraintSystem,
    b: ConstraintSystem,
    c: ConstraintSystem,
)
    requires
        b.extends(a),
        c.extends(b),
    ensures
        c.extends(a),
{
}

/// A vector of `n` placeholder wires, the state of every gadget port at
/// construction.
pub fn unbound_wires(n: usize) -> (ws: Vec<Wire>)
    ensures
        ws@.len() == n,
        forall|i: int| 0 <= i < n ==> !(#[trigger] ws@[i]).is_bound(),
{
    let mut ws: Vec<Wire> = Vec::new();
    let mut i: usize = 0;
    while i < n
        invariant
            i <= n,
            ws@.len() == i,
            forall|j: int| 0 <= j < i ==> !(#[trigger] ws@[j]).is_bound(),
        decreases n - i,
    {
        ws.push(Wire::initialize());
        i = i + 1;
    }
    ws
}

/// Copies a whole wire vector by equality constraints: one fresh wire
/// per source wire, each bound to the source's witness and constrained
/// equal to it.  Fails with `MissingWitness` exactly when some source
/// wire is unbound.
pub fn copy_vector(cs: &mut ConstraintSystem, scope: &Scope, src: &Vec<Wire>) -> (r: Result<
    Vec<Wire>,
    SynthesisError,
>)
    requires
        old(cs).wf(),
        wires_consistent(src@, *old(cs)),
    ensures
        final(cs).wf(),
        final(cs).extends(*old(cs)),
        (final(cs).satisfied() <==> old(cs).satisfied()),
        wires_bound(src@) <==> r is Ok,
        r is Err ==> r == Err::<Vec<Wire>, SynthesisError>(SynthesisError::MissingWitness),
        r matches Ok(out) ==> {
            &&& out@.len() == src@.len()
            &&& wires_bound(out@)
            &&& wires_consistent(out@, *final(cs))
            &&& forall|i: int|
                0 <= i < src@.len() ==> (#[trigger] out@[i]).value_int() == src@[i].value_int()
            &&& final(cs).num_vars() == old(cs).num_vars() + src@.len()
            &&& final(cs).constraints@.len() == old(cs).constraints@.len() + src@.len()
            &&& mult_gate_count(final(cs).constraints@) == mult_gate_count(
                old(cs).constraints@,
            )
            &&& forall|i: int|
                0 <= i < src@.len() ==> (#[trigger] out@[i]).var() as int == old(cs).num_vars()
                    + i
            &&& forall|i: int|
                0 <= i < src@.len() ==> is_equality_gate(
                    #[trigger] final(cs).constraints@[old(cs).constraints@.len() + i],
                    src@[i].var(),
                    out@[i].var(),
                )
            &&& forall|i: int|
                0 <= i < src@.len() ==> (#[trigger] final(cs).constraints@[old(
                    cs,
                ).constraints@.len() + i]).label.path@ == scope.path@.push(i as u64)
        },
{
    let n = src.len();
    let mut out: Vec<Wire> = Vec::new();
    let ghost cs0 = *cs;
    let mut i: usize = 0;
    while i < n
        invariant
            cs0 == *old(cs),
            i <= n,
            n == src@.len(),
            out@.len() == i,
            (*cs).wf(),
            (*cs).extends(cs0),
            ((*cs).satisfied() <==> cs0.satisfied()),
            wires_consistent(src@, *cs),
            forall|j: int| 0 <= j < i ==> (#[trigger] out@[j]).is_bound(),
            forall|j: int| 0 <= j < i ==> (#[trigger] out@[j]).consistent_with(*cs),
            forall|j: int|
                0 <= j < i ==> (#[trigger] out@[j]).value_int() == src@[j].value_int(),
            forall|j: int| 0 <= j < i ==> (#[trigger] src@[j]).is_bound(),
            (*cs).num_vars() == cs0.num_vars() + i,
            (*cs).constraints@.len() == cs0.constraints@.len() + i,
            mult_gate_count((*cs).constraints@) == mult_gate_count(cs0.constraints@),
            forall|j: int| 0 <= j < i ==> (#[trigger] out@[j]).var() as int == cs0.num_vars() + j,
            forall|j: int|
                0 <= j < i ==> is_equality_gate(
                    #[trigger] (*cs).constraints@[cs0.constraints@.len() + j],
                    src@[j].var(),
                    out@[j].var(),
                ),
            forall|j: int|
                0 <= j < i ==> (#[trigger] (*cs).constraints@[cs0.constraints@.len()
                    + j]).label.path@ == scope.path@.push(j as u64),
        decreases n - i,
    {
        let ghost prev = *cs;
        let label = scope.child(i as u64);
        match constrain_equal(cs, label, &src[i]) {
            Ok(w) => {
                proof {
                    assert forall|j: int|
                        0 <= j < i implies (#[trigger] (*cs).constraints@[cs0.constraints@.len()
                        + j]) == prev.constraints@[cs0.constraints@.len() + j] by {
                        assert((*cs).extends(prev));
                    }
                    lemma_wires_consistent_extends(src@, prev, *cs);
                    assert forall|j: int|
                        0 <= j < i implies (#[trigger] out@[j]).consistent_with(*cs) by {
                        lemma_consistent_extends(out@[j], prev, *cs);
                    }
                    lemma_extends_trans(cs0, prev, *cs);
                }
                out.push(w);
            }
            Err(e) => {
                proof {
                    assert(!src@[i as int].is_bound());
                }
                return Err(e);
            }
        }
        i = i + 1;
    }
    Ok(out)
}

/// The equality-copy primitive `target <== source`: binds a fresh wire to
/// the source's witness and emits the constraint `source * 1 = target`.
/// Fails with `MissingWitness`, emitting nothing, when the source is
/// still unbound.
pub fn constrain_equal(cs: &mut ConstraintSystem, label: Scope, source: &Wire) -> (r: Result<
    Wire,
    SynthesisError,
>)
    requires
        old(cs).wf(),
        source.consistent_with(*old(cs)),
    ensures
        final(cs).wf(),
        final(cs).extends(*old(cs)),
        (final(cs).satisfied() <==> old(cs).satisfied()),
        source.is_bound() <==> r is Ok,
        r is Err ==> r == Err::<Wire, SynthesisError>(SynthesisError::MissingWitness) && *final(cs)
            == *old(cs),
        r matches Ok(w) ==> {
            &&& w.is_bound()
            &&& w.consistent_with(*final(cs))
            &&& w.value_fe() == source.value_fe()
            &&& w.var() == old(cs).num_vars()
            &&& final(cs).num_vars() == old(cs).num_vars() + 1
            &&& final(cs).constraints@.len() == old(cs).constraints@.len() + 1
            &&& is_equality_gate(
                final(cs).constraints@[old(cs).constraints@.len() as int],
                source.var(),
                w.var(),
            )
            &&& final(cs).constraints@[old(cs).constraints@.len() as int].label == label
            &&& mult_gate_count(final(cs).constraints@) == mult_gate_count(
                old(cs).constraints@,
            )
        },
{
    match source {
        Wire::Unbound => Err(SynthesisError::MissingWitness),
        Wire::Bound { var, value } => {
            let src_var: usize = *var;
            let v: Fe = *value;
            let new_var = cs.allocate(v);
            let one = Fe { v: 1 };
            let con = Constraint {
                label,
                a: crate::cs::lc1(Term::Variable(one, src_var)),
                b: crate::cs::lc1(Term::Constant(one)),
                c: crate::cs::lc1(Term::Variable(one, new_var)),
            };
            proof {
                crate::cs::lemma_lc_sum_len1(con.a.terms@, cs.asg());
                crate::cs::lemma_lc_sum_len1(con.b.terms@, cs.asg());
                crate::cs::lemma_lc_sum_len1(con.c.terms@, cs.asg());
                assert(lc_sum(con.a.terms@, cs.asg()) == cs.asg()[src_var as int]);
                assert(lc_sum(con.b.terms@, cs.asg()) == 1);
                assert(lc_sum(con.c.terms@, cs.asg()) == v.as_int());
                assert(cs.asg()[src_var as int] == v.as_int());
                assert(constraint_holds(con, cs.asg()));
            }
            proof {
                lemma_copy_gates_not_multiplication(con, src_var, new_var);
            }
            cs.enforce(con);
            Ok(Wire::Bound { var: new_var, value: v })
        }
    }
}

} // verus!
