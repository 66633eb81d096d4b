//! The rank-1 constraint system.
//!
//! A constraint is `A * B = C` where `A`, `B` and `C` are linear
//! combinations of allocated variables and the unit constant, over the
//! prime field of `crate::field`.  The system stores the constraints
//! together with the witness assignment built up while synthesizing, so
//! that satisfaction — every constraint's product equality holding over
//! the field — is a property of the system alone.

use vstd::prelude::*;
use vstd::arithmetic::div_mod::{
    lemma_add_mod_noop, lemma_mod_equivalence, lemma_mul_mod_noop_general, lemma_small_mod,
};
use crate::field::{Fe, MODULUS};
use crate::scope::Scope;

verus! {

/// The one error synthesis can report: a wire's witness was read before
/// the wire was bound.  Length consistency of the produced vectors is
/// established statically, so it needs no error case.
#[derive(Clone, Copy, PartialEq, Eq, Structural, Debug)]
pub enum SynthesisError {
    MissingWitness,
}

/// One addend of a linear combination: a coefficient times either the
/// unit constant or an allocated variable.
#[derive(Clone, Copy, PartialEq, Eq, Structural, Debug)]
pub enum Term {
    Constant(Fe),
    Variable(Fe, usize),
}

/// A linear combination of variables and the unit constant.
pub struct LinComb {
    pub terms: Vec<Term>,
}

/// One rank-1 constraint `a * b = c`, labelled with the scope that
/// emitted it.
pub struct Constraint {
    pub label: Scope,
    pub a: LinComb,
    pub b: LinComb,
    pub c: LinComb,
}

/// The shared synthesis context: the witness assignment (one field value
/// per allocated variable) and the constraints emitted so far.
pub struct ConstraintSystem {
    pub assignment: Vec<Fe>,
    pub constraints: Vec<Constraint>,
}

/// A term is well formed when its coefficient is reduced and its
/// variable, if any, has been allocated.
pub open spec fn term_wf(t: Term, n: nat) -> bool {
    match t {
        Term::Constant(k) => k.valid(),
        Term::Variable(k, i) => k.valid() && i < n,
    }
}

/// The integer value of a term under an assignment (the unit constant
/// counts as 1).
pub open spec fn term_sum(t: Term, asg: Seq<int>) -> int {
    match t {
        Term::Constant(k) => k.as_int(),
        Term::Variable(k, i) => k.as_int() * asg[i as int],
    }
}

pub open spec fn lc_wf(terms: Seq<Term>, n: nat) -> bool {
    forall|i: int| 0 <= i < terms.len() ==> term_wf(#[trigger] terms[i], n)
}

/// The integer value of a linear combination under an assignment: the
/// plain sum of its terms, not yet reduced.
pub open spec fn lc_sum(terms: Seq<Term>, asg: Seq<int>) -> int
    decreases terms.len(),
{
    if terms.len() == 0 {
        0
    } else {
        term_sum(terms[0], asg) + lc_sum(terms.drop_first(), asg)
    }
}

pub open spec fn constraint_wf(c: Constraint, n: nat) -> bool {
    &&& lc_wf(c.a.terms@, n)
    &&& lc_wf(c.b.terms@, n)
    &&& lc_wf(c.c.terms@, n)
}

/// A constraint holds under an assignment when `a * b` is congruent to
/// `c` modulo the field modulus.
pub open spec fn constraint_holds(c: Constraint, asg: Seq<int>) -> bool {
    (lc_sum(c.a.terms@, asg) * lc_sum(c.b.terms@, asg) - lc_sum(c.c.terms@, asg))
        % (MODULUS as int) == 0
}

impl ConstraintSystem {
    /// The number of allocated variables.
    pub open spec fn num_vars(self) -> nat {
        self.assignment@.len()
    }

    /// The witness assignment as a sequence of integers.
    pub open spec fn asg(self) -> Seq<int> {
        self.assignment@.map(|i: int, f: Fe| f.as_int())
    }

    /// Every stored field value is reduced and every constraint only
    /// mentions allocated variables.
    pub open spec fn wf(self) -> bool {
        &&& forall|i: int|
            0 <= i < self.assignment@.len() ==> (#[trigger] self.assignment@[i]).valid()
        &&& forall|i: int|
            0 <= i < self.constraints@.len() ==> constraint_wf(
                #[trigger] self.constraints@[i],
                self.num_vars(),
            )
    }

    /// The witness satisfies every emitted constraint.
    pub open spec fn satisfied(self) -> bool {
        forall|i: int|
            0 <= i < self.constraints@.len() ==> constraint_holds(
                #[trigger] self.constraints@[i],
                self.asg(),
            )
    }

    /// `self` grew out of `base`: every variable of `base` keeps its
    /// value and every constraint of `base` is still in place.
    pub open spec fn extends(self, base: ConstraintSystem) -> bool {
        &&& base.num_vars() <= self.num_vars()
        &&& forall|i: int| 0 <= i < base.num_vars() ==> self.asg()[i] == #[trigger] base.asg()[i]
        &&& base.constraints@.len() <= self.constraints@.len()
        &&& forall|i: int|
            0 <= i < base.constraints@.len() ==> self.constraints@[i]
                == #[trigger] base.constraints@[i]
    }

    /// An empty system: no variables, no constraints, trivially
    /// satisfied.
    pub fn new() -> (cs: ConstraintSystem)
        ensures
            cs.wf(),
            cs.satisfied(),
            cs.num_vars() == 0,
            cs.constraints@.len() == 0,
    {
        ConstraintSystem { assignment: Vec::new(), constraints: Vec::new() }
    }

    /// Allocates a fresh variable bound to `value` and returns its index.
    pub fn allocate(&mut self, value: Fe) -> (var: usize)
        requires
            old(self).wf(),
            value.valid(),
        ensures
            final(self).wf(),
            final(self).extends(*old(self)),
            var == old(self).num_vars(),
            final(self).num_vars() == old(self).num_vars() + 1,
            final(self).asg() == old(self).asg().push(value.as_int()),
            final(self).asg()[var as int] == value.as_int(),
            final(self).constraints@ == old(self).constraints@,
            final(self).satisfied() <==> old(self).satisfied(),
    {
        let var = self.assignment.len();
        self.assignment.push(value);
        proof {
            assert((*self).asg() =~= old(self).asg().push(value.as_int()));
            assert forall|i: int|
                0 <= i < (*self).constraints@.len() implies constraint_wf(
                #[trigger] (*self).constraints@[i],
                (*self).num_vars(),
            ) by {
                lemma_constraint_wf_mono(
                    (*self).constraints@[i],
                    old(self).num_vars(),
                    (*self).num_vars(),
                );
            }
            assert forall|i: int|
                0 <= i < (*self).constraints@.len() implies (constraint_holds(
                #[trigger] (*self).constraints@[i],
                (*self).asg(),
            ) == constraint_holds((*self).constraints@[i], old(self).asg())) by {
                lemma_constraint_holds_agree(
                    (*self).constraints@[i],
                    old(self).asg(),
                    (*self).asg(),
                    old(self).num_vars(),
                );
            }
        }
        var
    }

    /// Evaluates a linear combination under the current witness
    /// assignment, reduced modulo the field modulus.
    fn eval_lc(&self, lc: &LinComb) -> (r: Fe)
        requires
            self.wf(),
            lc_wf(lc.terms@, self.num_vars()),
        ensures
            r.valid(),
            r.as_int() == lc_sum(lc.terms@, self.asg()) % (MODULUS as int),
    {
        let mut acc = Fe::zero();
        let mut i: usize = 0;
        let n = lc.terms.len();
        proof {
            assert(lc.terms@.take(0).len() == 0);
        }
        while i < n
            invariant
                self.wf(),
                lc_wf(lc.terms@, self.num_vars()),
                i <= n,
                n == lc.terms@.len(),
                acc.valid(),
                acc.as_int() == lc_sum(lc.terms@.take(i as int), self.asg()) % (MODULUS as int),
            decreases n - i,
        {
            let t = lc.terms[i];
            proof {
                assert(term_wf(lc.terms@[i as int], self.num_vars()));
            }
            let tv: Fe = match t {
                Term::Constant(k) => k,
                Term::Variable(k, v) => k.mul(self.assignment[v]),
            };
            proof {
                match t {
                    Term::Constant(k) => {
                        lemma_small_mod(k.v as nat, MODULUS as nat);
                        assert(tv.as_int() == term_sum(t, self.asg()) % (MODULUS as int));
                    }
                    Term::Variable(k, v) => {
                        assert(self.asg()[v as int] == self.assignment@[v as int].as_int());
                        assert(tv.as_int() == term_sum(t, self.asg()) % (MODULUS as int));
                    }
                }
            }
            let ghost prefix = lc.terms@.take(i as int);
            let ghost asg = self.asg();
            acc = acc.add(tv);
            proof {
                lemma_lc_sum_take_succ(lc.terms@, asg, i as int);
                lemma_add_mod_noop(lc_sum(prefix, asg), term_sum(lc.terms@[i as int], asg),
                    MODULUS as int);
            }
            i = i + 1;
        }
        proof {
            assert(lc.terms@.take(n as int) =~= lc.terms@);
        }
        acc
    }

    /// Checks executably that the current witness satisfies every
    /// emitted constraint: for each, the reduced product of the `a` and
    /// `b` sums equals the reduced `c` sum over the field.
    pub fn is_satisfied(&self) -> (r: bool)
        requires
            self.wf(),
        ensures
            r == self.satisfied(),
    {
        let mut i: usize = 0;
        let n = self.constraints.len();
        while i < n
            invariant
                self.wf(),
                i <= n,
                n == self.constraints@.len(),
                forall|j: int|
                    0 <= j < i ==> constraint_holds(#[trigger] self.constraints@[j], self.asg()),
            decreases n - i,
        {
            let con = &self.constraints[i];
            let ea = self.eval_lc(&con.a);
            let eb = self.eval_lc(&con.b);
            let ec = self.eval_lc(&con.c);
            let prod = ea.mul(eb);
            proof {
                lemma_holds_iff_reduced_eval(*con, self.asg());
            }
            if prod.v != ec.v {
                proof {
                    assert(!constraint_holds(self.constraints@[i as int], self.asg()));
                }
                return false;
            }
            i = i + 1;
        }
        true
    }

    /// Appends one constraint.
    pub fn enforce(&mut self, constraint: Constraint)
        requires
            old(self).wf(),
            constraint_wf(constraint, old(self).num_vars()),
        ensures
            final(self).wf(),
            final(self).extends(*old(self)),
            final(self).num_vars() == old(self).num_vars(),
            final(self).asg() == old(self).asg(),
            final(self).constraints@ == old(self).constraints@.push(constraint),
            mult_gate_count(final(self).constraints@) == mult_gate_count(old(self).constraints@)
                + if is_multiplication_gate(constraint) {
                1int
            } else {
                0int
            },
            final(self).satisfied() <==> (old(self).satisfied() && constraint_holds(
                constraint,
                old(self).asg(),
            )),
    {
        self.constraints.push(constraint);
        proof {
            lemma_mult_gate_count_push(old(self).constraints@, constraint);
            assert((*self).asg() =~= old(self).asg());
            if old(self).satisfied() && constraint_holds(constraint, old(self).asg()) {
                assert forall|i: int|
                    0 <= i < (*self).constraints@.len() implies constraint_holds(
                    #[trigger] (*self).constraints@[i],
                    (*self).asg(),
                ) by {
                    if i < old(self).constraints@.len() {
                        assert(constraint_holds(old(self).constraints@[i], old(self).asg()));
                    } else {
                        assert((*self).constraints@[i] == constraint);
                    }
                }
            }
            if (*self).satisfied() {
                let n = old(self).constraints@.len() as int;
                assert forall|i: int|
                    0 <= i < n implies constraint_holds(
                    #[trigger] old(self).constraints@[i],
                    old(self).asg(),
                ) by {
                    assert((*self).constraints@[i] == old(self).constraints@[i]);
                    assert(constraint_holds((*self).constraints@[i], (*self).asg()));
                }
                assert((*self).constraints@[n] == constraint);
                assert(constraint_holds(constraint, old(self).asg()));
            }
        }
    }
}

/// Well-formedness of a constraint is kept when more variables are
/// allocated.
pub proof fn lemma_constraint_wf_mono(c: Constraint, n1: nat, n2: nat)
    requires
        constraint_wf(c, n1),
        n1 <= n2,
    ensures
        constraint_wf(c, n2),
{
}

/// An equality-copy gate: `src * 1 = dst`, one variable on each outer
/// side and the unit constant in the middle.
pub open spec fn is_equality_gate(c: Constraint, src: usize, dst: usize) -> bool {
    &&& c.a.terms@.len() == 1 && c.a.terms@[0] == Term::Variable(Fe { v: 1 }, src)
    &&& c.b.terms@.len() == 1 && c.b.terms@[0] == Term::Constant(Fe { v: 1 })
    &&& c.c.terms@.len() == 1 && c.c.terms@[0] == Term::Variable(Fe { v: 1 }, dst)
}

/// A zero-forcing gate: `0 * 1 = dst`, pinning `dst` to the field's
/// additive identity.
pub open spec fn is_zero_gate(c: Constraint, dst: usize) -> bool {
    &&& c.a.terms@.len() == 0
    &&& c.b.terms@.len() == 1 && c.b.terms@[0] == Term::Constant(Fe { v: 1 })
    &&& c.c.terms@.len() == 1 && c.c.terms@[0] == Term::Variable(Fe { v: 1 }, dst)
}

/// Whether a linear combination mentions any variable.
pub open spec fn lc_has_variable(terms: Seq<Term>) -> bool {
    exists|i: int| 0 <= i < terms.len() && (#[trigger] terms[i]) is Variable
}

/// A multiplication gate multiplies two circuit values: both its `a`
/// and `b` sides mention a variable.  Equality and zero-forcing gates
/// are not multiplication gates: their `b` side is the constant alone.
pub open spec fn is_multiplication_gate(c: Constraint) -> bool {
    lc_has_variable(c.a.terms@) && lc_has_variable(c.b.terms@)
}

/// How many of the constraints are multiplication gates.
pub open spec fn mult_gate_count(cons: Seq<Constraint>) -> int
    decreases cons.len(),
{
    if cons.len() == 0 {
        0
    } else {
        mult_gate_count(cons.drop_last()) + if is_multiplication_gate(cons.last()) {
            1int
        } else {
            0int
        }
    }
}

/// Appending one constraint raises the multiplication-gate count by one
/// or zero, by the appended gate's shape.
pub proof fn lemma_mult_gate_count_push(cons: Seq<Constraint>, c: Constraint)
    ensures
        mult_gate_count(cons.push(c)) == mult_gate_count(cons) + if is_multiplication_gate(c) {
            1int
        } else {
            0int
        },
{
    assert(cons.push(c).drop_last() =~= cons);
    assert(cons.push(c).last() == c);
}

/// Neither an equality gate nor a zero-forcing gate multiplies two
/// circuit values.
pub proof fn lemma_copy_gates_not_multiplication(c: Constraint, src: usize, dst: usize)
    requires
        is_equality_gate(c, src, dst) || is_zero_gate(c, dst),
    ensures
        !is_multiplication_gate(c),
{
    assert(forall|i: int|
        0 <= i < c.b.terms@.len() ==> !((#[trigger] c.b.terms@[i]) is Variable));
}

/// The constraint's label lies strictly below `scope` in the naming
/// tree.
pub open spec fn label_under(c: Constraint, scope: Scope) -> bool {
    &&& c.label.path@.len() > scope.path@.len()
    &&& c.label.path@.take(scope.path@.len() as int) == scope.path@
}

/// No two of the constraints in the index range share a label path.
pub open spec fn labels_distinct(cons: Seq<Constraint>, lo: int, hi: int) -> bool {
    forall|j1: int, j2: int|
        lo <= j1 < j2 < hi ==> (#[trigger] cons[j1]).label.path@ != (
        #[trigger] cons[j2]).label.path@
}

/// A run of constraints labelled `parent / tag / i`, one per index:
/// they all lie below `parent`, all carry `tag` right below it, and no
/// two share a label.
pub proof fn lemma_tagged_run_labels(
    cons: Seq<Constraint>,
    lo: int,
    n: int,
    parent: Scope,
    tag: u64,
)
    requires
        0 <= lo,
        0 <= n,
        n <= 0xFFFF_FFFF_FFFF_FFFF,
        lo + n <= cons.len(),
        forall|i: int|
            0 <= i < n ==> (#[trigger] cons[lo + i]).label.path@ == parent.path@.push(tag).push(
                i as u64,
            ),
    ensures
        forall|j: int|
            lo <= j < lo + n ==> (#[trigger] cons[j]).label.path@.len() > parent.path@.len() + 1
                && cons[j].label.path@[parent.path@.len() as int] == tag && label_under(
                cons[j],
                parent,
            ),
        labels_distinct(cons, lo, lo + n),
{
    let ppath = parent.path@;
    let ln = ppath.len() as int;
    assert forall|j: int|
        lo <= j < lo + n implies (#[trigger] cons[j]).label.path@.len() > ln + 1
            && cons[j].label.path@[ln] == tag && label_under(cons[j], parent) by {
        assert(cons[lo + (j - lo)].label.path@ == ppath.push(tag).push((j - lo) as u64));
        assert(cons[j].label.path@.take(ln) =~= ppath);
    }
    assert forall|j1: int, j2: int|
        lo <= j1 < j2 < lo + n implies (#[trigger] cons[j1]).label.path@ != (
    #[trigger] cons[j2]).label.path@ by {
        assert(cons[lo + (j1 - lo)].label.path@ == ppath.push(tag).push((j1 - lo) as u64));
        assert(cons[lo + (j2 - lo)].label.path@ == ppath.push(tag).push((j2 - lo) as u64));
        if cons[j1].label.path@ == cons[j2].label.path@ {
            assert(cons[j1].label.path@[ln + 1] == (j1 - lo) as u64);
            assert(cons[j2].label.path@[ln + 1] == (j2 - lo) as u64);
            assert((j1 - lo) as u64 == (j2 - lo) as u64);
            assert(j1 - lo == (j1 - lo) as u64 as int);
            assert(j2 - lo == (j2 - lo) as u64 as int);
        }
    }
}

/// A run of constraint pairs labelled `parent / tag / k / g` with `g`
/// either 0 or 1: the same conclusions as for a simple tagged run.
pub proof fn lemma_tagged_pair_run_labels(
    cons: Seq<Constraint>,
    lo: int,
    n: int,
    parent: Scope,
    tag: u64,
)
    requires
        0 <= lo,
        0 <= n,
        n <= 0xFFFF_FFFF_FFFF_FFFF,
        lo + 2 * n <= cons.len(),
        forall|k: int|
            0 <= k < n ==> (#[trigger] cons[lo + 2 * k]).label.path@ == parent.path@.push(
                tag,
            ).push(k as u64).push(0),
        forall|k: int|
            0 <= k < n ==> (#[trigger] cons[lo + 2 * k + 1]).label.path@ == parent.path@.push(
                tag,
            ).push(k as u64).push(1),
    ensures
        forall|j: int|
            lo <= j < lo + 2 * n ==> (#[trigger] cons[j]).label.path@.len() > parent.path@.len()
                + 1 && cons[j].label.path@[parent.path@.len() as int] == tag && label_under(
                cons[j],
                parent,
            ),
        labels_distinct(cons, lo, lo + 2 * n),
{
    let ppath = parent.path@;
    let ln = ppath.len() as int;
    assert forall|j: int|
        lo <= j < lo + 2 * n implies (#[trigger] cons[j]).label.path@ == ppath.push(tag).push(
        ((j - lo) / 2) as u64,
    ).push(((j - lo) % 2) as u64) by {
        let k = (j - lo) / 2;
        let g = (j - lo) % 2;
        assert(j - lo == 2 * k + g && (g == 0 || g == 1));
        if g == 0 {
            assert(cons[lo + 2 * k].label.path@ == ppath.push(tag).push(k as u64).push(0));
        } else {
            assert(cons[lo + 2 * k + 1].label.path@ == ppath.push(tag).push(k as u64).push(1));
        }
    }
    assert forall|j: int|
        lo <= j < lo + 2 * n implies (#[trigger] cons[j]).label.path@.len() > ln + 1
            && cons[j].label.path@[ln] == tag && label_under(cons[j], parent) by {
        assert(cons[j].label.path@.take(ln) =~= ppath);
    }
    assert forall|j1: int, j2: int|
        lo <= j1 < j2 < lo + 2 * n implies (#[trigger] cons[j1]).label.path@ != (
    #[trigger] cons[j2]).label.path@ by {
        if cons[j1].label.path@ == cons[j2].label.path@ {
            assert(cons[j1].label.path@[ln + 1] == ((j1 - lo) / 2) as u64);
            assert(cons[j1].label.path@[ln + 2] == ((j1 - lo) % 2) as u64);
            assert(cons[j2].label.path@[ln + 1] == ((j2 - lo) / 2) as u64);
            assert(cons[j2].label.path@[ln + 2] == ((j2 - lo) % 2) as u64);
            assert(0 <= (j1 - lo) / 2 < n && 0 <= (j2 - lo) / 2 < n);
            assert((j1 - lo) / 2 == ((j1 - lo) / 2) as u64 as int);
            assert((j2 - lo) / 2 == ((j2 - lo) / 2) as u64 as int);
            assert((j1 - lo) / 2 == (j2 - lo) / 2 && (j1 - lo) % 2 == (j2 - lo) % 2);
            assert(j1 - lo == 2 * ((j1 - lo) / 2) + (j1 - lo) % 2);
            assert(j2 - lo == 2 * ((j2 - lo) / 2) + (j2 - lo) % 2);
        }
    }
}

/// Merging a freshly tagged run into the runs before it: tags below the
/// new one cannot collide with it, so distinctness extends.
pub proof fn lemma_labels_merge(
    cons: Seq<Constraint>,
    lo: int,
    mid: int,
    hi: int,
    ln: int,
    tag: u64,
)
    requires
        lo <= mid <= hi,
        forall|j: int|
            lo <= j < mid ==> (#[trigger] cons[j]).label.path@.len() > ln
                && cons[j].label.path@[ln] < tag,
        forall|j: int|
            mid <= j < hi ==> (#[trigger] cons[j]).label.path@.len() > ln
                && cons[j].label.path@[ln] == tag,
        labels_distinct(cons, lo, mid),
        labels_distinct(cons, mid, hi),
    ensures
        labels_distinct(cons, lo, hi),
        forall|j: int|
            lo <= j < hi ==> (#[trigger] cons[j]).label.path@.len() > ln
                && cons[j].label.path@[ln] < tag + 1,
{
    assert forall|j1: int, j2: int|
        lo <= j1 < j2 < hi implies (#[trigger] cons[j1]).label.path@ != (
    #[trigger] cons[j2]).label.path@ by {
        if j1 < mid && mid <= j2 {
            if cons[j1].label.path@ == cons[j2].label.path@ {
                assert(cons[j1].label.path@[ln] == cons[j2].label.path@[ln]);
            }
        }
    }
}

/// An empty linear combination (value 0).
pub fn lc0() -> (lc: LinComb)
    ensures
        lc.terms@.len() == 0,
{
    LinComb { terms: Vec::new() }
}

/// A linear combination of one term.
pub fn lc1(t0: Term) -> (lc: LinComb)
    ensures
        lc.terms@.len() == 1,
        lc.terms@[0] == t0,
{
    let mut terms: Vec<Term> = Vec::new();
    terms.push(t0);
    LinComb { terms }
}

/// A linear combination of four terms.
pub fn lc4(t0: Term, t1: Term, t2: Term, t3: Term) -> (lc: LinComb)
    ensures
        lc.terms@.len() == 4,
        lc.terms@[0] == t0,
        lc.terms@[1] == t1,
        lc.terms@[2] == t2,
        lc.terms@[3] == t3,
{
    let mut terms: Vec<Term> = Vec::new();
    terms.push(t0);
    terms.push(t1);
    terms.push(t2);
    terms.push(t3);
    LinComb { terms }
}

/// Unfoldings of `lc_sum` for the short combinations the gadgets emit.
pub proof fn lemma_lc_sum_len0(s: Seq<Term>, asg: Seq<int>)
    requires
        s.len() == 0,
    ensures
        lc_sum(s, asg) == 0,
{
}

pub proof fn lemma_lc_sum_len1(s: Seq<Term>, asg: Seq<int>)
    requires
        s.len() == 1,
    ensures
        lc_sum(s, asg) == term_sum(s[0], asg),
{
    assert(s.drop_first().len() == 0);
    assert(lc_sum(s.drop_first(), asg) == 0);
}

pub proof fn lemma_lc_sum_len4(s: Seq<Term>, asg: Seq<int>)
    requires
        s.len() == 4,
    ensures
        lc_sum(s, asg) == term_sum(s[0], asg) + term_sum(s[1], asg) + term_sum(s[2], asg)
            + term_sum(s[3], asg),
{
    let s1 = s.drop_first();
    let s2 = s1.drop_first();
    let s3 = s2.drop_first();
    let s4 = s3.drop_first();
    assert(s1[0] == s[1] && s2[0] == s[2] && s3[0] == s[3]);
    assert(s4.len() == 0);
    assert(lc_sum(s4, asg) == 0);
    assert(lc_sum(s3, asg) == term_sum(s[3], asg));
    assert(lc_sum(s2, asg) == term_sum(s[2], asg) + term_sum(s[3], asg));
    assert(lc_sum(s1, asg) == term_sum(s[1], asg) + term_sum(s[2], asg) + term_sum(s[3], asg));
}

/// Peeling one more term off a prefix sum.
pub proof fn lemma_lc_sum_take_succ(s: Seq<Term>, asg: Seq<int>, i: int)
    requires
        0 <= i < s.len(),
    ensures
        lc_sum(s.take(i + 1), asg) == lc_sum(s.take(i), asg) + term_sum(s[i], asg),
    decreases i,
{
    if i == 0 {
        assert(s.take(1).len() == 1);
        assert(s.take(1)[0] == s[0]);
        lemma_lc_sum_len1(s.take(1), asg);
        assert(s.take(0).len() == 0);
    } else {
        let t = s.drop_first();
        assert(s.take(i + 1)[0] == s[0]);
        assert(s.take(i + 1).drop_first() =~= t.take(i));
        assert(s.take(i)[0] == s[0]);
        assert(s.take(i).drop_first() =~= t.take(i - 1));
        lemma_lc_sum_take_succ(t, asg, i - 1);
        assert(t[i - 1] == s[i]);
    }
}

/// A constraint holds exactly when the reduced product of its `a` and
/// `b` sums equals its reduced `c` sum.
pub proof fn lemma_holds_iff_reduced_eval(c: Constraint, asg: Seq<int>)
    ensures
        constraint_holds(c, asg) <==> ((lc_sum(c.a.terms@, asg) % (MODULUS as int)) * (lc_sum(
            c.b.terms@,
            asg,
        ) % (MODULUS as int)) % (MODULUS as int) == lc_sum(c.c.terms@, asg) % (MODULUS as int)),
{
    let p = MODULUS as int;
    let sa = lc_sum(c.a.terms@, asg);
    let sb = lc_sum(c.b.terms@, asg);
    let sc = lc_sum(c.c.terms@, asg);
    lemma_mul_mod_noop_general(sa, sb, p);
    lemma_mod_equivalence(sa * sb, sc, p);
}

/// A linear combination over the first `n` variables takes the same value
/// under any two assignments that agree on those variables.
pub proof fn lemma_lc_sum_agree(terms: Seq<Term>, asg1: Seq<int>, asg2: Seq<int>, n: nat)
    requires
        lc_wf(terms, n),
        n <= asg1.len(),
        n <= asg2.len(),
        forall|i: int| 0 <= i < n ==> asg1[i] == #[trigger] asg2[i],
    ensures
        lc_sum(terms, asg1) == lc_sum(terms, asg2),
    decreases terms.len(),
{
    if terms.len() > 0 {
        assert(term_wf(terms[0], n));
        assert(term_sum(terms[0], asg1) == term_sum(terms[0], asg2));
        assert forall|i: int|
            0 <= i < terms.drop_first().len() implies term_wf(
            #[trigger] terms.drop_first()[i],
            n,
        ) by {
            assert(terms.drop_first()[i] == terms[i + 1]);
        }
        lemma_lc_sum_agree(terms.drop_first(), asg1, asg2, n);
    }
}

/// Whether a constraint over the first `n` variables holds depends only
/// on the values of those variables.
pub proof fn lemma_constraint_holds_agree(c: Constraint, asg1: Seq<int>, asg2: Seq<int>, n: nat)
    requires
        constraint_wf(c, n),
        n <= asg1.len(),
        n <= asg2.len(),
        forall|i: int| 0 <= i < n ==> asg1[i] == #[trigger] asg2[i],
    ensures
        constraint_holds(c, asg1) == constraint_holds(c, asg2),
{
    lemma_lc_sum_agree(c.a.terms@, asg1, asg2, n);
    lemma_lc_sum_agree(c.b.terms@, asg1, asg2, n);
    lemma_lc_sum_agree(c.c.terms@, asg1, asg2, n);
}

} // verus!
