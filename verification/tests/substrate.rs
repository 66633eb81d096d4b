use circom_sha256::cs::{Constraint, ConstraintSystem, LinComb, SynthesisError, Term};
use circom_sha256::field::{Fe, MODULUS};
use circom_sha256::scope::Scope;
use circom_sha256::wire::Wire;

#[test]
fn field_constants_and_reduction() {
    assert_eq!(Fe::zero().v, 0);
    assert_eq!(Fe::one().v, 1);
    assert_eq!(Fe::from_u64(MODULUS).v, 0);
    assert_eq!(Fe::from_u64(MODULUS + 5).v, 5);
    assert_eq!(Fe::from_u64(u64::MAX).v, u64::MAX % MODULUS);
}

#[test]
fn field_arithmetic_exact_values() {
    let a = Fe::from_u64(MODULUS - 1);
    let b = Fe::from_u64(2);
    assert_eq!(a.add(b).v, 1);
    assert_eq!(Fe::zero().sub(Fe::one()).v, MODULUS - 1);
    assert_eq!(b.mul(b).v, 4);
    // (p - 1)^2 = p^2 - 2p + 1, which is 1 modulo p
    assert_eq!(a.mul(a).v, 1);
}

#[test]
fn unbound_wire_value_is_missing_witness() {
    let w = Wire::initialize();
    assert_eq!(w.get_value().unwrap_err(), SynthesisError::MissingWitness);
}

#[test]
fn assigned_wire_carries_its_witness() {
    let mut cs = ConstraintSystem::new();
    let mut w = Wire::initialize();
    w.assign(&mut cs, Fe::from_u64(9));
    assert_eq!(w.get_value().unwrap().v, 9);
    assert_eq!(cs.assignment.len(), 1);
}

#[test]
fn empty_system_is_satisfied() {
    let cs = ConstraintSystem::new();
    assert!(cs.is_satisfied());
    assert!(cs.constraints.is_empty());
    assert!(cs.assignment.is_empty());
}

#[test]
fn unsatisfiable_constraint_is_reported() {
    // force a variable carrying 1 to equal the constant 0
    let mut cs = ConstraintSystem::new();
    let var = cs.allocate(Fe::one());
    let one = Fe::one();
    let con = Constraint {
        label: Scope::root(),
        a: LinComb { terms: Vec::new() },
        b: LinComb { terms: vec![Term::Constant(one)] },
        c: LinComb { terms: vec![Term::Variable(one, var)] },
    };
    cs.enforce(con);
    assert!(!cs.is_satisfied());
}

#[test]
fn scope_child_derives_without_mutating() {
    let root = Scope::root();
    let a = root.child(3);
    let b = a.child(5);
    assert!(root.path.is_empty());
    assert_eq!(a.path, vec![3]);
    assert_eq!(b.path, vec![3, 5]);
}
