use circom_sha256::cs::{ConstraintSystem, SynthesisError};
use circom_sha256::field::{Fe, MODULUS};
use circom_sha256::rotate::{RotR, rotr};
use circom_sha256::scope::Scope;
use circom_sha256::shift::{Shr, shr};
use circom_sha256::sigma::{SmallSigma, small_sigma};
use circom_sha256::template::CircomTemplate;
use circom_sha256::wire::Wire;
use circom_sha256::xor3::{XOr3, xor3};

fn bind_bits(cs: &mut ConstraintSystem, bits: &[u64]) -> Vec<Wire> {
    let mut ws = Vec::new();
    for &b in bits {
        let mut w = Wire::initialize();
        w.assign(cs, Fe::from_u64(b));
        ws.push(w);
    }
    ws
}

fn values(ws: &[Wire]) -> Vec<u64> {
    ws.iter().map(|w| w.get_value().unwrap().v).collect()
}

fn rot_expected(bits: &[u64], r: usize) -> Vec<u64> {
    (0..bits.len()).map(|i| bits[(i + r) % bits.len()]).collect()
}

fn shr_expected(bits: &[u64], r: usize) -> Vec<u64> {
    (0..bits.len())
        .map(|i| if i + r < bits.len() { bits[i + r] } else { 0 })
        .collect()
}

fn pseudo_random_bits(seed: u64, n: usize) -> Vec<u64> {
    let mut x = seed.wrapping_mul(0x9E3779B97F4A7C15).wrapping_add(1);
    let mut bits = Vec::new();
    for _ in 0..n {
        x = x
            .wrapping_mul(6364136223846793005)
            .wrapping_add(1442695040888963407);
        bits.push((x >> 33) & 1);
    }
    bits
}

#[test]
fn rotate_example() {
    let mut cs = ConstraintSystem::new();
    let scope = Scope::root();
    let bits = [1u64, 0, 1, 1, 0, 0, 1, 0];
    let input = bind_bits(&mut cs, &bits);
    let out = rotr(&mut cs, &scope, 8, 3, &input).unwrap();
    assert_eq!(values(&out), vec![1, 0, 0, 1, 0, 1, 0, 1]);
    assert!(cs.is_satisfied());
}

#[test]
fn rotate_all_amounts() {
    let bits = [1u64, 1, 0, 1, 0, 0, 0, 1];
    for r in 0..8 {
        let mut cs = ConstraintSystem::new();
        let scope = Scope::root();
        let input = bind_bits(&mut cs, &bits);
        let out = rotr(&mut cs, &scope, 8, r, &input).unwrap();
        assert_eq!(values(&out), rot_expected(&bits, r));
        assert!(cs.is_satisfied());
    }
}

#[test]
fn rotate_zero_is_identity() {
    let mut cs = ConstraintSystem::new();
    let scope = Scope::root();
    let bits = [1u64, 0, 1, 1, 0, 0, 1, 0];
    let input = bind_bits(&mut cs, &bits);
    let out = rotr(&mut cs, &scope, 8, 0, &input).unwrap();
    assert_eq!(values(&out), bits.to_vec());
    assert!(cs.is_satisfied());
}

#[test]
fn rotate_adds_one_constraint_per_bit() {
    let mut cs = ConstraintSystem::new();
    let scope = Scope::root();
    let input = bind_bits(&mut cs, &[0u64; 8]);
    let before = cs.constraints.len();
    rotr(&mut cs, &scope, 8, 5, &input).unwrap();
    assert_eq!(cs.constraints.len(), before + 8);
}

#[test]
fn rotate_missing_witness() {
    let mut cs = ConstraintSystem::new();
    let scope = Scope::root();
    let input: Vec<Wire> = (0..8).map(|_| Wire::initialize()).collect();
    let r = rotr(&mut cs, &scope, 8, 3, &input);
    assert_eq!(r.unwrap_err(), SynthesisError::MissingWitness);
}

#[test]
fn rotate_template_force_and_generate() {
    let bits = [0u64, 1, 1, 0, 1, 0, 1, 1];
    let mut cs = ConstraintSystem::new();
    let scope = Scope::root();
    let mut g = RotR::new(8, 2);
    g.input = bind_bits(&mut cs, &bits);
    g.force(&mut cs, &scope.child(0)).unwrap();
    assert_eq!(values(&g.out), rot_expected(&bits, 2));

    let mut cs2 = ConstraintSystem::new();
    let mut g2 = RotR::new(8, 2);
    g2.input = bind_bits(&mut cs2, &bits);
    g2.generate_output_signal(&mut cs2, &scope.child(1)).unwrap();
    assert_eq!(values(&g2.out), rot_expected(&bits, 2));
    assert!(cs2.is_satisfied());
}

#[test]
fn shift_example() {
    let mut cs = ConstraintSystem::new();
    let scope = Scope::root();
    let bits = [1u64, 0, 1, 1, 0, 0, 1, 0];
    let input = bind_bits(&mut cs, &bits);
    let out = shr(&mut cs, &scope, 8, 3, &input).unwrap();
    assert_eq!(values(&out), vec![1, 0, 0, 1, 0, 0, 0, 0]);
    assert!(cs.is_satisfied());
}

#[test]
fn shift_zero_is_identity() {
    let mut cs = ConstraintSystem::new();
    let scope = Scope::root();
    let bits = [1u64, 0, 1, 1, 0, 0, 1, 0];
    let input = bind_bits(&mut cs, &bits);
    let out = shr(&mut cs, &scope, 8, 0, &input).unwrap();
    assert_eq!(values(&out), bits.to_vec());
    assert!(cs.is_satisfied());
}

#[test]
fn shift_by_width_or_more_is_all_zero() {
    let bits = [1u64, 1, 1, 1, 1, 1, 1, 1];
    for r in [8usize, 9, 100] {
        let mut cs = ConstraintSystem::new();
        let scope = Scope::root();
        let input = bind_bits(&mut cs, &bits);
        let out = shr(&mut cs, &scope, 8, r, &input).unwrap();
        assert_eq!(values(&out), vec![0; 8]);
        assert!(cs.is_satisfied());
    }
}

#[test]
fn shift_all_amounts() {
    let bits = [0u64, 1, 1, 0, 1, 0, 0, 1];
    for r in 0..10 {
        let mut cs = ConstraintSystem::new();
        let scope = Scope::root();
        let input = bind_bits(&mut cs, &bits);
        let out = shr(&mut cs, &scope, 8, r, &input).unwrap();
        assert_eq!(values(&out), shr_expected(&bits, r));
        assert!(cs.is_satisfied());
    }
}

#[test]
fn shift_missing_witness() {
    let mut cs = ConstraintSystem::new();
    let scope = Scope::root();
    // only the read bits matter: with r = 6 the wires 6 and 7 are read
    let mut input = bind_bits(&mut cs, &[1u64, 1, 1, 1, 1, 1]);
    input.push(Wire::initialize());
    input.push(Wire::initialize());
    let r = shr(&mut cs, &scope, 8, 6, &input);
    assert_eq!(r.unwrap_err(), SynthesisError::MissingWitness);
}

#[test]
fn shift_template_force() {
    let bits = [1u64, 0, 0, 1, 1, 1, 0, 1];
    let mut cs = ConstraintSystem::new();
    let scope = Scope::root();
    let mut g = Shr::new(8, 3);
    g.input = bind_bits(&mut cs, &bits);
    g.generate_output_signal(&mut cs, &scope).unwrap();
    assert_eq!(values(&g.out), shr_expected(&bits, 3));
    assert!(cs.is_satisfied());
}

#[test]
fn xor3_all_boolean_combinations() {
    // all 8 combinations of (a, b, c), one bit position each
    let a_bits = [0u64, 0, 0, 0, 1, 1, 1, 1];
    let b_bits = [0u64, 0, 1, 1, 0, 0, 1, 1];
    let c_bits = [0u64, 1, 0, 1, 0, 1, 0, 1];
    let expected: Vec<u64> = (0..8)
        .map(|k| (a_bits[k] ^ b_bits[k] ^ c_bits[k]) as u64)
        .collect();
    let mut cs = ConstraintSystem::new();
    let scope = Scope::root();
    let a = bind_bits(&mut cs, &a_bits);
    let b = bind_bits(&mut cs, &b_bits);
    let c = bind_bits(&mut cs, &c_bits);
    let out = xor3(&mut cs, &scope, 8, &a, &b, &c).unwrap();
    assert_eq!(values(&out), expected);
    assert!(cs.is_satisfied());
}

#[test]
fn xor3_emits_two_gates_per_bit() {
    let mut cs = ConstraintSystem::new();
    let scope = Scope::root();
    let a = bind_bits(&mut cs, &[1u64, 0]);
    let b = bind_bits(&mut cs, &[1u64, 1]);
    let c = bind_bits(&mut cs, &[0u64, 1]);
    let before = cs.constraints.len();
    xor3(&mut cs, &scope, 2, &a, &b, &c).unwrap();
    assert_eq!(cs.constraints.len(), before + 4);
}

#[test]
fn xor3_missing_witness() {
    let mut cs = ConstraintSystem::new();
    let scope = Scope::root();
    let a = bind_bits(&mut cs, &[1u64, 0]);
    let b: Vec<Wire> = vec![Wire::initialize(), Wire::initialize()];
    let c = bind_bits(&mut cs, &[0u64, 1]);
    let r = xor3(&mut cs, &scope, 2, &a, &b, &c);
    assert_eq!(r.unwrap_err(), SynthesisError::MissingWitness);
}

#[test]
fn xor3_non_boolean_inputs_still_satisfy_constraints() {
    // the gadget does not validate booleanity; the witness it computes
    // must still satisfy its own gates
    let mut cs = ConstraintSystem::new();
    let scope = Scope::root();
    let a = bind_bits(&mut cs, &[7u64, 1234567]);
    let b = bind_bits(&mut cs, &[5u64, MODULUS - 3]);
    let c = bind_bits(&mut cs, &[2u64, 99]);
    xor3(&mut cs, &scope, 2, &a, &b, &c).unwrap();
    assert!(cs.is_satisfied());
}

#[test]
fn xor3_template_force() {
    let mut cs = ConstraintSystem::new();
    let scope = Scope::root();
    let mut g = XOr3::new(4);
    g.a = bind_bits(&mut cs, &[1u64, 1, 0, 0]);
    g.b = bind_bits(&mut cs, &[1u64, 0, 1, 0]);
    g.c = bind_bits(&mut cs, &[0u64, 1, 1, 1]);
    g.force(&mut cs, &scope).unwrap();
    assert_eq!(values(&g.out), vec![0, 0, 0, 1]);
    assert!(cs.is_satisfied());
}

fn sigma_expected(bits: &[u64], ra: usize, rb: usize, rc: usize) -> Vec<u64> {
    let x = rot_expected(bits, ra);
    let y = rot_expected(bits, rb);
    let z = shr_expected(bits, rc);
    (0..bits.len()).map(|k| x[k] ^ y[k] ^ z[k]).collect()
}

#[test]
fn sigma_composition_sha256_s0() {
    // the sigma-0 parameters of the SHA-256 message schedule
    let bits = pseudo_random_bits(42, 32);
    let mut cs = ConstraintSystem::new();
    let scope = Scope::root();
    let input = bind_bits(&mut cs, &bits);
    let out = small_sigma(&mut cs, &scope, 7, 18, 3, &input).unwrap();
    assert_eq!(values(&out), sigma_expected(&bits, 7, 18, 3));
    assert!(cs.is_satisfied());
}

#[test]
fn sigma_composition_sha256_s1() {
    // the sigma-1 parameters of the SHA-256 message schedule
    let bits = pseudo_random_bits(7, 32);
    let mut cs = ConstraintSystem::new();
    let scope = Scope::root();
    let input = bind_bits(&mut cs, &bits);
    let out = small_sigma(&mut cs, &scope, 17, 19, 10, &input).unwrap();
    assert_eq!(values(&out), sigma_expected(&bits, 17, 19, 10));
    assert!(cs.is_satisfied());
}

#[test]
fn sigma_matches_composed_gadgets_many_inputs() {
    for seed in 0..8u64 {
        let bits = pseudo_random_bits(seed, 32);
        let mut cs = ConstraintSystem::new();
        let scope = Scope::root();
        let input = bind_bits(&mut cs, &bits);
        let out = small_sigma(&mut cs, &scope, 2, 13, 22, &input).unwrap();
        assert_eq!(values(&out), sigma_expected(&bits, 2, 13, 22));
        assert!(cs.is_satisfied());
    }
}

#[test]
fn sigma_witness_satisfies_every_constraint() {
    for seed in [3u64, 11, 1000, u64::MAX] {
        let bits = pseudo_random_bits(seed, 32);
        let mut cs = ConstraintSystem::new();
        let scope = Scope::root();
        let input = bind_bits(&mut cs, &bits);
        small_sigma(&mut cs, &scope, 7, 18, 3, &input).unwrap();
        assert!(!cs.constraints.is_empty());
        assert!(cs.is_satisfied());
    }
}

#[test]
fn sigma_template_force_and_generate() {
    let bits = pseudo_random_bits(5, 32);
    let mut cs = ConstraintSystem::new();
    let scope = Scope::root();
    let mut g = SmallSigma::new(7, 18, 3);
    g.input = bind_bits(&mut cs, &bits);
    g.force(&mut cs, &scope.child(0)).unwrap();
    assert_eq!(values(&g.out), sigma_expected(&bits, 7, 18, 3));

    let mut cs2 = ConstraintSystem::new();
    let mut g2 = SmallSigma::new(17, 19, 10);
    g2.input = bind_bits(&mut cs2, &bits);
    g2.generate_output_signal(&mut cs2, &scope.child(1)).unwrap();
    assert_eq!(values(&g2.out), sigma_expected(&bits, 17, 19, 10));
    assert!(cs2.is_satisfied());
}

#[test]
fn sigma_missing_witness() {
    let mut cs = ConstraintSystem::new();
    let scope = Scope::root();
    let mut input = bind_bits(&mut cs, &pseudo_random_bits(1, 31));
    input.push(Wire::initialize());
    let r = small_sigma(&mut cs, &scope, 7, 18, 3, &input);
    assert_eq!(r.unwrap_err(), SynthesisError::MissingWitness);
}

#[test]
fn sigma_constraint_and_variable_budget() {
    // 224 copy equalities, 96 sub-gadget wirings and 64 multiplication
    // gates: 384 constraints and 384 fresh variables in all
    let bits = pseudo_random_bits(9, 32);
    let mut cs = ConstraintSystem::new();
    let scope = Scope::root();
    let input = bind_bits(&mut cs, &bits);
    let vars_before = cs.assignment.len();
    let cons_before = cs.constraints.len();
    small_sigma(&mut cs, &scope, 7, 18, 3, &input).unwrap();
    assert_eq!(cs.constraints.len(), cons_before + 384);
    assert_eq!(cs.assignment.len(), vars_before + 384);
}

#[test]
fn sigma_labels_are_unique() {
    let bits = pseudo_random_bits(13, 32);
    let mut cs = ConstraintSystem::new();
    let scope = Scope::root();
    let input = bind_bits(&mut cs, &bits);
    small_sigma(&mut cs, &scope, 17, 19, 10, &input).unwrap();
    let mut labels: Vec<Vec<u64>> = cs
        .constraints
        .iter()
        .map(|c| c.label.path.clone())
        .collect();
    let total = labels.len();
    labels.sort();
    labels.dedup();
    assert_eq!(labels.len(), total);
}
