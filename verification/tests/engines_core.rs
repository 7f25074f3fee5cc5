use dccms_atlas::engines::lane::{Lane, MayaState, MayaStateError};
use dccms_atlas::engines::pisano::{
    fibonacci_entry_point, fibonacci_mod_sequence, pisano_period, PisanoError, PISANO_MAX_MODULUS,
};
use dccms_atlas::engines::ramanujan::{euler_totient, mobius, ramanujan_sum};
use dccms_atlas::substrate::cram_address;

fn two_small_lanes() -> Vec<Lane> {
    vec![
        Lane { name: "a", modulus: 4, domain: "test-a" },
        Lane { name: "b", modulus: 5, domain: "test-b" },
    ]
}

#[test]
fn new_validates_lengths() {
    let lanes = two_small_lanes();
    let r = MayaState::new(vec![0], lanes.clone());
    assert!(matches!(r, Err(MayaStateError::LaneResidueMismatch { lanes: 2, residues: 1 })));
}

#[test]
fn new_validates_residue_range() {
    let lanes = two_small_lanes();
    let r = MayaState::new(vec![4, 0], lanes);
    assert!(matches!(
        r,
        Err(MayaStateError::ResidueOutOfRange { lane_idx: 0, residue: 4, modulus: 4 })
    ));
}

#[test]
fn new_validates_zero_modulus() {
    let bad = vec![Lane { name: "bad", modulus: 0, domain: "" }];
    let r = MayaState::new(vec![0], bad);
    assert!(matches!(r, Err(MayaStateError::ZeroModulus { lane_idx: 0 })));
}

#[test]
fn from_unbounded_reduces() {
    let lanes = two_small_lanes();
    let s = MayaState::from_unbounded(vec![13, 17], lanes).unwrap();
    assert_eq!(s.residues(), &[13 % 4, 17 % 5]);
    assert_eq!(s.residues(), &[1u64, 2]);
}

#[test]
fn lane_advance_zero_is_identity() {
    let s = MayaState::new(vec![1, 2], two_small_lanes()).unwrap();
    let t = s.advance(0);
    assert_eq!(s, t);
}

#[test]
fn lane_advance_additive() {
    let lanes = two_small_lanes();
    let s = MayaState::new(vec![1, 2], lanes).unwrap();
    let t = s.advance(3).advance(7);
    let u = s.advance(10);
    assert_eq!(t, u);
}

#[test]
fn advance_large_offsets_handled() {
    let s = MayaState::new(vec![1, 2], two_small_lanes()).unwrap();
    let t = s.advance(1_000_000_000);
    assert_eq!(t.residues(), &[1u64, 2]);
}

#[test]
fn same_position_reflexive_and_strict() {
    let s = MayaState::new(vec![1, 2], two_small_lanes()).unwrap();
    let t = MayaState::new(vec![1, 2], two_small_lanes()).unwrap();
    assert!(s.same_position(&t));
    let u = MayaState::new(vec![1, 3], two_small_lanes()).unwrap();
    assert!(!s.same_position(&u));
}

#[test]
fn same_position_rejects_lane_mismatch() {
    let s = MayaState::new(vec![0, 0], two_small_lanes()).unwrap();
    let other_lanes = vec![
        Lane { name: "x", modulus: 4, domain: "" },
        Lane { name: "y", modulus: 5, domain: "" },
    ];
    let t = MayaState::new(vec![0, 0], other_lanes).unwrap();
    assert!(!s.same_position(&t));
}

#[test]
fn alignment_count_correct() {
    let s = MayaState::new(vec![0, 3], two_small_lanes()).unwrap();
    assert_eq!(s.alignment_count(), 1);
    let t = MayaState::new(vec![0, 0], two_small_lanes()).unwrap();
    assert_eq!(t.alignment_count(), 2);
    let u = MayaState::new(vec![1, 3], two_small_lanes()).unwrap();
    assert_eq!(u.alignment_count(), 0);
}

#[test]
fn lane_at_origin_correct() {
    let s = MayaState::new(vec![0, 3], two_small_lanes()).unwrap();
    assert!(s.lane_at_origin(0));
    assert!(!s.lane_at_origin(1));
}

#[test]
fn safe_basis_adapter_round_trip() {
    for x in [0u64, 1, 5, 13, 19, 148, 177, 260, 365, 584, 1448, 11_960, 37_960] {
        let addr = cram_address(x);
        let state = MayaState::from_cram_address(addr);
        let recovered = state.to_cram_address();
        assert_eq!(recovered, Some(addr));
    }
}

#[test]
fn to_cram_address_rejects_non_safe_basis_lanes() {
    let s = MayaState::new(vec![0, 0], two_small_lanes()).unwrap();
    assert_eq!(s.to_cram_address(), None);
}

#[test]
fn safe_basis_state_has_six_lanes_with_canonical_moduli() {
    let state = MayaState::from_cram_address([0, 0, 0, 0, 0, 0]);
    assert_eq!(state.lane_count(), 6);
    let moduli: Vec<u64> = state.lanes().iter().map(|l| l.modulus).collect();
    assert_eq!(moduli, vec![2u64, 3, 5, 7, 11, 13]);
}

#[test]
fn pisano_profile_of_small_lanes() {
    let s = MayaState::new(vec![1, 2], two_small_lanes()).unwrap();
    let profile = s.pisano_profile().unwrap();
    // π(4) = 6 visiting {0, 1, 2, 3}; π(5) = 20 visiting all five residues.
    assert_eq!(profile, vec![(4u64, 6u64, 4u64), (5, 20, 5)]);
}

#[test]
fn harmonic_signature_of_small_lanes() {
    let s = MayaState::new(vec![1, 2], two_small_lanes()).unwrap();
    assert_eq!(s.harmonic_signature(0), vec![2i64, 4]);
    assert_eq!(s.harmonic_signature(1), vec![0i64, -1]);
}

#[test]
fn modulus_zero_errors() {
    assert_eq!(pisano_period(0), Err(PisanoError::ModulusZero));
    assert_eq!(fibonacci_entry_point(0), Err(PisanoError::ModulusZero));
    assert_eq!(fibonacci_mod_sequence(0), Err(PisanoError::ModulusZero));
}

#[test]
fn modulus_too_large_errors() {
    let m = PISANO_MAX_MODULUS + 1;
    assert_eq!(pisano_period(m), Err(PisanoError::ModulusTooLarge(m)));
    assert_eq!(fibonacci_entry_point(m), Err(PisanoError::ModulusTooLarge(m)));
}

#[test]
fn pisano_period_foundational_values() {
    assert_eq!(pisano_period(2).unwrap(), 3);
    assert_eq!(pisano_period(3).unwrap(), 8);
    assert_eq!(pisano_period(4).unwrap(), 6);
    assert_eq!(pisano_period(5).unwrap(), 20);
    assert_eq!(pisano_period(7).unwrap(), 16);
    assert_eq!(pisano_period(8).unwrap(), 12);
    assert_eq!(pisano_period(10).unwrap(), 60);
    assert_eq!(pisano_period(11).unwrap(), 10);
    assert_eq!(pisano_period(13).unwrap(), 28);
    assert_eq!(pisano_period(20).unwrap(), 60);
}

#[test]
fn fibonacci_entry_point_foundational_values() {
    assert_eq!(fibonacci_entry_point(2).unwrap(), 3);
    assert_eq!(fibonacci_entry_point(3).unwrap(), 4);
    assert_eq!(fibonacci_entry_point(5).unwrap(), 5);
    assert_eq!(fibonacci_entry_point(7).unwrap(), 8);
    assert_eq!(fibonacci_entry_point(13).unwrap(), 7);
    assert_eq!(fibonacci_entry_point(11).unwrap(), 10);
}

#[test]
fn entry_point_divides_pisano_period() {
    for m in [2u64, 3, 4, 5, 7, 8, 11, 13, 17, 19, 23, 29, 31] {
        let alpha = fibonacci_entry_point(m).unwrap();
        let pi = pisano_period(m).unwrap();
        assert_eq!(pi % alpha, 0, "α({}) = {} should divide π({}) = {}", m, alpha, m, pi);
    }
}

#[test]
fn fibonacci_mod_sequence_starts_with_zero_then_one() {
    let seq = fibonacci_mod_sequence(13).unwrap();
    assert_eq!(seq[0], 0);
    assert_eq!(seq[1], 1);
    assert_eq!(seq.len(), 28);
    assert_eq!(seq[7], 0);
}

#[test]
fn fibonacci_mod_sequence_for_vigesimal_base() {
    let seq = fibonacci_mod_sequence(20).unwrap();
    assert_eq!(seq.len(), 60);
    assert_eq!(seq[0], 0);
    assert_eq!(seq[1], 1);
}

#[test]
fn pisano_period_handles_maya_cycles() {
    for m in [260u64, 365, 584, 780, 819, 1448, 2920, 11_960, 18_980] {
        let pi = pisano_period(m).unwrap();
        assert!(pi <= 6 * m, "π({}) = {} should be ≤ 6m = {}", m, pi, 6 * m);
    }
}

#[test]
fn euler_totient_small() {
    assert_eq!(euler_totient(1), 1);
    assert_eq!(euler_totient(2), 1);
    assert_eq!(euler_totient(3), 2);
    assert_eq!(euler_totient(4), 2);
    assert_eq!(euler_totient(5), 4);
    assert_eq!(euler_totient(6), 2);
    assert_eq!(euler_totient(7), 6);
    assert_eq!(euler_totient(8), 4);
    assert_eq!(euler_totient(9), 6);
    assert_eq!(euler_totient(10), 4);
    assert_eq!(euler_totient(11), 10);
    assert_eq!(euler_totient(12), 4);
    assert_eq!(euler_totient(13), 12);
    assert_eq!(euler_totient(20), 8);
    assert_eq!(euler_totient(260), 96);
}

#[test]
fn mobius_small() {
    assert_eq!(mobius(1), 1);
    assert_eq!(mobius(2), -1);
    assert_eq!(mobius(3), -1);
    assert_eq!(mobius(4), 0);
    assert_eq!(mobius(5), -1);
    assert_eq!(mobius(6), 1);
    assert_eq!(mobius(7), -1);
    assert_eq!(mobius(8), 0);
    assert_eq!(mobius(9), 0);
    assert_eq!(mobius(10), 1);
    assert_eq!(mobius(11), -1);
    assert_eq!(mobius(12), 0);
    assert_eq!(mobius(13), -1);
    assert_eq!(mobius(30), -1);
}

#[test]
fn ramanujan_identity_c_one_n_equals_one() {
    for n in 0u64..20 {
        assert_eq!(ramanujan_sum(1, n), 1, "c_1({}) should equal 1", n);
    }
}

#[test]
fn ramanujan_identity_c_q_zero_equals_totient() {
    for q in 1u64..20 {
        let expected = euler_totient(q) as i64;
        assert_eq!(ramanujan_sum(q, 0), expected);
    }
}

#[test]
fn ramanujan_prime_split() {
    for p in [2u64, 3, 5, 7, 11, 13, 17] {
        assert_eq!(ramanujan_sum(p, 1), -1);
        assert_eq!(ramanujan_sum(p, 0), (p - 1) as i64);
        assert_eq!(ramanujan_sum(p, p), (p - 1) as i64);
        assert_eq!(ramanujan_sum(p, 2 * p), (p - 1) as i64);
    }
}

#[test]
fn ramanujan_zero_q_yields_zero() {
    for n in 0u64..5 {
        assert_eq!(ramanujan_sum(0, n), 0);
    }
}

#[test]
fn ramanujan_with_square_divisor() {
    assert_eq!(ramanujan_sum(4, 1), 0);
    assert_eq!(ramanujan_sum(4, 2), -2);
    assert_eq!(ramanujan_sum(4, 4), 2);
}

#[test]
fn totient_and_mobius_of_zero() {
    assert_eq!(euler_totient(0), 0);
    assert_eq!(mobius(0), 0);
}

#[test]
fn maya_state_display_lists_lanes() {
    let lanes = vec![
        Lane { name: "a", modulus: 5, domain: "x" },
        Lane { name: "b", modulus: 17, domain: "y" },
    ];
    let s = MayaState::new(vec![0, 12], lanes).unwrap();
    assert_eq!(s.display_string(), "(a:0, b:12)");
    let empty = MayaState::new(Vec::new(), Vec::new()).unwrap();
    assert_eq!(empty.display_string(), "()");
}

#[test]
fn entry_point_divides_every_pisano_period_up_to_300() {
    for m in 1u64..=300 {
        let a = fibonacci_entry_point(m).unwrap();
        let p = pisano_period(m).unwrap();
        assert_eq!(p % a, 0, "alpha({}) = {} should divide pi({}) = {}", m, a, m, p);
    }
    assert_eq!(pisano_period(13).unwrap(), 28);
    assert_eq!(pisano_period(20).unwrap(), 60);
    assert_eq!(fibonacci_entry_point(13).unwrap(), 7);
    assert_eq!(fibonacci_entry_point(20).unwrap(), 30);
}
