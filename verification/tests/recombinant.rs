use dccms_atlas::engines::lane::{Lane, MayaStateError};
use dccms_atlas::engines::recombinant::{RecombinantError, RecombinantState};
use dccms_atlas::substrate::SAFE_BASIS;

fn safe_basis_lanes() -> Vec<Lane> {
    SAFE_BASIS
        .iter()
        .enumerate()
        .map(|(i, &p)| Lane {
            name: ["p2", "p3", "p5", "p7", "p11", "p13"][i],
            modulus: p,
            domain: "safe-basis",
        })
        .collect()
}

const M_SAFE_STEP: u64 = 5_000;

#[test]
fn from_integer_below_m_safe_zero_winding() {
    let s = RecombinantState::from_integer(260, safe_basis_lanes()).unwrap();
    assert_eq!(s.winding(), 0);
    assert_eq!(s.to_integer().unwrap(), 260u128);
}

#[test]
fn from_integer_at_m_safe_winding_one() {
    let s = RecombinantState::from_integer(30_030, safe_basis_lanes()).unwrap();
    assert_eq!(s.winding(), 1);
    assert_eq!(s.to_integer().unwrap(), 30_030u128);
}

#[test]
fn from_integer_above_m_safe_round_trips() {
    for x in [0u64, 1, 260, 30_029, 30_030, 30_031, 37_960, 144_000, 1_872_000] {
        let s = RecombinantState::from_integer(x, safe_basis_lanes()).unwrap();
        assert_eq!(s.to_integer().unwrap(), x as u128, "round-trip failed for x = {}", x);
    }
}

#[test]
fn long_count_13_baktun_winding_is_62() {
    let s = RecombinantState::from_integer(1_872_000, safe_basis_lanes()).unwrap();
    assert_eq!(s.winding(), 62);
    assert_eq!(s.to_integer().unwrap(), 1_872_000u128);
}

#[test]
fn modulus_equals_m_safe() {
    let s = RecombinantState::from_integer(0, safe_basis_lanes()).unwrap();
    assert_eq!(s.modulus(), 30_030u128);
}

#[test]
fn add_below_m_safe() {
    let a = RecombinantState::from_integer(100, safe_basis_lanes()).unwrap();
    let b = RecombinantState::from_integer(200, safe_basis_lanes()).unwrap();
    let c = a.add(&b).unwrap();
    assert_eq!(c.to_integer().unwrap(), 300u128);
    assert_eq!(c.winding(), 0);
}

#[test]
fn add_crossing_m_safe_increments_winding() {
    let a = RecombinantState::from_integer(20_000, safe_basis_lanes()).unwrap();
    let b = RecombinantState::from_integer(20_000, safe_basis_lanes()).unwrap();
    let c = a.add(&b).unwrap();
    assert_eq!(c.to_integer().unwrap(), 40_000u128);
    assert_eq!(c.winding(), 1);
}

#[test]
fn add_integer_helper_matches_full_add() {
    let a = RecombinantState::from_integer(100, safe_basis_lanes()).unwrap();
    let via_integer = a.add_integer(50).unwrap();
    assert_eq!(via_integer.to_integer().unwrap(), 150u128);
}

#[test]
fn add_associativity_below_overflow() {
    let a = RecombinantState::from_integer(1_234, safe_basis_lanes()).unwrap();
    let b = RecombinantState::from_integer(5_678, safe_basis_lanes()).unwrap();
    let c = RecombinantState::from_integer(9_012, safe_basis_lanes()).unwrap();
    let ab_c = a.add(&b).unwrap().add(&c).unwrap();
    let a_bc = a.add(&b.add(&c).unwrap()).unwrap();
    assert_eq!(ab_c.to_integer().unwrap(), a_bc.to_integer().unwrap());
    assert_eq!(ab_c.to_integer().unwrap(), 15_924u128);
}

#[test]
fn winding_monotone_under_positive_addition() {
    let mut s = RecombinantState::from_integer(0, safe_basis_lanes()).unwrap();
    let mut last_winding = 0u64;
    for step in 1..=70 {
        s = s.add_integer(M_SAFE_STEP).unwrap();
        assert!(
            s.winding() >= last_winding,
            "winding decreased at step {}: {} -> {}",
            step,
            last_winding,
            s.winding()
        );
        last_winding = s.winding();
    }
}

#[test]
fn residues_of_long_count() {
    // 1,872,000 = 62 · 30,030 + 10,140.
    let s = RecombinantState::from_integer(1_872_000, safe_basis_lanes()).unwrap();
    let expected: Vec<u64> = SAFE_BASIS.iter().map(|&p| 10_140 % p).collect();
    assert_eq!(s.state().residues(), expected.as_slice());
}

#[test]
fn recombinant_errors() {
    // A zero modulus makes the product zero.
    let mut lanes = safe_basis_lanes();
    lanes[3].modulus = 0;
    assert_eq!(
        RecombinantState::from_integer(5, lanes).unwrap_err(),
        RecombinantError::State(MayaStateError::ZeroModulus { lane_idx: 0 })
    );
    // A product past u128 overflows.
    let big = vec![
        Lane { name: "a", modulus: u64::MAX, domain: "x" },
        Lane { name: "b", modulus: u64::MAX, domain: "x" },
        Lane { name: "c", modulus: 3, domain: "x" },
    ];
    assert_eq!(RecombinantState::from_integer(5, big).unwrap_err(), RecombinantError::Overflow);
    // Different lanes do not add.
    let a = RecombinantState::from_integer(7, safe_basis_lanes()).unwrap();
    let other = vec![Lane { name: "p2", modulus: 2, domain: "safe-basis" }];
    let b = RecombinantState::from_integer(1, other).unwrap();
    assert_eq!(a.add(&b).unwrap_err(), RecombinantError::LaneMismatch);
    // No lanes: M = 1 and the value is all winding.
    let e = RecombinantState::from_integer(42, Vec::new()).unwrap();
    assert_eq!(e.winding(), 42);
    assert_eq!(e.modulus(), 1);
    assert_eq!(e.to_integer().unwrap(), 42);
}

#[test]
fn coprime_pair_round_trip_and_sum() {
    let lanes = vec![
        Lane { name: "tz", modulus: 13, domain: "cal" },
        Lane { name: "ve", modulus: 20, domain: "cal" },
        Lane { name: "ha", modulus: 73, domain: "cal" },
    ];
    for x in [0u64, 18_979, 18_980, 100_000, u64::MAX] {
        let s = RecombinantState::from_integer(x, lanes.clone()).unwrap();
        assert_eq!(s.to_integer().unwrap(), x as u128);
    }
    let a = RecombinantState::from_integer(u64::MAX, lanes.clone()).unwrap();
    let b = RecombinantState::from_integer(12_345, lanes).unwrap();
    assert_eq!(a.add(&b).unwrap().to_integer().unwrap(), u64::MAX as u128 + 12_345);
}

#[test]
fn wide_moduli_keep_the_product_whole() {
    let lanes = vec![
        Lane { name: "a", modulus: 4_294_967_296, domain: "wide" },
        Lane { name: "b", modulus: 4_294_967_311, domain: "wide" },
    ];
    let x: u64 = 64_424_509_440;
    let s = RecombinantState::from_integer(x, lanes.clone()).unwrap();
    assert_eq!(s.winding(), 0);
    assert_eq!(s.state().residues(), &[0u64, 4_294_967_086][..]);
    assert_eq!(s.to_integer().unwrap(), x as u128);
    let t = RecombinantState::from_integer(u64::MAX, lanes).unwrap();
    let sum = s.add(&t).unwrap();
    assert_eq!(sum.to_integer().unwrap(), x as u128 + u64::MAX as u128);
    assert_eq!(s.add_integer(12).unwrap().to_integer().unwrap(), x as u128 + 12);
}
