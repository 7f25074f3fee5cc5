use dccms_atlas::dkam_filter::{DkamFilter, OperatorDegree};
use dccms_atlas::dkam_tier::{dkam_window, fibonacci_index_prime, tier_of, Tier};
use dccms_atlas::factor::distinct_prime_factors;

/// Head cycles used as fixtures: the four calendar heads, the Saturn 11²
/// candidate, the zodiac topology and the four temperaments.
const FOUR_HEADS: [(&str, u64); 4] =
    [("Tzolk'in", 260), ("Haab", 365), ("Venus", 584), ("Long Count", 7_200)];
const SATURN_11_SQUARED: (&str, u64) = ("Saturn 11²", 121);
const ZODIAC_TOPOLOGY: (&str, u64) = ("Zodiac", 360);
const TEMPERAMENTS_4FOLD: (&str, u64) = ("Temperaments", 4);

#[test]
fn tier_of_13_is_face13() {
    assert_eq!(tier_of(13), Tier::Face13);
}

#[test]
fn tier_of_s_r_is_exact() {
    for &p in &[5u64, 7, 11] {
        assert_eq!(tier_of(p), Tier::Exact, "prime {}", p);
    }
}

#[test]
fn tier_of_stability_floor_3_is_exact() {
    assert_eq!(tier_of(3), Tier::Exact);
}

#[test]
fn tier_of_2_is_boundary() {
    assert_eq!(tier_of(2), Tier::Boundary);
}

#[test]
fn tier_of_larger_primes_is_turbulent() {
    for &p in &[17u64, 19, 23, 29, 31, 73, 89, 101] {
        assert_eq!(tier_of(p), Tier::Turbulent, "prime {}", p);
    }
    assert_eq!(tier_of(1), Tier::Turbulent);
}

#[test]
fn fibonacci_index_prime_load_bearing_values() {
    assert_eq!(fibonacci_index_prime(4), Some(3));
    assert_eq!(fibonacci_index_prime(7), Some(13));
    assert_eq!(fibonacci_index_prime(100), None);
    assert_eq!(fibonacci_index_prime(0), None);
    assert_eq!(fibonacci_index_prime(10), Some(23));
}

#[test]
fn dkam_window_scales_with_rho() {
    assert_eq!(dkam_window(2), vec![2u64]);
    assert!(dkam_window(3).contains(&3));
    let w = dkam_window(5);
    for &p in &[2u64, 3, 5, 7, 11, 13] {
        assert!(w.contains(&p), "prime {}", p);
    }
    let w9 = dkam_window(9);
    assert!(w9.contains(&17));
    assert!(w9.contains(&19));
    assert_eq!(dkam_window(4), vec![2, 3, 13]);
    assert_eq!(dkam_window(0), w9);
}

#[test]
fn canonical_calendars_are_admissible() {
    let filter = DkamFilter::canonical();
    for (name, cycle) in FOUR_HEADS {
        let report = filter.evaluate(name, cycle);
        assert!(report.admissible, "{}", report.reason);
    }
}

#[test]
fn saturn_11_squared_admissibility() {
    let filter = DkamFilter::canonical();
    let report = filter.evaluate(SATURN_11_SQUARED.0, SATURN_11_SQUARED.1);
    assert!(report.admissible);
    assert_eq!(report.inferred_degree.label(), "Linear");
    assert_eq!(report.reason, "deg(Saturn 11²) = 1 < rho(B) = 3 — subcritical");
}

#[test]
fn zodiac_topology_admissibility() {
    let filter = DkamFilter::canonical();
    let report = filter.evaluate(ZODIAC_TOPOLOGY.0, ZODIAC_TOPOLOGY.1);
    assert!(report.admissible);
    assert_eq!(report.inferred_degree.numeric(), 2);
}

#[test]
fn temperaments_4fold_admissibility() {
    let filter = DkamFilter::canonical();
    let report = filter.evaluate(TEMPERAMENTS_4FOLD.0, TEMPERAMENTS_4FOLD.1);
    assert!(report.admissible);
}

#[test]
fn distinct_prime_factors_known_values() {
    assert_eq!(distinct_prime_factors(260), vec![2, 5, 13]);
    assert_eq!(distinct_prime_factors(365), vec![5, 73]);
    assert_eq!(distinct_prime_factors(584), vec![2, 73]);
    assert_eq!(distinct_prime_factors(819), vec![3, 7, 13]);
    assert_eq!(distinct_prime_factors(121), vec![11]);
    assert_eq!(distinct_prime_factors(1), Vec::<u64>::new());
}

#[test]
fn evaluate_all_returns_reports() {
    let filter = DkamFilter::canonical();
    let heads = [("Tzolk'in", 260u64), ("Haab", 365), SATURN_11_SQUARED];
    let reports = filter.evaluate_all(&heads);
    assert_eq!(reports.len(), 3);
    for report in &reports {
        assert!(report.admissible);
    }
    assert_eq!(reports[1].head_name, "Haab");
}

#[test]
fn tight_filter_excludes_bilinear_heads() {
    let filter = DkamFilter { basis: vec![3, 7], rho: 2, max_degree: 2 };
    let report = filter.evaluate("Tzolk'in", 260);
    assert!(!report.admissible);
    assert_eq!(report.reason, "deg(Tzolk'in) = 2 >= rho(B) = 2 — supercritical, DKAM-excluded");
    let capped = DkamFilter { basis: vec![3], rho: 9, max_degree: 1 };
    let r2 = capped.evaluate("Haab", 365);
    assert_eq!(r2.reason, "deg(Haab) = 2 exceeds project max_degree = 1");
    assert!(matches!(capped.infer_degree(1), OperatorDegree::Linear));
    assert!(matches!(capped.infer_degree(0), OperatorDegree::Constant));
}

#[test]
fn unit_cycle_is_linear() {
    let filter = DkamFilter::canonical();
    assert!(matches!(filter.infer_degree(1), OperatorDegree::Linear));
    assert!(matches!(filter.infer_degree(121), OperatorDegree::Linear));
    assert!(matches!(filter.infer_degree(260), OperatorDegree::Bilinear));
    assert!(filter.evaluate("unit", 1).admissible);
}
