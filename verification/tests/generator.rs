use dccms_atlas::h1_stage8::{
    canonical_generator_tree, compute_h1_stage8, generator_multiplier_analysis,
    multiplier_profiles, reachable_periods, verify_generator_tree, GeneratorApplication,
    GeneratorNode, H1Stage8Verdict, ASTRO_PRIME, SEED,
};
use dccms_atlas::substrate::{nullified_lanes, SAFE_BASIS};

#[test]
fn generator_application_uniform() {
    let g = GeneratorApplication::uniform(13, 20);
    assert_eq!(g.cycle(), 260);
    let phases = g.phases();
    assert_eq!(phases.len(), 13);
    assert_eq!(phases[0], 20);
}

#[test]
fn generator_application_intercalary() {
    let g = GeneratorApplication::intercalary(18, 20, 5);
    assert_eq!(g.cycle(), 365);
    let phases = g.phases();
    assert_eq!(phases.len(), 19);
    assert_eq!(*phases.last().unwrap(), 5);
    assert_eq!(phases.iter().sum::<u64>(), 365);
}

#[test]
fn generator_tree_tzolkin() {
    let nodes = canonical_generator_tree();
    let tzolkin = nodes.iter().find(|n| n.name == "Tzolkin").unwrap();
    assert_eq!(tzolkin.cycle(), 260);
    assert_eq!(tzolkin.application.n_reg, 13);
    assert_eq!(tzolkin.application.base, 20);
    assert!(!tzolkin.application.has_intercalary());
}

#[test]
fn generator_tree_haab() {
    let nodes = canonical_generator_tree();
    let haab = nodes.iter().find(|n| n.name == "Haab").unwrap();
    assert_eq!(haab.cycle(), 365);
    assert_eq!(haab.application.n_reg, 18);
    assert_eq!(haab.application.base, 20);
    assert!(haab.application.has_intercalary());
    assert_eq!(haab.application.inter, 5);
}

#[test]
fn generator_tree_calendar_round() {
    let nodes = canonical_generator_tree();
    let cr = nodes.iter().find(|n| n.name == "CalendarRound").unwrap();
    assert_eq!(cr.cycle(), 18_980);
    assert_eq!(cr.application.n_reg, 73);
    assert_eq!(cr.application.base, 260);
    assert_eq!(cr.parent_name, "Tzolkin");
}

#[test]
fn generator_tree_baktun() {
    let nodes = canonical_generator_tree();
    let b = nodes.iter().find(|n| n.name == "Baktun").unwrap();
    assert_eq!(b.cycle(), 144_000);
    assert_eq!(b.application.n_reg, 20);
    assert_eq!(b.application.base, 7_200);
}

#[test]
fn generator_tree_verifies() {
    assert!(verify_generator_tree());
}

#[test]
fn seed_is_20() {
    assert_eq!(SEED, 20);
    assert_eq!(20u64.count_ones(), 2);
}

#[test]
fn astro_prime_divides_haab() {
    assert_eq!(365 % ASTRO_PRIME, 0);
    assert_eq!(365 / ASTRO_PRIME, 5);
}

#[test]
fn multiplier_profiles_identifies_s6_primes() {
    let profiles = multiplier_profiles();
    let m13 = profiles.iter().find(|p| p.multiplier == 13).unwrap();
    assert!(m13.in_safe_basis);
    let m73 = profiles.iter().find(|p| p.multiplier == 73).unwrap();
    assert!(!m73.in_safe_basis, "73 is not in S6");
    let m18 = profiles.iter().find(|p| p.multiplier == 18).unwrap();
    assert_eq!(m18.prime_factors, vec![2, 3]);
    assert_eq!(m18.nullifies, vec![2, 3]);
}

#[test]
fn haab_intercalary_equals_seed_nullified_prime() {
    assert_eq!(20 % 5, 0);
    assert!(SAFE_BASIS.contains(&5u64));
    let null = nullified_lanes(20);
    assert!(null.contains(&2) && null.contains(&5));
    assert_eq!(5u64, *null.iter().find(|&&p| p != 2).unwrap());
}

#[test]
fn reachable_periods_includes_all_four_canonical() {
    let periods = reachable_periods(200_000);
    let cycles: Vec<u64> = periods.iter().map(|p| p.1).collect();
    assert!(cycles.contains(&260));
    assert!(cycles.contains(&365));
    assert!(cycles.contains(&18_980));
    assert!(cycles.contains(&144_000));
}

#[test]
fn reachable_periods_includes_venus() {
    let periods = reachable_periods(200_000);
    let cycles: Vec<u64> = periods.iter().map(|p| p.1).collect();
    assert!(cycles.contains(&584), "Venus synodic reachable (584 = 8×73)");
}

#[test]
fn h1_stage8_report_verdict_supported() {
    let report = compute_h1_stage8();
    assert!(report.tree_verified);
    assert!(report.all_heads_reachable);
    assert_eq!(report.verdict, H1Stage8Verdict::Supported);
    assert_eq!(report.verdict.label(), "SUPPORTED (recursive bilinear generator)");
    assert_eq!(report.reachable_count, reachable_periods(200_000).len());
}

#[test]
fn generator_tree_tun_is_360() {
    let nodes = canonical_generator_tree();
    let tun = nodes.iter().find(|n| n.name == "Tun").unwrap();
    assert_eq!(tun.cycle(), 360);
    assert_eq!(tun.application.n_reg, 18);
    assert_eq!(tun.application.base, 20);
}

#[test]
fn intercalary_5_encodes_solar_correction() {
    let tun = 18 * SEED;
    let haab = 18 * SEED + 5;
    assert_eq!(haab - tun, 5);
    assert_eq!(5 * ASTRO_PRIME, 365);
}

#[test]
fn reachable_periods_are_ordered_named_and_pathed() {
    let periods = reachable_periods(400);
    let cycles: Vec<u64> = periods.iter().map(|p| p.1).collect();
    for w in cycles.windows(2) {
        assert!(w[0] < w[1]);
    }
    assert_eq!(periods[0], ("SEED=20", 20, "seed".to_string()));
    let tz = periods.iter().find(|p| p.1 == 260).unwrap();
    assert_eq!(tz.0, "Tzolk'in");
    assert_eq!(tz.2, "G(13, 20, 0, 0)");
    let haab = periods.iter().find(|p| p.1 == 365).unwrap();
    assert_eq!(haab.0, "Haab");
    assert_eq!(haab.2, "G(5, 73, 0, 0)");
    let inter = periods.iter().find(|p| p.1 == 25).unwrap();
    assert_eq!(inter.0, "computed-inter");
    assert_eq!(inter.2, "G(1, 20, 1, 5)");
    assert!(cycles.iter().all(|&c| c <= 400));
}

#[test]
fn multiplier_analysis_is_sorted_and_distinct() {
    let (mult, inter) = generator_multiplier_analysis();
    assert_eq!(mult, vec![13, 18, 20, 73]);
    assert_eq!(inter, vec![5]);
}

#[test]
fn node_verify_checks_the_parent_cycle() {
    let node = GeneratorNode {
        name: "CalendarRound",
        application: GeneratorApplication::uniform(73, 260),
        parent_name: "Tzolkin",
    };
    assert!(node.verify(260));
    assert!(!node.verify(20));
}

#[test]
fn reachable_periods_stay_within_the_bound() {
    assert!(reachable_periods(19).is_empty());
    let p = reachable_periods(40);
    let cycles: Vec<u64> = p.iter().map(|e| e.1).collect();
    assert_eq!(cycles, vec![20, 25, 40]);
    for bound in [1u64, 20, 100, 1_000, 200_000] {
        assert!(reachable_periods(bound).iter().all(|e| e.1 > 0 && e.1 <= bound));
    }
}
