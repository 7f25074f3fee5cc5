use dccms_atlas::h1_generator::{
    configuration_walk, extract_generator, CarrySignature, GeneratorReport, H1Verdict,
    HeadInvariants, PhaseRule,
};

const BAKTUN: u64 = 144_000;

/// The four canonical heads as (name, cycle, phase intervals).
fn canonical_heads() -> Vec<(&'static str, u64, Vec<u64>)> {
    let mut haab = vec![20u64; 18];
    haab.push(5);
    vec![
        ("Tzolkin", 260, vec![20u64; 13]),
        ("Haab", 365, haab),
        ("Venus", 584, vec![236, 90, 250, 8]),
        ("Long Count", 7_200, vec![360u64; 20]),
    ]
}

fn canonical_report() -> GeneratorReport {
    extract_generator(&canonical_heads())
}

#[test]
fn carry_signature_known_cycles() {
    let sig = CarrySignature::from_cycle(260);
    assert!(sig.active_primes().contains(&3));
    assert!(sig.active_primes().contains(&7));
    assert!(sig.active_primes().contains(&11));
    assert!(sig.nullified_primes().contains(&2));
    assert!(sig.nullified_primes().contains(&5));
    assert!(sig.nullified_primes().contains(&13));
}

#[test]
fn carry_signature_hamming_distance() {
    let a = CarrySignature::from_cycle(260);
    let b = CarrySignature::from_cycle(365);
    let d = a.hamming_distance(&b);
    assert!(d > 0, "Different carry signatures have nonzero distance");
    assert!(d <= 6, "Hamming distance ≤ 6 bits");
}

#[test]
fn phase_rule_uniform_applies_correctly() {
    let rule = PhaseRule::Uniform { n_phases: 13 };
    let phases = rule.apply(260);
    assert_eq!(phases.len(), 13);
    assert_eq!(phases[0], 20);
    assert_eq!(phases.iter().sum::<u64>(), 260);
}

#[test]
fn phase_rule_mixed_applies_correctly() {
    let rule = PhaseRule::Mixed { count_a: 18, len_a: 20, len_b: 5 };
    let phases = rule.apply(365);
    assert_eq!(phases.len(), 19);
    assert_eq!(phases.iter().sum::<u64>(), 365);
}

#[test]
fn generator_extraction_runs_for_canonical_hydra() {
    let report = canonical_report();
    assert_eq!(report.head_invariants.len(), 4);
    assert!(!report.candidates.is_empty());
    assert!(report.confidence_bp <= 10000);
    assert!(report.heads_explained <= 4, "Cannot explain more heads than exist");
}

#[test]
fn generator_invariants_correct_for_tzolkin() {
    let report = canonical_report();
    let tzolkin_inv = report
        .head_invariants
        .iter()
        .find(|i| i.name == "Tzolkin")
        .expect("Tzolk'in in invariants");
    assert_eq!(tzolkin_inv.cycle, 260);
    assert_eq!(tzolkin_inv.phase_count, 13);
    assert!(tzolkin_inv.uniform_phases);
    assert_eq!(tzolkin_inv.common_phase_len, 20);
    assert!(tzolkin_inv.nullified.contains(&13));
}

#[test]
fn generator_invariants_correct_for_haab() {
    let report = canonical_report();
    let haab = report
        .head_invariants
        .iter()
        .find(|i| i.name == "Haab")
        .expect("Haab in invariants");
    assert_eq!(haab.cycle, 365);
    assert_eq!(haab.phase_count, 19);
    assert!(!haab.uniform_phases);
    assert!(haab.nullified.contains(&5));
}

#[test]
fn seed_map_covers_all_four_heads() {
    let report = canonical_report();
    assert_eq!(report.seed_map.len(), 4, "One seed identified per head");
}

#[test]
fn configuration_walk_starts_at_260_and_stays_bounded() {
    let path = configuration_walk(260, 6);
    assert_eq!(path[0].0, 260);
    for (cycle, _, _) in &path {
        assert!(*cycle <= BAKTUN * 20);
    }
}

#[test]
fn head_invariants_lane_entropy_nonzero_for_canonical() {
    for (name, cycle, phases) in canonical_heads() {
        let inv = HeadInvariants::from_head(name, cycle, &phases);
        assert!(inv.lane_entropy_bp > 0, "{} should have nonzero lane entropy", inv.name);
    }
}

#[test]
fn carry_signature_exact_bits() {
    // 260 = 2² · 5 · 13: lanes 3, 7, 11 carry.
    assert_eq!(CarrySignature::from_cycle(260).0, 0b011010);
    // 365 = 5 · 73: every lane but 5 carries.
    assert_eq!(CarrySignature::from_cycle(365).0, 0b111011);
    // 2 and 13 divide 260 but not 365.
    assert_eq!(CarrySignature::from_cycle(260).hamming_distance(&CarrySignature::from_cycle(365)), 2);
    assert_eq!(CarrySignature::from_cycle(1).hamming_distance(&CarrySignature::from_cycle(30_030)), 6);
    assert_eq!(CarrySignature::from_cycle(30_030).0, 0);
    assert_eq!(CarrySignature::from_cycle(1).active_primes(), vec![2, 3, 5, 7, 11, 13]);
}

#[test]
fn phase_rules_on_edge_inputs() {
    assert_eq!(PhaseRule::Uniform { n_phases: 7 }.apply(260), vec![260]);
    assert_eq!(PhaseRule::FactorSplit.apply(260), vec![4, 10, 246]);
    assert_eq!(PhaseRule::FactorSplit.apply(260).iter().sum::<u64>(), 260);
    assert_eq!(PhaseRule::FactorSplit.apply(365), vec![5, 360]);
    assert_eq!(PhaseRule::FactorSplit.apply(49), vec![49]);
    assert_eq!(PhaseRule::FactorSplit.apply(1), vec![1]);
    assert_eq!(PhaseRule::Astronomical.apply(584), vec![236, 90, 250, 8]);
    assert_eq!(PhaseRule::Astronomical.apply(325), vec![148, 177]);
    assert_eq!(PhaseRule::Astronomical.apply(260), vec![260]);
    assert_eq!(PhaseRule::Uniform { n_phases: 13 }.label(), "Uniform(13 phases)");
    assert_eq!(
        PhaseRule::Mixed { count_a: 18, len_a: 20, len_b: 5 }.label(),
        "Mixed(18×20 + 5)"
    );
}

#[test]
fn canonical_extraction_scores() {
    let report = canonical_report();
    let matched: Vec<usize> = report.candidates.iter().map(|c| c.2).collect();
    assert_eq!(matched, vec![2, 2, 3, 2, 2, 2]);
    let heads: Vec<usize> = report.candidates.iter().map(|c| c.1).collect();
    assert_eq!(heads, vec![1, 1, 1, 0, 1, 1]);
    assert!(report.candidates.iter().all(|c| c.3 == 12));
    let best = report.best_candidate.expect("a best candidate");
    assert_eq!(best.label, "Mixed intercalary rule (18+1)");
    assert_eq!(report.heads_explained, 1);
    assert_eq!(report.confidence_bp, 2500);
    assert_eq!(report.verdict, H1Verdict::NotSupported);
    assert_eq!(report.verdict.label(), "NOT SUPPORTED");
}

#[test]
fn canonical_seed_map() {
    let report = canonical_report();
    assert_eq!(
        report.seed_map,
        vec![(260, "Tzolkin"), (5, "Haab"), (2, "Venus"), (144_000, "Long Count")]
    );
    let entropy: Vec<u64> = report.head_invariants.iter().map(|i| i.lane_entropy_bp).collect();
    assert_eq!(entropy, vec![5000, 8333, 8333, 5000]);
}

#[test]
fn configuration_walk_exact_path() {
    let path = configuration_walk(260, 6);
    let cycles: Vec<u64> = path.iter().map(|p| p.0).collect();
    assert_eq!(cycles, vec![260, 520, 1040, 2080, 4160, 8320]);
    assert_eq!(path[0].2, "cycle=260");
    assert_eq!(path[1].1, CarrySignature::from_cycle(520));
    // 17 nullifies no lane: the walk stops after one step.
    assert_eq!(configuration_walk(17, 5).len(), 1);
    // Past twenty baktuns the walk stops.
    assert_eq!(configuration_walk(2_000_000, 5).len(), 1);
    assert!(configuration_walk(260, 0).is_empty());
}

#[test]
fn uniform_and_astronomical_rules_partition_the_cycle() {
    for c in [260u64, 365, 584, 325, 7_200, 1] {
        for n in [1usize, 5, 13, 20] {
            assert_eq!(PhaseRule::Uniform { n_phases: n }.apply(c).iter().sum::<u64>(), c);
        }
        assert_eq!(PhaseRule::Astronomical.apply(c).iter().sum::<u64>(), c);
    }
    let mixed = PhaseRule::Mixed { count_a: 3, len_a: 7, len_b: 2 }.apply(0);
    assert_eq!(mixed.iter().sum::<u64>(), 23);
}
