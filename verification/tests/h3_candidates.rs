use dccms_atlas::atlas::ConfigAtlas;
use dccms_atlas::events::EventSet;
use dccms_atlas::h3_extended::{
    compute_h3_extended, compute_h3_extended_for_pairs, enumerate_generator_candidates, head_from_generator_candidate,
    GeneratorCandidate,
};
use dccms_atlas::substrate::{carry_bits, cram_address};

/// Cycle lengths of the four calendar heads used as a fixture.
const FOUR_CYCLES: [u64; 4] = [260, 365, 584, 7_200];

/// Per-event (four-head address, candidate address) pairs, each head
/// addressed by the carry bits of the day within its cycle.
fn pairs_for(events: &EventSet, cycle: u64) -> Vec<(u64, u64)> {
    events
        .events
        .iter()
        .map(|e| {
            let d = e.days_since_epoch;
            let four: Vec<[u8; 6]> = FOUR_CYCLES.iter().map(|&c| carry_bits(d % c)).collect();
            let cand = [carry_bits(d % cycle)];
            (ConfigAtlas::compute_address(&four), ConfigAtlas::compute_address(&cand))
        })
        .collect()
}

#[test]
fn enumerate_candidates_non_empty() {
    let cands = enumerate_generator_candidates(10_000);
    assert!(!cands.is_empty(), "Generator must produce candidates");
}

#[test]
fn enumerate_candidates_excludes_canonical() {
    let cands = enumerate_generator_candidates(50_000);
    let cycles: Vec<u64> = cands.iter().map(|c| c.cycle).collect();
    assert!(!cycles.contains(&260), "Tzolk'in excluded");
    assert!(!cycles.contains(&365), "Haab excluded");
    assert!(!cycles.contains(&18_980), "CalendarRound excluded");
    assert!(!cycles.contains(&144_000), "Baktun excluded");
}

#[test]
fn enumerate_candidates_includes_key_generator_cycles() {
    let cands = enumerate_generator_candidates(10_000);
    let cycles: Vec<u64> = cands.iter().map(|c| c.cycle).collect();
    assert!(cycles.contains(&140), "7×20 = 140 should be a candidate");
    assert!(cycles.contains(&220), "11×20 = 220 should be a candidate");
    assert!(cycles.contains(&780), "3×260 = 780 (Mars) should be a candidate");
    assert!(cycles.contains(&2920), "8×365 = 2920 (Venus GR) should be a candidate");
}

#[test]
fn generator_candidate_cram_address_correct() {
    let cands = enumerate_generator_candidates(5_000);
    let c140 = cands.iter().find(|c| c.cycle == 140).unwrap();
    assert!(c140.nullified.contains(&7), "140 nullifies lane 7");
    assert_eq!(c140.cram, cram_address(140));
}

#[test]
fn generator_candidate_level_correct() {
    let cands = enumerate_generator_candidates(5_000);
    let c140 = cands.iter().find(|c| c.cycle == 140).unwrap();
    assert_eq!(c140.level_11, 2, "140 is Level-2");
    let c1820 = cands.iter().find(|c| c.cycle == 1820).unwrap();
    assert_eq!(c1820.level_11, 3, "1820 is Level-3");
}

#[test]
fn head_from_candidate_produces_correct_cycle() {
    let cand = GeneratorCandidate::new(780, "G(3, 260)", "Mars synodic");
    let (_, phases) = head_from_generator_candidate(&cand);
    assert_eq!(phases.iter().sum::<u64>(), 780);
    assert_eq!(phases.len(), 3);
}

#[test]
fn head_intercalary_from_candidate() {
    let cand = GeneratorCandidate::new(367, "G(18, 20, 1, 7)", "test-inter");
    let (_, phases) = head_from_generator_candidate(&cand);
    assert_eq!(phases.iter().sum::<u64>(), 367);
    assert_eq!(phases.len(), 19);
}

#[test]
fn h3_extended_runs_on_small_range() {
    let events = EventSet::canonical_corpus(0, 50_000);
    let report = compute_h3_extended(&events, &FOUR_CYCLES, 1_000, 3_000);
    assert!(report.tested > 0);
    assert!(report.dkam_pass <= report.tested);
    assert!(report.h3_pass <= report.dkam_pass);
}

#[test]
fn mars_synodic_is_candidate() {
    let cands = enumerate_generator_candidates(5_000);
    let mars = cands.iter().find(|c| c.cycle == 780).unwrap();
    assert_eq!(mars.astro_name, "Mars synodic");
    assert_eq!(mars.generator_path, "G(3, 260)");
}

#[test]
fn candidates_sorted_with_first_derivation() {
    let cands = enumerate_generator_candidates(1_000);
    let cycles: Vec<u64> = cands.iter().map(|c| c.cycle).collect();
    assert!(cycles.windows(2).all(|w| w[0] < w[1]));
    // 60 = 3·20 is derived before 4·... and 43 = 2·20 + 3 is intercalary.
    let c60 = cands.iter().find(|c| c.cycle == 60).unwrap();
    assert_eq!(c60.generator_path, "G(3, 20)");
    let c43 = cands.iter().find(|c| c.cycle == 43).unwrap();
    assert_eq!(c43.generator_path, "G(2, 20, 1, 3)");
    assert_eq!(c43.astro_name, "generator-predicted");
    // 173 = 8·20 + 13 keeps its astronomical name.
    let c173 = cands.iter().find(|c| c.cycle == 173).unwrap();
    assert_eq!(c173.astro_name, "half-eclipse");
    assert!(cycles.iter().all(|&c| c <= 1_000 && c != 360 && c != 584 && c != 819));
}

#[test]
fn head_paths_parse_like_the_generator_writes_them() {
    // "G(11, 20)" is uniform: eleven phases of twenty days.
    let c = GeneratorCandidate::new(220, "G(11, 20)", "11-winal");
    assert_eq!(head_from_generator_candidate(&c).1, vec![20; 11]);
    // A uniform path with more than 500 phases falls back too.
    let c = GeneratorCandidate::new(1002, "G(501, 2)", "x");
    assert_eq!(head_from_generator_candidate(&c).1, vec![1002]);
    // Spaces and a plus sign parse; junk pieces are skipped.
    let c = GeneratorCandidate::new(9, "G( +3 ,x, 3 )", "y");
    assert_eq!(head_from_generator_candidate(&c).1, vec![3, 3, 3]);
    let c = GeneratorCandidate::new(7, "nothing", "z");
    let (name, phases) = head_from_generator_candidate(&c);
    assert_eq!(name, "z");
    assert_eq!(phases, vec![7]);
}

#[test]
fn extended_entries_follow_the_candidates() {
    let events = EventSet::canonical_corpus(0, 20_000);
    let cands = enumerate_generator_candidates(300);
    let pairs: Vec<Vec<(u64, u64)>> = cands.iter().map(|c| pairs_for(&events, c.cycle)).collect();
    let report = compute_h3_extended_for_pairs(&cands, &pairs, 3_000);
    let direct = compute_h3_extended(&events, &FOUR_CYCLES, 300, 3_000);
    assert_eq!(direct.entries.len(), report.entries.len());
    for (a, b) in direct.entries.iter().zip(report.entries.iter()) {
        assert_eq!(a.cycle, b.cycle);
        assert_eq!(a.independence_ratio_bp, b.independence_ratio_bp);
        assert_eq!(a.h3_admissible, b.h3_admissible);
    }
    assert_eq!(report.entries.len(), cands.len());
    assert_eq!(report.dkam_pass, cands.len());
    for (e, c) in report.entries.iter().zip(cands.iter()) {
        assert_eq!(e.cycle, c.cycle);
        assert!(e.dkam_admissible);
        let ratio = e.independence_ratio_bp.unwrap();
        assert_eq!(e.h3_admissible, ratio >= 3_000);
    }
    let admitted: Vec<u64> = report.entries.iter().filter(|e| e.h3_admissible).map(|e| e.cycle).collect();
    let newly: Vec<u64> = report.newly_admissible.iter().map(|p| p.0).collect();
    assert_eq!(admitted, newly);
    assert_eq!(report.h3_pass, newly.len());
}
