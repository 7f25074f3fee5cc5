use dccms_atlas::atlas::ConfigAtlas;
use dccms_atlas::cross_validation::{
    compute_cross_validation, h3_cross_validation, h5_kappa3_cross_validation,
    mars_synodic_corpus, saros_eclipse_corpus, venus_great_round_corpus,
    MARS_SYNODIC, SAROS_DAYS, VENUS_GREAT_ROUND, VENUS_GREAT_ROUND_OFFSETS,
};
use dccms_atlas::events::EventSet;
use dccms_atlas::h3_mi::h3_mi_report_for_pairs;
use dccms_atlas::substrate::carry_bits;

/// The four calendar heads used as a fixture (name, cycle).
const FOUR_HEADS: [(&str, u64); 4] =
    [("Tzolkin", 260), ("Haab", 365), ("Venus", 584), ("Long Count", 7_200)];

/// Candidate heads used as a fixture (name, cycle).
const CANDIDATES: [(&str, u64); 3] = [("Saturn_11²", 121), ("Temperaments", 4), ("EclipseAlt", 325)];

fn address(day: u64, cycles: &[u64]) -> u64 {
    let bits: Vec<[u8; 6]> = cycles.iter().map(|&c| carry_bits(day % c)).collect();
    ConfigAtlas::compute_address(&bits)
}

fn pairs(events: &EventSet, candidate_cycle: u64) -> Vec<(u64, u64)> {
    let four: Vec<u64> = FOUR_HEADS.iter().map(|h| h.1).collect();
    events
        .events
        .iter()
        .map(|e| (address(e.days_since_epoch, &four), address(e.days_since_epoch, &[candidate_cycle])))
        .collect()
}

#[test]
fn saros_corpus_generates_correct_period() {
    let corpus = saros_eclipse_corpus(0, 200_000);
    assert!(!corpus.is_empty());
    let events = &corpus.events;
    assert!(events.len() > 10);
    assert_eq!(events[0].days_since_epoch, 0);
    assert_eq!(events[1].days_since_epoch, SAROS_DAYS);
}

#[test]
fn saros_corpus_size_reasonable() {
    let corpus = saros_eclipse_corpus(0, 200_000);
    let expected_approx = 10 * (200_000 / SAROS_DAYS + 1);
    assert!(corpus.len() <= expected_approx as usize + 10);
    assert!(corpus.len() >= 100);
}

#[test]
fn saros_series_start_on_or_after_the_range_start() {
    let corpus = saros_eclipse_corpus(1_000, 8_000);
    let days: Vec<u64> = corpus.events.iter().map(|e| e.days_since_epoch).collect();
    assert_eq!(
        days,
        vec![6_585, 7_239, 1_308, 7_893, 1_962, 2_616, 3_270, 3_924, 4_578, 5_232, 5_886]
    );
}

#[test]
fn venus_great_round_total_matches() {
    assert_eq!(VENUS_GREAT_ROUND, 8 * 365);
    assert_eq!(VENUS_GREAT_ROUND, 5 * 584);
    assert_eq!(VENUS_GREAT_ROUND_OFFSETS.last().unwrap() + 584, VENUS_GREAT_ROUND);
}

#[test]
fn venus_great_round_corpus_events_at_correct_positions() {
    let corpus = venus_great_round_corpus(0, 3_000);
    let days: Vec<u64> = corpus.events.iter().map(|e| e.days_since_epoch).collect();
    for &offset in &VENUS_GREAT_ROUND_OFFSETS {
        assert!(days.contains(&offset), "offset {}", offset);
    }
    assert_eq!(days, vec![0, 584, 1168, 1752, 2336, 2920]);
    let window = venus_great_round_corpus(1_000, 3_500);
    let wdays: Vec<u64> = window.events.iter().map(|e| e.days_since_epoch).collect();
    assert_eq!(wdays, vec![1168, 1752, 2336, 2920]);
}

#[test]
fn mars_corpus_evenly_spaced() {
    let corpus = mars_synodic_corpus(0, 10_000);
    let days: Vec<u64> = corpus.events.iter().map(|e| e.days_since_epoch).collect();
    assert_eq!(days[0], 0);
    assert_eq!(days[1], MARS_SYNODIC);
    assert_eq!(days[2], 2 * MARS_SYNODIC);
    assert_eq!(days.len(), 13);
}

#[test]
fn cross_validation_h5_level2_holds_for_saros() {
    let results = h5_kappa3_cross_validation(&FOUR_HEADS);
    assert_eq!(results.len(), 3);
    for r in &results {
        assert!(r.level2_prediction_holds, "corpus {}", r.corpus_name);
    }
    assert_eq!(results[0].corpus_name, "Saros");
    assert_eq!(results[0].kappa3_zero_per_head[0].1, 10_000);
}

#[test]
fn level2_prediction_needs_both_named_heads() {
    let results = h5_kappa3_cross_validation(&[("Tzolkin", 260)]);
    assert!(results.iter().all(|r| !r.level2_prediction_holds));
}

#[test]
fn cross_validation_report_runs() {
    let report = compute_cross_validation(&FOUR_HEADS);
    assert!(!report.h5_results.is_empty());
    assert!(report.h5_level2_universal);
    assert_eq!(report.h3_results.len(), 9);
}

#[test]
fn h3_rows_follow_candidates_then_corpora() {
    let rows = h3_cross_validation(&FOUR_HEADS);
    assert_eq!(rows.len(), 9);
    let canonical = EventSet::canonical_corpus(0, 200_000);
    let corpora = [
        ("Saros", saros_eclipse_corpus(0, 200_000)),
        ("Venus_GR", venus_great_round_corpus(0, 200_000)),
        ("Mars", mars_synodic_corpus(0, 200_000)),
    ];
    for (c, &(name, cycle)) in CANDIDATES.iter().enumerate() {
        let canon = h3_mi_report_for_pairs(&pairs(&canonical, cycle), name, cycle, 3_000);
        for (j, (corpus_name, corpus)) in corpora.iter().enumerate() {
            let row = &rows[c * 3 + j];
            assert_eq!(row.candidate_name, name);
            assert_eq!(row.corpus_name, *corpus_name);
            assert_eq!(row.canonical_ratio_bp, canon.independence_ratio_bp);
            let x = h3_mi_report_for_pairs(&pairs(corpus, cycle), name, cycle, 3_000);
            assert_eq!(row.crossval_ratio_bp, x.independence_ratio_bp);
            assert_eq!(
                row.stable,
                row.crossval_ratio_bp >= row.canonical_ratio_bp / 2
                    && row.crossval_ratio_bp <= row.canonical_ratio_bp * 2 + 500
            );
        }
    }
}

#[test]
fn saros_period_is_correct_rational_approximation() {
    assert_eq!(SAROS_DAYS, 6_585);
}
