use dccms_atlas::atlas::ConfigAtlas;
use dccms_atlas::codex_decoder::{
    codex_carry_classification, full_codex_prime11_table, synthetic_eclipse_sequence, venus_column_days,
    VenusEntry,
};
use dccms_atlas::codex_topology::{
    is_water_damaged, page_sections, page_to_section, CodexSection,
};
use dccms_atlas::events::EventSet;
use dccms_atlas::h3_mi::{
    build_joint_distribution, entropy_nbp, h3_mi_report, h3_mi_report_for_pairs, ln_nbp, marginal_x, marginal_y,
    mutual_information_nbp,
};
use dccms_atlas::h4_montgomery::{
    byproduct_entropy_nbp, compute_montgomery_report, distinct_byproduct_pairs, extended_gcd,
    goddess_section_quads, max_byproduct_entropy_nbp, mod_inverse, period_montgomery_sweep,
    MontgomeryQuad, INV11_MOD13, INV13_MOD11,
};
use dccms_atlas::h4_non_visual::{
    compute_h4_non_visual, instrument_1_period_entropy, instrument_2_residue_pattern,
    instrument_3_cycle_alignment, instrument_4_carry_flux, GODDESS_SECTION_INTERVALS,
    GODDESS_SECTION_TOTAL, WAYEB_INTERVALS,
};
use dccms_atlas::substrate::{active_lanes, carry_bits, cram_address, VENUS_PHASES};

/// The four calendar heads used as a fixture: Tzolk'in, Haab, Venus
/// synodic period and the Long Count Katun.
const FOUR_HEADS: [(&str, u64); 4] =
    [("Tzolk'in", 260), ("Haab", 365), ("Venus", 584), ("Long Count", 7_200)];

// ── mutual information ────────────────────────────────────────────────

#[test]
fn ln_nbp_known_values() {
    assert_eq!(ln_nbp(0), i64::MIN);
    assert_eq!(ln_nbp(1), 0);
    let v = ln_nbp(2);
    assert!((v - 6931).abs() <= 50, "ln(2) approx = {}", v);
    let v = ln_nbp(10);
    assert!((v - 23026).abs() <= 100, "ln(10) approx = {}", v);
    let v = ln_nbp(100);
    assert!((v - 46052).abs() <= 200, "ln(100) approx = {}", v);
}

#[test]
fn ln_nbp_of_powers_of_two_is_exact_multiple() {
    assert_eq!(ln_nbp(2), 6931);
    assert_eq!(ln_nbp(4), 2 * 6931);
    assert_eq!(ln_nbp(1024), 10 * 6931);
}

#[test]
fn entropy_zero_for_single_class() {
    assert_eq!(entropy_nbp(&[100, 0, 0, 0]), 0);
    assert_eq!(entropy_nbp(&[]), 0);
    assert_eq!(entropy_nbp(&[0, 0]), 0);
}

#[test]
fn entropy_maximum_for_uniform() {
    let h = entropy_nbp(&[25, 25, 25, 25]);
    assert!((h - 13863).abs() <= 200, "H = {}", h);
    assert_eq!(entropy_nbp(&[1, 1]), 6931);
}

#[test]
fn mutual_information_zero_for_independent_marginals() {
    let joint = vec![((0u64, 0u64), 25u64), ((0, 1), 25), ((1, 0), 25), ((1, 1), 25)];
    let mi = mutual_information_nbp(&joint);
    assert!(mi <= 100, "I = {} should be ~0 for independent", mi);
}

#[test]
fn mutual_information_high_for_perfect_correlation() {
    let joint = vec![((0u64, 0u64), 50u64), ((1, 1), 50)];
    let mi = mutual_information_nbp(&joint);
    assert!((mi - 6931).abs() <= 200, "I = {} for perfect correlation", mi);
}

#[test]
fn joint_distribution_counts_pairs_in_first_occurrence_order() {
    let joint = build_joint_distribution(&[(1, 2), (3, 4), (1, 2), (1, 5)]);
    assert_eq!(joint, vec![((1, 2), 2), ((3, 4), 1), ((1, 5), 1)]);
    assert_eq!(marginal_x(&joint), vec![(1, 3), (3, 1)]);
    assert_eq!(marginal_y(&joint), vec![(2, 2), (4, 1), (5, 1)]);
}

#[test]
fn h3_mi_runs_for_canonical_corpus() {
    let events = EventSet::canonical_corpus(0, 50_000);
    let candidate_cycle = 121;
    let pairs: Vec<(u64, u64)> = events
        .events
        .iter()
        .map(|e| {
            let d = e.days_since_epoch;
            let four: Vec<[u8; 6]> = FOUR_HEADS.iter().map(|h| carry_bits(d % h.1)).collect();
            let cand = [carry_bits(d % candidate_cycle)];
            (ConfigAtlas::compute_address(&four), ConfigAtlas::compute_address(&cand))
        })
        .collect();
    let report = h3_mi_report_for_pairs(&pairs, "Saturn 11²", candidate_cycle, 3000);
    let four: Vec<u64> = FOUR_HEADS.iter().map(|h| h.1).collect();
    let direct = h3_mi_report(&events, &four, "Saturn 11²", candidate_cycle, 3000);
    assert_eq!(direct.independence_ratio_bp, report.independence_ratio_bp);
    assert_eq!(direct.mutual_information_nbp, report.mutual_information_nbp);
    assert!(report.candidate_entropy_nbp >= 0);
    assert!(report.mutual_information_nbp >= 0);
    assert!(report.independent_information_nbp >= 0);
    assert!(report.independence_ratio_bp <= 10000);
    assert_eq!(report.candidate_name, "Saturn 11²");
    assert_eq!(report.admissible, report.independence_ratio_bp >= 3000);
}

// ── numerical Goddess-section instruments ─────────────────────────────

#[test]
fn goddess_section_total_is_1480() {
    let sum: u64 = GODDESS_SECTION_INTERVALS.iter().sum();
    assert_eq!(sum, GODDESS_SECTION_TOTAL);
}

#[test]
fn goddess_section_alternates_148_177() {
    for (i, &v) in GODDESS_SECTION_INTERVALS.iter().enumerate() {
        if i % 2 == 0 {
            assert_eq!(v, 148);
        } else {
            assert_eq!(v, 177);
        }
    }
}

#[test]
fn instrument_1_goddess_section_is_structured() {
    let r = instrument_1_period_entropy();
    assert!(r.null_entropy_nbp > 0);
    assert!(r.observed_entropy_nbp >= 0);
    assert!(r.null_entropy_nbp >= r.observed_entropy_nbp);
    assert_eq!(r.excess_structure_nbp, r.null_entropy_nbp - r.observed_entropy_nbp);
}

#[test]
fn instrument_2_residue_pattern_has_few_distinct_addresses() {
    let r = instrument_2_residue_pattern();
    assert_eq!(r.page_signatures.len(), 9);
    assert!(r.distinct_addresses <= 9);
    assert!(r.distinct_addresses >= 1);
}

#[test]
fn instrument_2_cumulative_totals_are_correct() {
    let r = instrument_2_residue_pattern();
    assert_eq!(r.page_signatures[0].0, 148);
    assert_eq!(r.page_signatures[1].0, 325);
    assert_eq!(r.page_signatures[8].0, GODDESS_SECTION_TOTAL);
}

#[test]
fn instrument_3_eclipse_head_aligns_with_goddess_section() {
    let r = instrument_3_cycle_alignment(&FOUR_HEADS);
    assert_eq!(r.alignments.len(), 4);
    for (_, aligns) in &r.alignments {
        assert_eq!(aligns.len(), 9);
    }
    let eclipse = instrument_3_cycle_alignment(&[("Eclipse half-year", 148)]);
    assert!(eclipse.alignments[0].1[0]);
    assert!(eclipse.any_alignment);
}

#[test]
fn instrument_4_carry_flux_runs() {
    let r = instrument_4_carry_flux();
    assert_eq!(r.residue_sequences.len(), 6);
    assert_eq!(r.common_differences.len(), 6);
}

#[test]
fn h4_non_visual_report_generates() {
    let r = compute_h4_non_visual(&FOUR_HEADS);
    assert!(r.instruments_passing <= 4);
    assert!(!r.verdict.label().is_empty());
}

#[test]
fn wayeb_sequence_sums_to_365() {
    let sum: u64 = WAYEB_INTERVALS.iter().sum();
    assert_eq!(sum, 365);
}

// ── Montgomery quotient shadow ────────────────────────────────────────

#[test]
fn mod_inverse_11_mod_13() {
    assert_eq!(INV11_MOD13, 6);
    assert_eq!((11 * INV11_MOD13) % 13, 1);
    assert_eq!(mod_inverse(11, 13), 6);
}

#[test]
fn mod_inverse_13_mod_11() {
    assert_eq!(INV13_MOD11, 6);
    assert_eq!((13 * INV13_MOD11) % 11, 1);
    assert_eq!(mod_inverse(13, 11), 6);
}

#[test]
fn extended_gcd_known_values() {
    let (g, x, y) = extended_gcd(11, 13);
    assert_eq!(g, 1);
    assert_eq!(11 * x + 13 * y, 1);
    assert_eq!(extended_gcd(12, 18).0, 6);
    assert_eq!(extended_gcd(7, 0), (7, 1, 0));
}

#[test]
fn mod_inverse_of_non_unit_gives_gcd_class() {
    // gcd(4, 6) = 2: 4·r ≡ 2 (mod 6) with r in [0, 6).
    let r = mod_inverse(4, 6);
    assert!(r < 6);
    assert_eq!((4 * r) % 6, 2);
}

#[test]
fn montgomery_quad_day_zero() {
    let q = MontgomeryQuad::from_day(0);
    assert_eq!(q.r11, 0);
    assert_eq!(q.r13, 0);
    assert_eq!(q.q11, 0);
    assert_eq!(q.q13, 0);
}

#[test]
fn montgomery_quad_day_148() {
    let q = MontgomeryQuad::from_day(148);
    assert_eq!(q.r11, 148 % 11);
    assert_eq!(q.r13, 148 % 13);
    assert_eq!(q.q11, (148 % 13 * INV11_MOD13) % 13);
    assert_eq!(q.q13, (148 % 11 * INV13_MOD11) % 11);
    assert_eq!(q.byproduct_pair(), (4, 8));
    assert_eq!((11 * q.q11) % 13, q.r13);
    assert_eq!((13 * q.q13) % 11, q.r11);
}

#[test]
fn goddess_section_quads_correct_count() {
    let quads = goddess_section_quads();
    assert_eq!(quads.len(), 9);
    assert_eq!(quads.last().unwrap().0, 1_448);
}

#[test]
fn goddess_section_first_boundary_at_148() {
    let quads = goddess_section_quads();
    assert_eq!(quads[0].0, 148);
    assert_eq!(quads[0].1.r11, 5);
    assert_eq!(quads[0].1.r13, 5);
}

#[test]
fn distinct_pairs_at_most_n_pages() {
    let n = goddess_section_quads().len();
    assert!(distinct_byproduct_pairs() <= n);
    assert!(distinct_byproduct_pairs() >= 1);
}

#[test]
fn montgomery_report_runs() {
    let report = compute_montgomery_report();
    assert_eq!(report.page_quads.len(), 9);
    assert!(report.pair_entropy_nbp >= 0);
    assert!(report.max_entropy_nbp >= report.pair_entropy_nbp);
    assert!(report.entropy_reduction_nbp >= 0);
    assert_eq!(report.pair_entropy_nbp, byproduct_entropy_nbp());
    assert_eq!(report.max_entropy_nbp, max_byproduct_entropy_nbp(9));
    assert_eq!(report.byproduct_sequence.len(), 9);
}

#[test]
fn max_byproduct_entropy_caps_at_143_bins() {
    assert_eq!(max_byproduct_entropy_nbp(0), 0);
    assert_eq!(max_byproduct_entropy_nbp(1), 0);
    assert_eq!(max_byproduct_entropy_nbp(2), 6931);
    assert_eq!(max_byproduct_entropy_nbp(143), max_byproduct_entropy_nbp(1000));
}

#[test]
fn period_sweep_known_values() {
    let sweep = period_montgomery_sweep();
    let tzolkin = sweep.iter().find(|(n, _, _)| *n == "Tzolk'in").unwrap();
    assert_eq!(tzolkin.2.r11, 260 % 11);
    assert_eq!(tzolkin.2.r13, 260 % 13);
    let haab = sweep.iter().find(|(n, _, _)| *n == "Haab").unwrap();
    assert_eq!(haab.2.r11, 365 % 11);
    assert_eq!(haab.2.r13, 365 % 13);
}

#[test]
fn tzolkin_r13_is_zero() {
    let q = MontgomeryQuad::from_day(260);
    assert_eq!(q.r13, 0, "Tzolk'in nullifies lane 13");
}

#[test]
fn council_819_r11_r13_structure() {
    let q = MontgomeryQuad::from_day(819);
    assert_eq!(q.r13, 0, "819 nullifies lane 13");
    assert_eq!(q.r11, 819 % 11);
}

// ── codex topology ────────────────────────────────────────────────────

#[test]
fn every_codex_page_maps_to_a_section() {
    for page in 1u8..=74u8 {
        assert!(page_to_section(page).is_some(), "page {}", page);
    }
}

#[test]
fn pages_outside_codex_have_no_section() {
    assert_eq!(page_to_section(0), None);
    assert_eq!(page_to_section(75), None);
    assert_eq!(page_to_section(255), None);
}

#[test]
fn moon_goddess_pages_match_h4_visual_target() {
    for page in 16u8..=23u8 {
        assert_eq!(page_to_section(page), Some(CodexSection::MoonGoddess));
    }
    assert_eq!(page_to_section(24), Some(CodexSection::BlankBridge));
}

#[test]
fn page_15_is_moon_goddess_per_vault() {
    assert_eq!(page_to_section(15), Some(CodexSection::MoonGoddess));
}

#[test]
fn page_58_belongs_to_both_eclipse_and_mars78() {
    assert_eq!(page_to_section(58), Some(CodexSection::Eclipse));
    let sections = page_sections(58);
    assert_eq!(sections.len(), 2);
    assert!(sections.contains(&CodexSection::Eclipse));
    assert!(sections.contains(&CodexSection::Mars78));
}

#[test]
fn sections_cover_full_codex_without_gaps() {
    let sections = CodexSection::all();
    assert_eq!(sections[0].first_page(), 1);
    assert_eq!(sections[sections.len() - 1].last_page(), 74);
    for w in sections.windows(2) {
        let gap = w[1].first_page() as i32 - w[0].last_page() as i32;
        assert!(gap == 0 || gap == 1, "gap between {:?} and {:?}: {}", w[0], w[1], gap);
    }
}

#[test]
fn water_damage_pages() {
    let damaged = [2u8, 4, 24, 28, 34, 38, 71, 72];
    for &p in &damaged {
        assert!(is_water_damaged(p), "page {}", p);
    }
    for p in [46u8, 47, 48, 49, 50, 51, 60] {
        assert!(!is_water_damaged(p));
    }
    assert!(is_water_damaged(24));
    assert_eq!(page_to_section(24), Some(CodexSection::BlankBridge));
}

#[test]
fn first_last_consistent_per_section() {
    for &s in CodexSection::all() {
        assert!(s.first_page() <= s.last_page(), "{:?}", s);
    }
}

// ── codex decoder ─────────────────────────────────────────────────────

#[test]
fn synthetic_eclipse_sequence_sums_to_table_length() {
    let seq = synthetic_eclipse_sequence();
    assert_eq!(seq.len(), 74);
    assert_eq!(seq.iter().sum::<u64>(), 11_960);
    assert_eq!(seq[0], 177);
    assert_eq!(seq[1], 148);
    assert_eq!(seq[72], 177);
    assert_eq!(seq[73], 83);
}

#[test]
fn venus_columns_span_thirteen_periods_each() {
    assert_eq!(venus_column_days(0), 0);
    assert_eq!(venus_column_days(1), 7_592);
    assert_eq!(venus_column_days(5), 37_960);
}

#[test]
fn venus_entry_period_zero() {
    let e = VenusEntry::compute(0);
    assert_eq!(e.start_day, 0);
    assert_eq!(e.end_day, 584);
    assert_eq!(e.phases, VENUS_PHASES);
    assert_eq!(e.phase_boundaries[3], 584);
}

#[test]
fn venus_entry_heliacal_rising_days() {
    for i in 0..13 {
        let e = VenusEntry::compute(i);
        assert_eq!(e.col, 0);
        assert_eq!(e.row, i);
    }
    let e13 = VenusEntry::compute(13);
    assert_eq!(e13.col, 1);
    assert_eq!(e13.row, 0);
}

#[test]
fn prime_11_universal_in_all_codex_sections() {
    let table = full_codex_prime11_table();
    for entry in &table {
        assert!(
            entry.prime_11_active,
            "Prime 11 must be active in every Dresden section: {}",
            entry.section_name
        );
    }
}

#[test]
fn tzolkin_class_contains_key_sections() {
    let cls = codex_carry_classification();
    assert!(cls.prime_11_universal, "Prime 11 must be universal across the codex");
    let tz_names: Vec<_> = cls.tzolkin_class.iter().map(|(n, _)| *n).collect();
    assert!(tz_names.iter().any(|n| n.contains("260")), "Tzolk'in in its own class");
    assert!(tz_names.iter().any(|n| n.contains("11960")), "Eclipse Table in Tzolk'in class");
    assert!(tz_names.iter().any(|n| n.contains("37960")), "Venus Table in Tzolk'in class");
}

#[test]
fn tzolkin_the_unique_three_prime_product() {
    let tzolkin_active = active_lanes(260);
    assert_eq!(tzolkin_active, vec![3, 7, 11], "Tzolk'in activates exactly {{3,7,11}}");
    let other = active_lanes(30);
    assert_ne!(other, vec![3u64, 7, 11], "30=2x3x5 has different active lanes than 260");
}

#[test]
fn venus_entry_addresses_its_start_within_the_table() {
    let e = VenusEntry::compute(65);
    assert_eq!(e.start_day, 37_960);
    assert_eq!(e.start_cram, cram_address(0));
    assert_eq!(e.start_level_11, 0);
    assert_eq!(e.phase_boundaries, [38_196, 38_286, 38_536, 38_544]);
    let e7 = VenusEntry::compute(7);
    assert_eq!(e7.start_day, 4_088);
    assert_eq!(e7.start_level_11, 3);
    let table = full_codex_prime11_table();
    assert_eq!(table.len(), 12);
    assert_eq!(table[3].r11, 1448 % 11);
    let cls = codex_carry_classification();
    assert_eq!(cls.tzolkin_class.len() + cls.other_class.len(), 12);
    let haab = cls.other_class.iter().find(|o| o.1 == 365).unwrap();
    assert_eq!(haab.2, 59);
}

#[test]
fn ln_covers_every_u64() {
    assert_eq!(ln_nbp(1u64 << 40), 40 * 6931);
    let top = ln_nbp(u64::MAX);
    // ln(2^64) ≈ 44.3614 → 443614 nbp.
    assert!((top - 443_614).abs() <= 200, "ln(u64::MAX) approx = {}", top);
    let mid = ln_nbp(1_000_000_000_000);
    // ln(10^12) ≈ 27.6310 → 276310 nbp.
    assert!((mid - 276_310).abs() <= 200, "ln(1e12) approx = {}", mid);
    assert!(ln_nbp(16_383) <= ln_nbp(16_384) && ln_nbp(16_384) <= ln_nbp(16_385));
}

#[test]
fn entropy_ignores_order_and_empty_classes() {
    assert_eq!(entropy_nbp(&[3, 1, 2]), entropy_nbp(&[1, 2, 3, 0]));
    assert_eq!(entropy_nbp(&[5, 0, 7]), entropy_nbp(&[7, 5]));
}

#[test]
fn mutual_information_is_symmetric() {
    let joint = build_joint_distribution(&[(1, 2), (3, 4), (1, 2), (1, 5), (3, 2)]);
    let swapped: Vec<((u64, u64), u64)> = joint.iter().map(|&((x, y), c)| ((y, x), c)).collect();
    assert_eq!(mutual_information_nbp(&joint), mutual_information_nbp(&swapped));
}

#[test]
fn ln_follows_the_full_series_where_it_fits() {
    assert_eq!(ln_nbp(16_389), 97_037);
    assert_eq!(ln_nbp(100_000), 115_110);
    assert_eq!(ln_nbp(1_000_000), 138_671);
    assert_eq!(ln_nbp(1_060_921), 138_737);
    assert_eq!(ln_nbp(1_099_511_627_781), 277_240);
}

#[test]
fn extended_gcd_and_inverse_follow_truncating_division() {
    assert_eq!(extended_gcd(-12, 18), (6, 1, 1));
    assert_eq!(extended_gcd(12, -18), (-6, 1, 1));
    assert_eq!(extended_gcd(-12, -18), (-6, -1, 1));
    assert_eq!(extended_gcd(-7, 0), (-7, 1, 0));
    assert_eq!(extended_gcd(0, -5), (-5, 0, 1));
    assert_eq!(extended_gcd(240, -46), (-2, 9, 47));
    assert_eq!(mod_inverse(-11, 13), 6);
    assert_eq!(mod_inverse(11, -13), -7);
    assert_eq!(mod_inverse(3, -7), -5);
    assert_eq!(mod_inverse(-3, -7), -2);
    assert_eq!(mod_inverse(5, 7), 3);
}

#[test]
fn entropy_exact_values() {
    assert_eq!(entropy_nbp(&[1, 1]), 6931);
    assert_eq!(entropy_nbp(&[50, 50]), 6931);
    assert_eq!(entropy_nbp(&[25, 25, 25, 25]), 13862);
    assert_eq!(entropy_nbp(&[0, 0, 9, 0]), 0);
    assert_eq!(entropy_nbp(&[]), 0);
}

#[test]
fn h4_report_carries_each_instrument() {
    let r = compute_h4_non_visual(&FOUR_HEADS);
    let e = instrument_1_period_entropy();
    let s = instrument_2_residue_pattern();
    let a = instrument_3_cycle_alignment(&FOUR_HEADS);
    let c = instrument_4_carry_flux();
    assert_eq!(r.entropy.structured, e.structured);
    assert_eq!(r.entropy.excess_structure_nbp, e.excess_structure_nbp);
    assert_eq!(r.residue.structured, s.structured);
    assert_eq!(r.residue.distinct_addresses, s.distinct_addresses);
    assert_eq!(r.alignment.any_alignment, a.any_alignment);
    assert_eq!(r.alignment.total_alignments, a.total_alignments);
    assert_eq!(r.carry_flux.structured, c.structured);
    assert_eq!(r.carry_flux.ap_prime_count, c.ap_prime_count);
    let passing = [e.structured, s.structured, a.any_alignment, c.structured].iter().filter(|&&b| b).count();
    assert_eq!(r.instruments_passing as usize, passing);
}
