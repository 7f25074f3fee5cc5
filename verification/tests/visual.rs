use dccms_atlas::h4_non_visual::{
    instrument_2_residue_pattern, GODDESS_SECTION_INTERVALS, GODDESS_SECTION_TOTAL,
};
use dccms_atlas::h4_visual::alphabet::{safe_address, GlyphAlphabet, SemanticRole};
use dccms_atlas::h4_visual::bardot::BarDotNumeral;
use dccms_atlas::h4_visual::dayname::{self, DayNameGlyph, ALL_DAY_NAMES};
use dccms_atlas::h4_visual::iconographic::{from_page, IconographicFigure, ALL_FIGURES};
use dccms_atlas::h4_visual::layout::{
    cumulative_addresses, cumulative_totals, goddess_section_layout, PageLayout,
};
use dccms_atlas::h4_visual::lift::{
    basis_product, lift, SAFE_BASIS_K10, SAFE_BASIS_K7, SAFE_BASIS_K8,
};
use dccms_atlas::h4_visual::month::{self, MonthGlyph, ALL_MONTHS};
use dccms_atlas::h4_visual::wire::{
    page_intervals, residue_pattern_from_layout, verify_against_non_visual_pipeline,
};
use dccms_atlas::h5_level::k_elim_level;
use dccms_atlas::substrate::{active_lanes, carry_bits, cram_address, M_SAFE, SAFE_BASIS};
use std::collections::HashSet;

struct ScaffoldGlyph(u64);

impl GlyphAlphabet<6> for ScaffoldGlyph {
    fn ordinal_spec(&self) -> u64 {
        self.0
    }
    fn ordinal(&self) -> u64 {
        self.0
    }
    fn role_spec(&self) -> SemanticRole {
        SemanticRole::Content
    }
    fn semantic_role(&self) -> SemanticRole {
        SemanticRole::Content
    }
}

struct WideGlyph(u64);

impl GlyphAlphabet<6> for WideGlyph {
    fn ordinal_spec(&self) -> u64 {
        self.0
    }
    fn ordinal(&self) -> u64 {
        self.0
    }
    fn role_spec(&self) -> SemanticRole {
        SemanticRole::Content
    }
    fn semantic_role(&self) -> SemanticRole {
        SemanticRole::Content
    }
}

impl GlyphAlphabet<7> for WideGlyph {
    fn ordinal_spec(&self) -> u64 {
        self.0
    }
    fn ordinal(&self) -> u64 {
        self.0
    }
    fn role_spec(&self) -> SemanticRole {
        SemanticRole::Content
    }
    fn semantic_role(&self) -> SemanticRole {
        SemanticRole::Content
    }
}

const K7_BASIS: [u64; 7] = [2, 3, 5, 7, 11, 13, 17];

// ── alphabet ──────────────────────────────────────────────────────────

#[test]
fn default_address_commutes_with_cram_address() {
    for ord in [0u64, 1, 5, 13, 19, 148, 177, 1448, 37960] {
        let g = ScaffoldGlyph(ord);
        assert_eq!(g.address(&SAFE_BASIS), cram_address(ord), "ord={}", ord);
        assert_eq!(safe_address(&g), cram_address(ord));
    }
}

#[test]
fn k7_lift_preserves_first_six_lanes() {
    for ord in [0u64, 19, 148, 1448, 37960] {
        let g = WideGlyph(ord);
        let k6 = <WideGlyph as GlyphAlphabet<6>>::address(&g, &SAFE_BASIS);
        let k7 = <WideGlyph as GlyphAlphabet<7>>::address(&g, &K7_BASIS);
        for i in 0..6 {
            assert_eq!(k6[i], k7[i], "lane {} for ord={}", i, ord);
        }
        assert_eq!(k7[6], ord % 17);
    }
}

#[test]
fn semantic_role_values_distinct() {
    assert_ne!(SemanticRole::Navigation, SemanticRole::Content);
    assert_ne!(SemanticRole::Navigation, SemanticRole::Boundary);
    assert_ne!(SemanticRole::Content, SemanticRole::Boundary);
}

// ── bar-and-dot numerals ──────────────────────────────────────────────

#[test]
fn new_accepts_0_through_19() {
    for value in 0..=19 {
        assert_eq!(BarDotNumeral::new(value), Some(BarDotNumeral(value)));
    }
    assert_eq!(BarDotNumeral::new(20), None);
    assert_eq!(BarDotNumeral::new(255), None);
}

#[test]
fn ordinal_matches_value() {
    for value in 0..=19 {
        let numeral = BarDotNumeral::new(value).unwrap();
        assert_eq!(<BarDotNumeral as GlyphAlphabet<6>>::ordinal(&numeral), value as u64);
    }
}

#[test]
fn semantic_role_is_content() {
    for value in 0..=19 {
        let numeral = BarDotNumeral::new(value).unwrap();
        assert_eq!(
            <BarDotNumeral as GlyphAlphabet<6>>::semantic_role(&numeral),
            SemanticRole::Content
        );
    }
}

#[test]
fn bardot_operator_consistency() {
    for value in 0..=19 {
        let numeral = BarDotNumeral::new(value).unwrap();
        assert_eq!(
            <BarDotNumeral as GlyphAlphabet<6>>::address(&numeral, &SAFE_BASIS),
            cram_address(<BarDotNumeral as GlyphAlphabet<6>>::ordinal(&numeral))
        );
    }
}

#[test]
fn bars_and_dots_count() {
    for value in 0..=19 {
        let numeral = BarDotNumeral::new(value).unwrap();
        assert_eq!(numeral.bar_count(), value / 5);
        assert_eq!(numeral.dot_count(), value % 5);
    }
}

// ── day names ─────────────────────────────────────────────────────────

#[test]
fn enumeration_has_20_variants() {
    assert_eq!(ALL_DAY_NAMES.len(), 20);
}

#[test]
fn dayname_ordinals_match_position() {
    for (i, glyph) in ALL_DAY_NAMES.iter().enumerate() {
        assert_eq!(<DayNameGlyph as GlyphAlphabet<6>>::ordinal(glyph), i as u64);
    }
}

#[test]
fn semantic_role_navigation() {
    for glyph in ALL_DAY_NAMES {
        assert_eq!(
            <DayNameGlyph as GlyphAlphabet<6>>::semantic_role(&glyph),
            SemanticRole::Navigation
        );
    }
}

#[test]
fn dayname_from_ordinal_round_trip() {
    for n in 0..20 {
        let glyph = dayname::from_ordinal(n).unwrap();
        assert_eq!(<DayNameGlyph as GlyphAlphabet<6>>::ordinal(&glyph), n);
    }
    assert_eq!(dayname::from_ordinal(20), None);
}

#[test]
fn dayname_operator_consistency() {
    for glyph in ALL_DAY_NAMES {
        let ordinal = <DayNameGlyph as GlyphAlphabet<6>>::ordinal(&glyph);
        assert_eq!(
            <DayNameGlyph as GlyphAlphabet<6>>::address(&glyph, &SAFE_BASIS),
            cram_address(ordinal)
        );
    }
}

#[test]
fn fifth_operator_p11_active_except_at_lane_zeros() {
    for glyph in ALL_DAY_NAMES {
        let ordinal = <DayNameGlyph as GlyphAlphabet<6>>::ordinal(&glyph);
        let expected_active = ordinal % 11 != 0;
        let actually_active = active_lanes(ordinal).contains(&11);
        assert_eq!(actually_active, expected_active, "ordinal {} ({:?})", ordinal, glyph);
    }
    let eb_ord = <DayNameGlyph as GlyphAlphabet<6>>::ordinal(&DayNameGlyph::Eb);
    assert_eq!(eb_ord, 11);
    assert!(!active_lanes(eb_ord).contains(&11));
}

// ── months ────────────────────────────────────────────────────────────

#[test]
fn enumeration_has_19_variants() {
    assert_eq!(ALL_MONTHS.len(), 19);
}

#[test]
fn month_ordinals_match_position() {
    for (i, m) in ALL_MONTHS.iter().enumerate() {
        assert_eq!(m.ordinal(), i as u64);
    }
}

#[test]
fn semantic_roles_correct() {
    for m in ALL_MONTHS.iter().take(18) {
        assert_eq!(m.semantic_role(), SemanticRole::Navigation);
    }
    assert_eq!(MonthGlyph::Wayeb.semantic_role(), SemanticRole::Boundary);
}

#[test]
fn month_from_ordinal_round_trip() {
    for (i, m) in ALL_MONTHS.iter().enumerate() {
        assert_eq!(month::from_ordinal(i as u64), Some(*m));
    }
    assert_eq!(month::from_ordinal(19), None);
}

#[test]
fn month_operator_consistency() {
    for m in ALL_MONTHS {
        assert_eq!(
            <MonthGlyph as GlyphAlphabet<6>>::address(&m, &SAFE_BASIS),
            cram_address(m.ordinal())
        );
    }
}

#[test]
fn wayeb_ordinal_is_18() {
    assert_eq!(MonthGlyph::Wayeb.ordinal(), 18);
}

// ── iconographic figures ──────────────────────────────────────────────

#[test]
fn enumeration_has_9_variants() {
    assert_eq!(ALL_FIGURES.len(), 9);
}

#[test]
fn ordinals_0_through_8() {
    let ordinals: Vec<u64> = ALL_FIGURES.iter().map(|f| f.ordinal()).collect();
    let distinct: HashSet<u64> = ordinals.iter().copied().collect();
    assert_eq!(distinct.len(), 9);
    assert!(ordinals.iter().all(|&ord| ord <= 8));
    for expected in 0..=8 {
        assert!(distinct.contains(&expected));
    }
}

#[test]
fn boundary_figures_are_eclipse_and_blankbridge() {
    assert_eq!(IconographicFigure::EclipseGlyph.semantic_role(), SemanticRole::Boundary);
    assert_eq!(IconographicFigure::BlankBridge.semantic_role(), SemanticRole::Boundary);
    for figure in ALL_FIGURES {
        let is_boundary_figure = matches!(
            figure,
            IconographicFigure::EclipseGlyph | IconographicFigure::BlankBridge
        );
        if !is_boundary_figure {
            assert_eq!(figure.semantic_role(), SemanticRole::Content);
        }
    }
}

#[test]
fn page_24_is_blank_bridge() {
    assert_eq!(from_page(24), Some(IconographicFigure::BlankBridge));
    assert_eq!(IconographicFigure::BlankBridge.semantic_role(), SemanticRole::Boundary);
}

#[test]
fn from_page_round_trip() {
    for page in 16..=24 {
        assert!(from_page(page).is_some());
    }
    assert_eq!(from_page(15), None);
    assert_eq!(from_page(25), None);
}

#[test]
fn iconographic_operator_consistency() {
    for figure in ALL_FIGURES {
        assert_eq!(
            <IconographicFigure as GlyphAlphabet<6>>::address(&figure, &SAFE_BASIS),
            cram_address(figure.ordinal())
        );
    }
}

#[test]
fn associated_intervals_sum_to_1448() {
    let figure_sum: u64 = ALL_FIGURES.iter().map(|f| f.associated_interval()).sum();
    let interval_sum: u64 = GODDESS_SECTION_INTERVALS.iter().sum();
    assert_eq!(figure_sum, 1_448);
    assert_eq!(figure_sum, interval_sum);
}

// ── lift ──────────────────────────────────────────────────────────────

const SAMPLES: [u64; 14] = [0, 1, 5, 11, 13, 19, 148, 177, 260, 365, 584, 1_448, 11_960, 37_960];

#[test]
fn k6_lift_matches_cram_address() {
    for &x in SAMPLES.iter() {
        assert_eq!(lift::<6>(x, &SAFE_BASIS), cram_address(x), "x={}", x);
    }
}

#[test]
fn k7_extension_preserves_first_six_lanes() {
    for &x in SAMPLES.iter() {
        let k6 = lift::<6>(x, &SAFE_BASIS);
        let k7 = lift::<7>(x, &SAFE_BASIS_K7);
        for i in 0..6 {
            assert_eq!(k6[i], k7[i], "lane {} for x={}", i, x);
        }
        assert_eq!(k7[6], x % 17);
    }
}

#[test]
fn k8_extension_preserves_first_seven_lanes() {
    for &x in SAMPLES.iter() {
        let k7 = lift::<7>(x, &SAFE_BASIS_K7);
        let k8 = lift::<8>(x, &SAFE_BASIS_K8);
        for i in 0..7 {
            assert_eq!(k7[i], k8[i], "lane {} for x={}", i, x);
        }
        assert_eq!(k8[7], x % 19);
    }
}

#[test]
fn k10_extension_preserves_first_eight_lanes() {
    for &x in SAMPLES.iter() {
        let k8 = lift::<8>(x, &SAFE_BASIS_K8);
        let k10 = lift::<10>(x, &SAFE_BASIS_K10);
        for i in 0..8 {
            assert_eq!(k8[i], k10[i], "lane {} for x={}", i, x);
        }
        assert_eq!(k10[8], x % 23);
        assert_eq!(k10[9], x % 29);
    }
}

#[test]
fn every_lane_is_bounded_by_its_prime() {
    for &x in SAMPLES.iter() {
        let addr = lift::<10>(x, &SAFE_BASIS_K10);
        for (i, &p) in SAFE_BASIS_K10.iter().enumerate() {
            assert!(addr[i] < p, "addr[{}]={} must be < {} for x={}", i, addr[i], p, x);
        }
    }
}

#[test]
fn basis_product_values_match_documentation() {
    assert_eq!(basis_product(&SAFE_BASIS), M_SAFE as u128);
    assert_eq!(basis_product(&SAFE_BASIS_K7), 510_510);
    assert_eq!(basis_product(&SAFE_BASIS_K8), 9_699_690);
    assert_eq!(basis_product(&SAFE_BASIS_K10), 6_469_693_230);
}

// ── layout ────────────────────────────────────────────────────────────

#[test]
fn canonical_layout_has_9_pages() {
    assert_eq!(goddess_section_layout().len(), 9);
}

#[test]
fn canonical_layout_intervals_match_non_visual_constant() {
    let layout = goddess_section_layout();
    let intervals: Vec<u64> = layout.iter().map(|p| p.interval).collect();
    assert_eq!(intervals.as_slice(), &GODDESS_SECTION_INTERVALS[..]);
}

#[test]
fn canonical_layout_total_is_1448() {
    let layout = goddess_section_layout();
    let total: u64 = layout.iter().map(|p| p.interval).sum();
    assert_eq!(total, GODDESS_SECTION_TOTAL);
    assert_eq!(total, 1_448);
}

#[test]
fn page_indices_are_16_through_24() {
    let layout = goddess_section_layout();
    let pages: Vec<u8> = layout.iter().map(|p| p.page_index).collect();
    assert_eq!(pages, (16u8..=24u8).collect::<Vec<_>>());
}

#[test]
fn cumulative_totals_increasing_and_reach_1448() {
    let layout = goddess_section_layout();
    let totals = cumulative_totals(&layout);
    assert_eq!(totals.len(), 9);
    for w in totals.windows(2) {
        assert!(w[1] > w[0]);
    }
    assert_eq!(*totals.last().unwrap(), GODDESS_SECTION_TOTAL);
}

#[test]
fn cumulative_addresses_match_numerical_page_addresses() {
    let layout = goddess_section_layout();
    let visual = cumulative_addresses(&layout);
    let numerical = instrument_2_residue_pattern();
    let expected: Vec<[u64; 6]> = numerical.page_signatures.iter().map(|s| s.1).collect();
    assert_eq!(visual, expected);
    assert_eq!(visual[8], cram_address(1_448));
}

#[test]
fn page_layout_from_figure_takes_figure_interval() {
    let p = PageLayout::from_figure(17, IconographicFigure::WaterPot);
    assert_eq!(p.page_index, 17);
    assert_eq!(p.interval, 177);
    assert_eq!(p.cram_address(), cram_address(177));
    let q = PageLayout::from_figure(18, IconographicFigure::WeavingShuttle);
    assert_eq!(q.interval, 148);
}

// ── wire ──────────────────────────────────────────────────────────────

#[test]
fn page_intervals_recover_canonical_sequence() {
    let layout = goddess_section_layout();
    assert_eq!(page_intervals(&layout).as_slice(), &GODDESS_SECTION_INTERVALS[..]);
}

#[test]
fn verify_against_non_visual_pipeline_succeeds_for_canonical_layout() {
    let layout = goddess_section_layout();
    match verify_against_non_visual_pipeline(&layout) {
        Ok(()) => {}
        Err(e) => panic!("canonical layout failed verification: {}", e),
    }
}

#[test]
fn verify_detects_a_perturbed_layout() {
    let mut layout = goddess_section_layout();
    layout[0].interval = 999;
    let result = verify_against_non_visual_pipeline(&layout);
    assert!(result.is_err());
    assert_eq!(
        result.unwrap_err(),
        "visual intervals [999, 177, 148, 177, 148, 177, 148, 177, 148] != canonical \
         [148, 177, 148, 177, 148, 177, 148, 177, 148]"
    );
}

#[test]
fn verify_rejects_a_short_layout() {
    let layout = goddess_section_layout();
    let result = verify_against_non_visual_pipeline(&layout[..3]);
    assert_eq!(
        result.unwrap_err(),
        "visual intervals [148, 177, 148] != canonical [148, 177, 148, 177, 148, 177, 148, 177, 148]"
    );
    assert_eq!(
        verify_against_non_visual_pipeline(&[]).unwrap_err(),
        "visual intervals [] != canonical [148, 177, 148, 177, 148, 177, 148, 177, 148]"
    );
}

#[test]
fn residue_pattern_adapter_returns_canonical_signature() {
    let layout = goddess_section_layout();
    let from_visual = residue_pattern_from_layout(&layout);
    let from_canonical = instrument_2_residue_pattern();
    assert_eq!(format!("{:?}", from_visual), format!("{:?}", from_canonical));
}

// ── glyph contracts ───────────────────────────────────────────────────

#[test]
fn ctr01_object_contract_bardot_finite() {
    let valid: Vec<_> = (0..=19).filter_map(BarDotNumeral::new).collect();
    assert_eq!(valid.len(), 20);
    assert!(BarDotNumeral::new(20).is_none());
    assert!(BarDotNumeral::new(255).is_none());
}

#[test]
fn ctr01_object_contract_dayname_finite() {
    assert_eq!(ALL_DAY_NAMES.len(), 20);
}

#[test]
fn ctr01_object_contract_month_finite() {
    assert_eq!(ALL_MONTHS.len(), 19);
}

#[test]
fn ctr01_object_contract_iconographic_finite() {
    assert_eq!(ALL_FIGURES.len(), 9);
}

#[test]
fn ctr02_topology_codomain_is_u64_array() {
    let g = BarDotNumeral::new(13).unwrap();
    let addr: [u64; 6] = <BarDotNumeral as GlyphAlphabet<6>>::address(&g, &SAFE_BASIS);
    assert_eq!(addr, [1, 1, 3, 6, 2, 0]);
}

#[test]
fn ctr03_uniformity_dayname_all_lanes_bounded() {
    for &glyph in ALL_DAY_NAMES.iter() {
        let addr = <DayNameGlyph as GlyphAlphabet<6>>::address(&glyph, &SAFE_BASIS);
        for (i, &p) in SAFE_BASIS.iter().enumerate() {
            assert!(addr[i] < p);
        }
    }
}

#[test]
fn ctr03_uniformity_month_all_lanes_bounded() {
    for &glyph in ALL_MONTHS.iter() {
        let addr = <MonthGlyph as GlyphAlphabet<6>>::address(&glyph, &SAFE_BASIS);
        for (i, &p) in SAFE_BASIS.iter().enumerate() {
            assert!(addr[i] < p);
        }
    }
}

#[test]
fn ctr03_uniformity_iconographic_all_lanes_bounded() {
    for &glyph in ALL_FIGURES.iter() {
        let addr = <IconographicFigure as GlyphAlphabet<6>>::address(&glyph, &SAFE_BASIS);
        for (i, &p) in SAFE_BASIS.iter().enumerate() {
            assert!(addr[i] < p);
        }
    }
}

#[test]
fn ctr03_uniformity_extended_basis() {
    for x in [0u64, 19, 148, 1_448, 37_960] {
        let addr = lift::<10>(x, &SAFE_BASIS_K10);
        for (i, &p) in SAFE_BASIS_K10.iter().enumerate() {
            assert!(addr[i] < p);
        }
    }
}

#[test]
fn ctr04_operator_consistency_bardot() {
    for v in 0..=19 {
        let g = BarDotNumeral::new(v).unwrap();
        let visual = <BarDotNumeral as GlyphAlphabet<6>>::address(&g, &SAFE_BASIS);
        let canonical = cram_address(<BarDotNumeral as GlyphAlphabet<6>>::ordinal(&g));
        assert_eq!(visual, canonical);
    }
}

#[test]
fn ctr04_operator_consistency_dayname() {
    for &g in ALL_DAY_NAMES.iter() {
        let visual = <DayNameGlyph as GlyphAlphabet<6>>::address(&g, &SAFE_BASIS);
        let canonical = cram_address(<DayNameGlyph as GlyphAlphabet<6>>::ordinal(&g));
        assert_eq!(visual, canonical);
    }
}

#[test]
fn ctr04_operator_consistency_month() {
    for &g in ALL_MONTHS.iter() {
        let visual = <MonthGlyph as GlyphAlphabet<6>>::address(&g, &SAFE_BASIS);
        let canonical = cram_address(<MonthGlyph as GlyphAlphabet<6>>::ordinal(&g));
        assert_eq!(visual, canonical);
    }
}

#[test]
fn ctr04_operator_consistency_iconographic() {
    for &g in ALL_FIGURES.iter() {
        let visual = <IconographicFigure as GlyphAlphabet<6>>::address(&g, &SAFE_BASIS);
        let canonical = cram_address(<IconographicFigure as GlyphAlphabet<6>>::ordinal(&g));
        assert_eq!(visual, canonical);
    }
}

#[test]
fn ctr04_operator_consistency_carry_bits_derived_consistently() {
    for &g in ALL_FIGURES.iter() {
        let ord = <IconographicFigure as GlyphAlphabet<6>>::ordinal(&g);
        let addr = <IconographicFigure as GlyphAlphabet<6>>::address(&g, &SAFE_BASIS);
        let derived_carry: [u8; 6] = std::array::from_fn(|i| if addr[i] != 0 { 1 } else { 0 });
        assert_eq!(derived_carry, carry_bits(ord));
    }
}

#[test]
fn ctr04_operator_consistency_extends_to_k7_k8() {
    for &ord in [0u64, 1, 5, 11, 13, 17, 19, 148, 177].iter() {
        let k6 = cram_address(ord);
        let k7 = lift::<7>(ord, &SAFE_BASIS_K7);
        let k8 = lift::<8>(ord, &SAFE_BASIS_K8);
        for i in 0..6 {
            assert_eq!(k6[i], k7[i]);
            assert_eq!(k6[i], k8[i]);
        }
    }
}

#[test]
fn ctr05_discharge_visual_matches_non_visual() {
    let layout = goddess_section_layout();
    verify_against_non_visual_pipeline(&layout).expect("visual pipeline must match");
}

// ── fifth operator ────────────────────────────────────────────────────

#[test]
fn fo01_dayname_lane_11_zero_only_at_imix_and_eb() {
    let mut zero_count = 0;
    for &g in ALL_DAY_NAMES.iter() {
        let ord = <DayNameGlyph as GlyphAlphabet<6>>::ordinal(&g);
        let p11_active = active_lanes(ord).contains(&11);
        if !p11_active {
            zero_count += 1;
        }
        assert_eq!(p11_active, ord % 11 != 0);
    }
    assert_eq!(zero_count, 2);
}

#[test]
fn fo01_month_lane_11_zero_only_at_pop_and_keh() {
    let mut zero_ordinals = Vec::new();
    for &g in ALL_MONTHS.iter() {
        let ord = <MonthGlyph as GlyphAlphabet<6>>::ordinal(&g);
        if !active_lanes(ord).contains(&11) {
            zero_ordinals.push((ord, g));
        }
    }
    assert_eq!(zero_ordinals.len(), 2);
    assert_eq!(zero_ordinals[0].0, 0);
    assert_eq!(zero_ordinals[1].0, 11);
}

#[test]
fn fo01_navigation_glyphs_are_p11_active_outside_zeros() {
    for &g in ALL_DAY_NAMES.iter() {
        let ord = <DayNameGlyph as GlyphAlphabet<6>>::ordinal(&g);
        let role = <DayNameGlyph as GlyphAlphabet<6>>::semantic_role(&g);
        assert_eq!(role, SemanticRole::Navigation);
        if ord % 11 != 0 {
            assert!(active_lanes(ord).contains(&11));
        }
    }
}

#[test]
fn fo01_eclipse_glyph_is_boundary() {
    let g = IconographicFigure::EclipseGlyph;
    let ord = <IconographicFigure as GlyphAlphabet<6>>::ordinal(&g);
    let role = <IconographicFigure as GlyphAlphabet<6>>::semantic_role(&g);
    assert_eq!(role, SemanticRole::Boundary);
    assert_eq!(ord, 4);
    let shadow16 = (ord % 11) * (ord % 13);
    assert_eq!(shadow16, 16);
}

#[test]
fn fo02_boundary_lane_p13_at_iconographic_figures() {
    for &g in ALL_FIGURES.iter() {
        let ord = <IconographicFigure as GlyphAlphabet<6>>::ordinal(&g);
        let shadow16 = (ord % 11) * (ord % 13);
        assert_eq!(shadow16, ord * ord);
    }
}

#[test]
fn fo02_k_elim_level_at_p11_matches_integer_cumulative() {
    let layout = goddess_section_layout();
    let visual_cumulative = cumulative_totals(&layout);
    let mut integer_cumulative = Vec::new();
    let mut running = 0u64;
    for &iv in GODDESS_SECTION_INTERVALS.iter() {
        running += iv;
        integer_cumulative.push(running);
    }
    assert_eq!(visual_cumulative.len(), integer_cumulative.len());
    for (i, (&vc, &ic)) in visual_cumulative.iter().zip(integer_cumulative.iter()).enumerate() {
        let v_level = k_elim_level(vc, 11);
        let i_level = k_elim_level(ic, 11);
        assert_eq!(
            v_level, i_level,
            "FO02 K-Elim level divergence at page {}: visual_total={} level={}, integer_total={} level={}",
            i, vc, v_level, ic, i_level
        );
    }
}

#[test]
fn fo02_final_goddess_total_k_elim_level_p11_is_3() {
    let layout = goddess_section_layout();
    let final_total = *cumulative_totals(&layout).last().unwrap();
    assert_eq!(final_total, 1_448);
    assert_eq!(
        k_elim_level(final_total, 11),
        3,
        "Goddess total 1448 must sit at K-Elim Level 3 (long-cycle) at p=11"
    );
    assert!(final_total < 14_641);
    assert!(final_total >= 1_331);
}
