use dccms_atlas::adelic_index::ArchimedeanWitness;
use dccms_atlas::extended_goddess::{
    decode_extended_section, placeholder_extended_specs, GlyphKind, GlyphSpec, PageRegister,
};
use dccms_atlas::substrate::cram_address;

#[test]
fn empty_input_yields_typed_empty_response() {
    let r = decode_extended_section(&[]);
    assert!(r.empty);
    assert_eq!(r.numeral_sum, 0);
    assert_eq!(r.cumulative_cram, [0u64; 6]);
    assert!(r.pages_covered.is_empty());
}

#[test]
fn placeholder_specs_have_correct_shape() {
    let specs = placeholder_extended_specs();
    assert_eq!(specs.len(), 9);
    let pages: std::collections::BTreeSet<u8> = specs.iter().map(|g| g.page).collect();
    assert_eq!(pages.into_iter().collect::<Vec<_>>(), vec![13u8, 14, 15]);
    for s in &specs {
        assert!(matches!(s.kind, GlyphKind::Blank));
    }
}

#[test]
fn numerical_glyphs_accumulate() {
    let specs = vec![
        GlyphSpec { page: 14, register: PageRegister::A, position: 0, kind: GlyphKind::Numeral(13) },
        GlyphSpec { page: 14, register: PageRegister::A, position: 1, kind: GlyphKind::Numeral(8) },
    ];
    let r = decode_extended_section(&specs);
    assert_eq!(r.numeral_sum, 21);
    assert_eq!(r.cumulative_cram, cram_address(21));
    assert!(!r.empty);
}

#[test]
fn specs_sort_by_page_then_register_then_position() {
    let specs = vec![
        GlyphSpec { page: 15, register: PageRegister::A, position: 0, kind: GlyphKind::Blank },
        GlyphSpec { page: 13, register: PageRegister::C, position: 0, kind: GlyphKind::Blank },
        GlyphSpec { page: 13, register: PageRegister::A, position: 0, kind: GlyphKind::Blank },
        GlyphSpec { page: 14, register: PageRegister::B, position: 2, kind: GlyphKind::Blank },
        GlyphSpec { page: 14, register: PageRegister::B, position: 1, kind: GlyphKind::Blank },
    ];
    let r = decode_extended_section(&specs);
    assert_eq!(r.specs_sorted[0].page, 13);
    assert_eq!(r.specs_sorted[0].register, PageRegister::A);
    assert_eq!(r.specs_sorted[1].page, 13);
    assert_eq!(r.specs_sorted[1].register, PageRegister::C);
    assert_eq!(r.specs_sorted[3].position, 2);
}

#[test]
fn pages_covered_dedups_and_sorts() {
    let specs = vec![
        GlyphSpec { page: 13, register: PageRegister::A, position: 0, kind: GlyphKind::Blank },
        GlyphSpec { page: 13, register: PageRegister::B, position: 0, kind: GlyphKind::Blank },
        GlyphSpec { page: 15, register: PageRegister::A, position: 0, kind: GlyphKind::Blank },
    ];
    let r = decode_extended_section(&specs);
    assert_eq!(r.pages_covered, vec![13u8, 15]);
}

#[test]
fn sort_is_stable_and_numerals_follow_sorted_order() {
    let specs = vec![
        GlyphSpec { page: 15, register: PageRegister::D, position: 3, kind: GlyphKind::Numeral(7) },
        GlyphSpec { page: 13, register: PageRegister::B, position: 1, kind: GlyphKind::NamedFigure("a") },
        GlyphSpec { page: 13, register: PageRegister::B, position: 1, kind: GlyphKind::NamedFigure("b") },
        GlyphSpec { page: 14, register: PageRegister::A, position: 0, kind: GlyphKind::Numeral(19) },
    ];
    let r = decode_extended_section(&specs);
    assert_eq!(r.specs_sorted[0].kind, GlyphKind::NamedFigure("a"));
    assert_eq!(r.specs_sorted[1].kind, GlyphKind::NamedFigure("b"));
    assert_eq!(r.numerals, vec![19, 7]);
    assert_eq!(r.numeral_sum, 26);
    assert_eq!(r.cumulative_cram, [0, 2, 1, 5, 4, 0]);
    assert_eq!(r.pages_covered, vec![13u8, 14, 15]);
    let p = placeholder_extended_specs();
    assert_eq!(p[4], GlyphSpec { page: 14, register: PageRegister::B, position: 0, kind: GlyphKind::Blank });
}

#[test]
fn archimedean_witness_carries_position() {
    let w = ArchimedeanWitness::from_days(1000);
    assert_eq!(w.days_since_epoch, 1000);
    assert_eq!(w.ecliptic_arcseconds, 0);
    let w2 = w.with_ecliptic(108_000, -5);
    assert_eq!(w2.days_since_epoch, 1000);
    assert_eq!(w2.ecliptic_arcseconds, 108_000);
    assert_eq!(w2.ecliptic_latitude_arcseconds_biased, -5);
}
