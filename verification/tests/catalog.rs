use dccms_atlas::generator_catalog::{
    build_catalog, carry_signature_classes, catalog_stats, level2_periods, near_canonical,
    same_carry_class,
};
use dccms_atlas::gini_stratification::{
    cram_address_density_per_carry_bit_signature, density_max_min_ratio, DensityRatio,
};
use dccms_atlas::goddess_extension::{
    GoddessExtensionGap, SourceMaterialStatus, GODDESS_EXTENDED_PAGES, H4_COVERED_PAGES,
    UNDECODED_GODDESS_PAGES,
};
use dccms_atlas::h5_level::k_elim_level;
use dccms_atlas::substrate::{carry_bits, pack_carry_bits, M_SAFE};

fn class_of<'a>(classes: &'a [(u8, Vec<u64>)], sig: u8) -> Option<&'a Vec<u64>> {
    classes.iter().find(|(s, _)| *s == sig).map(|(_, v)| v)
}

#[test]
fn catalog_builds_non_empty() {
    let cat = build_catalog(50_000);
    assert!(!cat.is_empty(), "Catalog must be non-empty");
}

#[test]
fn catalog_includes_canonical_heads() {
    let cat = build_catalog(200_000);
    let cycles: Vec<u64> = cat.iter().map(|e| e.cycle).collect();
    assert!(cycles.contains(&260), "Tzolk'in in catalog");
    assert!(cycles.contains(&365), "Haab in catalog");
    assert!(cycles.contains(&18_980), "CalendarRound in catalog");
    assert!(cycles.contains(&144_000), "Baktun in catalog");
}

#[test]
fn catalog_includes_venus() {
    let cat = build_catalog(10_000);
    let cycles: Vec<u64> = cat.iter().map(|e| e.cycle).collect();
    assert!(cycles.contains(&584), "Venus synodic in catalog");
}

#[test]
fn carry_sig_tzolkin_correct() {
    let cat = build_catalog(1_000);
    let tz = cat.iter().find(|e| e.cycle == 260).unwrap();
    assert_eq!(tz.carry_sig, 26);
    assert!(tz.nullified.contains(&2));
    assert!(tz.nullified.contains(&5));
    assert!(tz.nullified.contains(&13));
}

#[test]
fn catalog_tzolkin_hamming0_from_itself() {
    let cat = build_catalog(1_000);
    let tz = cat.iter().find(|e| e.cycle == 260).unwrap();
    assert_eq!(tz.dist_to_tzolkin, 0);
}

#[test]
fn carry_signature_classes_non_empty() {
    let cat = build_catalog(10_000);
    let classes = carry_signature_classes(&cat);
    assert!(!classes.is_empty());
    let tz_sig = pack_carry_bits(&carry_bits(260));
    assert!(class_of(&classes, tz_sig).is_some(), "Tzolk'in carry class must exist");
    assert!(class_of(&classes, tz_sig).unwrap().contains(&260), "Tzolk'in in its carry class");
    let cat50 = build_catalog(50_000);
    let classes50 = carry_signature_classes(&cat50);
    let cr_sig = pack_carry_bits(&carry_bits(18_980));
    assert_eq!(tz_sig, cr_sig, "Tzolk'in and CalRound have same carry class");
    assert!(class_of(&classes50, cr_sig).is_some(), "Calendar Round carry class must exist");
    let found_cr = cat50.iter().any(|e| e.cycle == 18_980);
    assert!(found_cr, "CalendarRound (18980) must appear in 50k catalog");
}

#[test]
fn catalog_stats_makes_sense() {
    let cat = build_catalog(50_000);
    let stats = catalog_stats(&cat);
    assert!(stats.total_entries > 0);
    assert!(stats.level2_count + stats.level3_plus_count == stats.total_entries);
    assert!(stats.distinct_carry_signatures <= stats.total_entries);
    assert!(
        stats.tzolkin_carry_class_size >= 2,
        "Tzolk'in carry class has at least Tzolk'in and CalRound"
    );
}

#[test]
fn level2_periods_all_below_threshold() {
    let cat = build_catalog(10_000);
    let l2 = level2_periods(&cat);
    for e in &l2 {
        assert!(
            e.cycle < 1331 || e.level_11 <= 2,
            "Level-2 cycle {} must be < 1331 or truly Level-2",
            e.cycle
        );
    }
}

#[test]
fn catalog_entry_fields_and_queries() {
    let cat = build_catalog(1_000);
    let cycles: Vec<u64> = cat.iter().map(|e| e.cycle).collect();
    let mut sorted = cycles.clone();
    sorted.sort();
    sorted.dedup();
    assert_eq!(cycles, sorted, "catalog is by strictly increasing cycle");
    let haab = cat.iter().find(|e| e.cycle == 365).unwrap();
    assert_eq!(haab.cram, [1, 2, 0, 1, 2, 1]);
    assert_eq!(haab.level_11, 2);
    assert!(haab.dkam_ok);
    assert_eq!(haab.dist_to_haab, 0);
    assert_eq!(haab.dist_to_tzolkin, 2);
    // Every Level-2 entry lies below 11³.
    for e in level2_periods(&cat) {
        assert!(e.cycle < 1331);
    }
    let same = same_carry_class(&cat, 260);
    assert!(same.iter().all(|e| e.carry_sig == 26));
    assert!(same.iter().any(|e| e.cycle == 260));
    let near = near_canonical(&cat, 0);
    assert!(near.iter().all(|e| e.dist_to_tzolkin == 0 || e.dist_to_haab == 0));
    assert!(near.iter().any(|e| e.cycle == 365));
}

#[test]
fn k_elim_levels_are_floor_logs() {
    assert_eq!(k_elim_level(0, 11), 0);
    assert_eq!(k_elim_level(10, 11), 0);
    assert_eq!(k_elim_level(11, 11), 1);
    assert_eq!(k_elim_level(1_330, 11), 2);
    assert_eq!(k_elim_level(1_331, 11), 3);
    assert_eq!(k_elim_level(1_448, 11), 3);
    assert_eq!(k_elim_level(14_641, 11), 4);
    assert_eq!(k_elim_level(u64::MAX, 2), 63);
}

#[test]
fn density_distribution_sums_to_m_safe() {
    let dist = cram_address_density_per_carry_bit_signature();
    let total: u64 = dist.iter().map(|&(_, c)| c).sum();
    assert_eq!(total, M_SAFE);
}

#[test]
fn signature_count_is_64() {
    let dist = cram_address_density_per_carry_bit_signature();
    assert_eq!(dist.len(), 64, "expected all 64 carry-bit signatures to appear, got {}", dist.len());
}

#[test]
fn empirical_ratio_documented_honestly() {
    let ratio = density_max_min_ratio();
    assert!(ratio.max_density > 0);
    assert!(ratio.min_density > 0);
    let exceeds = ratio.exceeds_vault_12_to_1();
    assert_eq!(ratio.max_density, 5760, "expected MAX = 5760, got {}", ratio.max_density);
    assert_eq!(ratio.min_density, 1, "expected MIN = 1 (only x = 0), got {}", ratio.min_density);
    assert!(exceeds, "expected ratio (5760:1) to exceed 12:1, but it doesn't");
    assert_eq!(ratio.ratio_num, 5760);
    assert_eq!(ratio.ratio_den, 1);
}

#[test]
fn euler_totient_check_for_max_density() {
    let expected_totient: u64 = 1 * 2 * 4 * 6 * 10 * 12;
    assert_eq!(expected_totient, 5760);
}

#[test]
fn density_ratio_threshold_is_strict() {
    let at = DensityRatio { max_density: 12, min_density: 1, ratio_num: 12, ratio_den: 1 };
    assert!(!at.exceeds_vault_12_to_1());
    let above = DensityRatio { max_density: 13, min_density: 1, ratio_num: 13, ratio_den: 1 };
    assert!(above.exceeds_vault_12_to_1());
    let dist = cram_address_density_per_carry_bit_signature();
    assert_eq!(dist[0], (0, 1));
    assert_eq!(dist[63], (63, 5760));
}

#[test]
fn h4_coverage_is_subset_of_extended() {
    for &p in H4_COVERED_PAGES.iter() {
        if p == 24 {
            continue;
        }
        assert!(
            GODDESS_EXTENDED_PAGES.contains(&p),
            "H4 page {} should be in GODDESS_EXTENDED_PAGES",
            p
        );
    }
}

#[test]
fn undecoded_pages_disjoint_from_h4() {
    for &p in UNDECODED_GODDESS_PAGES.iter() {
        assert!(!H4_COVERED_PAGES.contains(&p), "page {} is both un-decoded and H4-covered", p);
    }
}

#[test]
fn extended_range_is_exactly_13_through_23() {
    assert_eq!(&GODDESS_EXTENDED_PAGES, &[13u8, 14, 15, 16, 17, 18, 19, 20, 21, 22, 23]);
}

#[test]
fn gap_carries_pending_source_status() {
    let gap = GoddessExtensionGap::current();
    assert_eq!(gap.source_material_status, SourceMaterialStatus::Pending);
    assert_eq!(gap.undecoded_pages, vec![13u8, 14, 15]);
    assert!(gap.canonical_reference.contains("Barnhart"));
    assert_eq!(gap.h4_covered_pages, H4_COVERED_PAGES.to_vec());
    assert_eq!(gap.blank_bridge_page, 24);
}
