use dccms_atlas::events::EventSet;
use dccms_atlas::h5_katun::{
    classify_katun_position, compute_katun_depth_report, tun_index, KatunZone, DEPTH_THRESHOLD,
    KATUN_DAYS, SHADOW_FREE_TUNS, TUNS_PER_KATUN, TUN_DAYS,
};
use dccms_atlas::SHADOW_PRIME;

/// Cycle of the Long Count head: the Katun.
const LONG_COUNT_CYCLE: u64 = 7_200;

#[test]
fn katun_partition_constants() {
    assert_eq!(KATUN_DAYS, 7_200);
    assert_eq!(TUN_DAYS, 360);
    assert_eq!(TUNS_PER_KATUN, 20);
    assert_eq!(DEPTH_THRESHOLD, 1_331);
    let sf_frac = DEPTH_THRESHOLD * 10_000 / KATUN_DAYS;
    assert!(sf_frac > 1_800 && sf_frac < 1_900);
}

#[test]
fn katun_zone_classification() {
    assert_eq!(classify_katun_position(0), KatunZone::ShadowFree);
    assert_eq!(classify_katun_position(1330), KatunZone::ShadowFree);
    assert_eq!(classify_katun_position(1331), KatunZone::DepthActive);
    assert_eq!(classify_katun_position(7199), KatunZone::DepthActive);
}

#[test]
fn tun_index_correct() {
    assert_eq!(tun_index(0), 0);
    assert_eq!(tun_index(359), 0);
    assert_eq!(tun_index(360), 1);
    assert_eq!(tun_index(1330), 3);
    assert_eq!(tun_index(1331), 3);
    assert_eq!(tun_index(1440), 4);
}

#[test]
fn shadow_free_tuns_count() {
    assert_eq!(SHADOW_FREE_TUNS, 3);
    assert!(3 * TUN_DAYS < DEPTH_THRESHOLD);
    assert!(4 * TUN_DAYS > DEPTH_THRESHOLD);
}

#[test]
fn shadow_free_zone_kappa3_always_zero() {
    let p3 = SHADOW_PRIME.pow(3);
    for pos in 0u64..1331 {
        assert_eq!((pos / p3) % SHADOW_PRIME, 0, "position {}", pos);
    }
}

#[test]
fn depth_zone_kappa3_range() {
    let p3 = SHADOW_PRIME.pow(3);
    let kappas: std::collections::HashSet<u64> =
        (1331u64..7200).map(|pos| (pos / p3) % SHADOW_PRIME).collect();
    assert!(!kappas.contains(&0));
    assert!(kappas.contains(&1));
    assert!(kappas.contains(&5));
    assert!(!kappas.contains(&6));
}

#[test]
fn katun_depth_report_runs() {
    let events = EventSet::canonical_corpus(0, 100_000);
    let report = compute_katun_depth_report(&events, LONG_COUNT_CYCLE);
    assert!(report.total_events > 0);
    assert_eq!(report.shadow_free_events + report.depth_active_events, report.total_events);
}

#[test]
fn shadow_free_prediction_holds() {
    let events = EventSet::canonical_corpus(0, 200_000);
    let report = compute_katun_depth_report(&events, LONG_COUNT_CYCLE);
    assert_eq!(report.shadow_free_dist.kappa3_zero_fraction_bp(), 10_000);
}

#[test]
fn depth_zone_has_nonzero_kappa3() {
    let events = EventSet::canonical_corpus(0, 200_000);
    let report = compute_katun_depth_report(&events, LONG_COUNT_CYCLE);
    if report.depth_active_events > 0 {
        let k3_zero = report.depth_dist.kappa3_zero_fraction_bp();
        assert!(k3_zero < 9_000, "got {} bp", k3_zero);
    }
    assert!(report.prediction_confirmed);
}

#[test]
fn tun_distribution_has_20_tuns() {
    let events = EventSet::canonical_corpus(0, 50_000);
    let report = compute_katun_depth_report(&events, LONG_COUNT_CYCLE);
    assert_eq!(report.tun_dist.tun_counts.len(), 20);
    assert_eq!(report.tun_dist.tun_shadow_free.len(), 20);
    assert!(report.tun_dist.tun_shadow_free[0]);
    assert!(report.tun_dist.tun_shadow_free[1]);
    assert!(report.tun_dist.tun_shadow_free[2]);
    assert!(!report.tun_dist.tun_shadow_free[4]);
    assert_eq!(report.tun_dist.tun_counts.iter().sum::<u64>(), report.total_events);
}

#[test]
fn depth_histogram_of_chosen_days() {
    let mut events = EventSet::new();
    for d in [0u64, 1_000, 1_331, 2_662, 3_000, 7_200 + 1_331] {
        events.add(dccms_atlas::events::CodexEvent::new(
            d,
            dccms_atlas::events::CodexEventKind::RitualDate,
            "",
        ));
    }
    let r = compute_katun_depth_report(&events, LONG_COUNT_CYCLE);
    assert_eq!(r.shadow_free_events, 2);
    assert_eq!(r.depth_active_events, 4);
    assert_eq!(r.shadow_free_fraction_bp, 3_333);
    assert_eq!(r.depth_dist.histogram, vec![0, 2, 2, 0, 0, 0, 0, 0, 0, 0, 0]);
    // Bins 1..=5 hold [2, 2, 0, 0, 0]: even share 4/5 = 0, largest deviation 2/4.
    assert_eq!(r.depth_dist.deviation_from_predicted_bp, 5_000);
    assert_eq!(r.shadow_free_dist.deviation_from_predicted_bp, 0);
    assert_eq!(r.tun_dist.tun_counts[3], 2);
    assert_eq!(r.tun_dist.tun_kappa3_zero_bp[0], 10_000);
    assert_eq!(r.tun_dist.tun_kappa3_zero_bp[3], 0);
}
