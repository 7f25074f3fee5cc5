use dccms_atlas::atlas::{head_progression, test_candidate_head, AddressSpace, AtlasEntry, ConfigAtlas};
use dccms_atlas::events::{CodexEvent, CodexEventKind, EventSet};
use dccms_atlas::substrate::carry_bits;

/// Cycle lengths of the four calendar heads used as a fixture: Tzolk'in,
/// Haab, Venus synodic period and the Long Count Katun.
const FOUR_CYCLES: [u64; 4] = [260, 365, 584, 7_200];

fn head_bits(day: u64, cycles: &[u64]) -> Vec<[u8; 6]> {
    cycles.iter().map(|&c| carry_bits(day % c)).collect()
}

fn event_head_bits(events: &EventSet) -> Vec<Vec<[u8; 6]>> {
    events.events.iter().map(|e| head_bits(e.days_since_epoch, &FOUR_CYCLES)).collect()
}

fn four_head_addresses(events: &EventSet) -> Vec<u64> {
    events
        .events
        .iter()
        .map(|e| ConfigAtlas::compute_address(&head_bits(e.days_since_epoch, &FOUR_CYCLES)))
        .collect()
}

// ── atlas ─────────────────────────────────────────────────────────────

#[test]
fn empty_atlas_has_zero_gini() {
    let events = EventSet::new();
    let atlas = ConfigAtlas::build_four_head(&four_head_addresses(&events));
    let (num, _) = atlas.gini_exact();
    assert_eq!(num, 0);
    assert_eq!(atlas.gini_basis_points(), 0);
}

#[test]
fn uniform_distribution_has_zero_gini() {
    let mut entries = Vec::new();
    for addr in [0u64, 1, 2, 3, 4] {
        entries.push(AtlasEntry { address: addr, event_indices: vec![addr as usize] });
    }
    let atlas = ConfigAtlas { address_space: AddressSpace::new(1), entries, total_events: 5 };
    let (num, _) = atlas.gini_exact();
    assert_eq!(num, 0);
    assert_eq!(atlas.gini_basis_points(), 0);
}

#[test]
fn collision_in_carry_signature_is_observable() {
    let mut events = EventSet::new();
    for d in [1u64, 7, 11, 13, 17] {
        events.add(CodexEvent::new(d, CodexEventKind::Custom("test"), ""));
    }
    let addresses: Vec<u64> = events
        .events
        .iter()
        .map(|e| ConfigAtlas::compute_address(&[carry_bits(e.days_since_epoch % 260)]))
        .collect();
    let atlas = ConfigAtlas::build_from_addresses(&addresses, 1);
    let occs = atlas.occupancies();
    let max_occ = *occs.iter().max().unwrap_or(&0);
    assert!(max_occ >= 1);
    // Days 1, 7, 11, 13 and 17 are all odd, so the lane-2 carry is set for
    // every one of them; 7 and 17 share every carry bit.
    assert!(max_occ >= 2);
}

#[test]
fn atlas_builds_for_canonical_corpus() {
    let events = EventSet::canonical_corpus(0, 50_000);
    let atlas = ConfigAtlas::build_four_head(&four_head_addresses(&events));
    assert_eq!(atlas.total_events, events.len());
    assert!(atlas.occupied_addresses() > 0);
    assert!(atlas.occupied_addresses() <= events.len());
}

#[test]
fn head_progression_produces_four_levels() {
    let events = EventSet::canonical_corpus(0, 20_000);
    let prog = head_progression(&event_head_bits(&events));
    assert_eq!(prog.len(), 4);
    for (k, atlas) in &prog {
        assert!(*k >= 1 && *k <= 4);
        assert_eq!(atlas.address_space.head_count, *k);
        assert_eq!(atlas.total_events, events.len());
    }
}

#[test]
fn occupancies_sorted_ascending() {
    let events = EventSet::canonical_corpus(0, 30_000);
    let atlas = ConfigAtlas::build_four_head(&four_head_addresses(&events));
    let occs = atlas.occupancies();
    for w in occs.windows(2) {
        assert!(w[0] <= w[1]);
    }
    assert_eq!(occs.iter().sum::<usize>(), events.len());
}

#[test]
fn gini_in_valid_basis_points_range() {
    let events = EventSet::canonical_corpus(0, 100_000);
    let atlas = ConfigAtlas::build_four_head(&four_head_addresses(&events));
    let g = atlas.gini_basis_points();
    assert!(g >= 0);
    assert!(g <= 10_000, "Gini bp out of range: {}", g);
}

#[test]
fn address_space_size_scales_with_head_count() {
    let a1 = AddressSpace::new(1);
    let a4 = AddressSpace::new(4);
    assert_eq!(a1.total_bits(), 6);
    assert_eq!(a4.total_bits(), 24);
    assert!(a4.max_address() > a1.max_address());
    assert_eq!(a1.max_address(), 63);
    assert_eq!(AddressSpace::new(11).max_address(), u64::MAX);
}

#[test]
fn top_addresses_sorted_by_occupancy() {
    let events = EventSet::canonical_corpus(0, 100_000);
    let atlas = ConfigAtlas::build_four_head(&four_head_addresses(&events));
    let top = atlas.top_addresses(5);
    assert_eq!(top.len(), 5.min(atlas.occupied_addresses()));
    for window in top.windows(2) {
        assert!(window[0].occupancy() >= window[1].occupancy());
    }
    let max = atlas.occupancies().last().copied().unwrap();
    assert_eq!(top[0].occupancy(), max);
}

#[test]
fn gini_of_skewed_occupancies_is_exact() {
    // Occupancies [1, 3]: G = ((2·1 − 2 − 1)·1 + (2·2 − 2 − 1)·3) / (2 · 4) = 2/8.
    let entries = vec![
        AtlasEntry { address: 9, event_indices: vec![0, 1, 2] },
        AtlasEntry { address: 4, event_indices: vec![3] },
    ];
    let atlas = ConfigAtlas { address_space: AddressSpace::new(1), entries, total_events: 4 };
    assert_eq!(atlas.gini_exact(), (2, 8));
    assert_eq!(atlas.gini_basis_points(), 2_500);
    assert_eq!(atlas.occupancies(), vec![1, 3]);
}

#[test]
fn compute_address_packs_six_bits_per_head() {
    let bits = [[1u8, 0, 0, 0, 0, 0], [0, 1, 0, 0, 0, 1]];
    assert_eq!(ConfigAtlas::compute_address(&bits), 1 + (1 << 7) + (1 << 11));
    assert_eq!(ConfigAtlas::compute_address(&[]), 0);
}

#[test]
fn build_groups_events_by_address() {
    let atlas = ConfigAtlas::build_from_addresses(&[5, 7, 5, 5, 9], 2);
    assert_eq!(atlas.occupied_addresses(), 3);
    assert_eq!(atlas.total_events, 5);
    let five = atlas.entries.iter().find(|e| e.address == 5).unwrap();
    assert_eq!(five.event_indices, vec![0, 2, 3]);
    let hist = atlas.occupancy_histogram();
    assert_eq!(hist.get(&1), Some(&2));
    assert_eq!(hist.get(&3), Some(&1));
    assert_eq!(atlas.mean_occupancy_bp(), 16_666);
}

// ── events ────────────────────────────────────────────────────────────

#[test]
fn tzolkin_completions_have_zero_residue_mod_260_components() {
    let set = EventSet::tzolkin_completions(0, 2600);
    assert_eq!(set.len(), 10);
    for event in &set.events {
        assert_eq!(event.address[0], 0);
        assert_eq!(event.address[2], 0);
        assert_eq!(event.address[5], 0);
    }
}

#[test]
fn haab_completions_have_zero_residue_mod_5() {
    let set = EventSet::haab_completions(0, 3650);
    assert_eq!(set.len(), 10);
    for event in &set.events {
        assert_eq!(event.address[2], 0);
    }
}

#[test]
fn venus_synodic_events_have_four_per_cycle() {
    let set = EventSet::venus_synodic_events(0, 583);
    assert_eq!(set.len(), 4);
}

#[test]
fn venus_synodic_events_include_phase_at_cycle_start() {
    let set = EventSet::venus_synodic_events(0, 584);
    assert_eq!(set.len(), 5);
}

#[test]
fn council_819_events_align_with_factorization() {
    let set = EventSet::council_819_stations(0, 8190);
    assert_eq!(set.len(), 10);
    for event in &set.events {
        assert_eq!(event.address[1], 0);
        assert_eq!(event.address[3], 0);
        assert_eq!(event.address[5], 0);
    }
}

#[test]
fn canonical_corpus_grows_with_range() {
    let small = EventSet::canonical_corpus(0, 10_000);
    let large = EventSet::canonical_corpus(0, 100_000);
    assert!(large.len() > small.len());
}

#[test]
fn corpus_distinct_addresses_under_four_head() {
    let corpus = EventSet::canonical_corpus(0, 50_000);
    let distinct = corpus.distinct_addresses(&four_head_addresses(&corpus));
    assert!(distinct > 1);
    assert!(distinct <= corpus.len());
}

#[test]
fn katun_endings_have_address_pattern() {
    let set = EventSet::katun_endings(0, 72_000);
    assert_eq!(set.len(), 10);
    for event in &set.events {
        assert_eq!(event.address[0], 0);
        assert_eq!(event.address[1], 0);
        assert_eq!(event.address[2], 0);
    }
}

#[test]
fn calendar_round_events_align() {
    let set = EventSet::calendar_round_renewals(0, 189_800);
    assert_eq!(set.len(), 10);
    for event in &set.events {
        assert_eq!(event.address[0], 0);
        assert_eq!(event.address[2], 0);
        assert_eq!(event.address[5], 0);
    }
}

#[test]
fn completions_start_after_the_range_start() {
    let set = EventSet::tzolkin_completions(260, 780);
    let days: Vec<u64> = set.events.iter().map(|e| e.days_since_epoch).collect();
    assert_eq!(days, vec![520, 780]);
    assert!(EventSet::tzolkin_completions(0, 259).is_empty());
}

#[test]
fn venus_phase_events_fall_on_phase_offsets() {
    let set = EventSet::venus_synodic_events(0, 583);
    let days: Vec<u64> = set.events.iter().map(|e| e.days_since_epoch).collect();
    assert_eq!(days, vec![0, 236, 326, 576]);
    assert_eq!(set.events[0].kind, CodexEventKind::VenusHeliacalRising);
}

#[test]
fn filter_and_group_by_kind() {
    let corpus = EventSet::canonical_corpus(0, 3_000);
    let tz = corpus.filter_by_kind(&CodexEventKind::TzolkinCycleComplete);
    assert_eq!(tz.len(), 11);
    assert!(tz.iter().all(|e| e.days_since_epoch % 260 == 0));
    let kinds = corpus.distinct_kinds();
    assert!(kinds.contains(&CodexEventKind::HaabYearComplete));
    assert!(!kinds.contains(&CodexEventKind::BaktunEnding));
}

#[test]
fn group_by_address_maps_each_address_to_its_events() {
    let mut set = EventSet::new();
    for d in [1u64, 2, 3] {
        set.add(CodexEvent::new(d, CodexEventKind::RitualDate, "r"));
    }
    let g = set.group_by_four_head_address(&[8, 9, 8]);
    assert_eq!(g.len(), 2);
    assert_eq!(g[&8], vec![0, 2]);
    assert_eq!(g[&9], vec![1]);
    let h = set.occupancy_histogram(&[8, 9, 8]);
    assert_eq!(h.get(&2), Some(&1));
    assert_eq!(h.get(&1), Some(&1));
}

#[test]
fn candidate_head_test_returns_report() {
    let events = EventSet::canonical_corpus(0, 50_000);
    // Saturn 11²: a 121-day candidate head.
    let extended: Vec<u64> = events
        .events
        .iter()
        .map(|e| {
            let mut bits = head_bits(e.days_since_epoch, &FOUR_CYCLES);
            bits.push(carry_bits(e.days_since_epoch % 121));
            ConfigAtlas::compute_address(&bits)
        })
        .collect();
    let report = test_candidate_head(&four_head_addresses(&events), &extended, 1000);
    assert!(report.baseline_gini_bp >= 0);
    assert!(report.extended_gini_bp >= 0);
}

#[test]
fn candidate_head_gain_matches_the_two_atlases() {
    let events = EventSet::canonical_corpus(0, 20_000);
    let four = four_head_addresses(&events);
    let report = test_candidate_head(&four, &four, 0);
    assert_eq!(report.gain_bp, 0);
    assert!(report.admissible);
    let base = ConfigAtlas::build_four_head(&four);
    assert_eq!(report.baseline_gini_bp, base.gini_basis_points());
    let none = test_candidate_head(&[], &[], 1);
    assert_eq!(none.gain_bp, 0);
    assert!(!none.admissible);
}

#[test]
fn atlas_from_events_addresses_each_day() {
    let mut events = EventSet::new();
    for d in [1u64, 7, 11, 13, 17] {
        events.add(CodexEvent::new(d, CodexEventKind::Custom("test"), ""));
    }
    let atlas = ConfigAtlas::build(&events, &[260]);
    let addresses: Vec<u64> = events
        .events
        .iter()
        .map(|e| ConfigAtlas::compute_address(&[carry_bits(e.days_since_epoch % 260)]))
        .collect();
    let same = ConfigAtlas::build_from_addresses(&addresses, 1);
    assert_eq!(atlas.occupancies(), same.occupancies());
    assert_eq!(atlas.total_events, 5);
    assert_eq!(ConfigAtlas::address_of_day(17, &[260]), addresses[4]);
    // Sixty-four addresses in one head, the occupied ones excluded.
    assert_eq!(atlas.dark_strata_count(), 64 - atlas.entries.len() as u64);
    let five = ConfigAtlas::build_from_addresses(&[1, 2, 3, 4, 5], 1);
    assert_eq!(five.dark_strata_count(), 59);
    let none = ConfigAtlas::build_from_addresses(&[], 1);
    assert_eq!(none.dark_strata_count(), 64);
}
