use dccms_atlas::engines::dresden_eclipse::{self, DresdenEclipse};
use dccms_atlas::engines::fabric::MayaFabric;
use dccms_atlas::engines::lane::{Lane, MayaState};
use dccms_atlas::engines::long_count::{LongCount, PeriodEnding};
use dccms_atlas::engines::tzolkin::{Tzolkin, TzolkinError};
use dccms_atlas::engines::venus_table::{self, VenusStation, VenusTable};
use dccms_atlas::engines::vigesimal::{Vigesimal, VigesimalError};
use dccms_atlas::h4_visual::alphabet::GlyphAlphabet;
use dccms_atlas::h4_visual::dayname::{DayNameGlyph, ALL_DAY_NAMES};
use dccms_atlas::substrate;
use std::collections::HashSet;

#[test]
fn encode_rejects_out_of_range() {
    assert_eq!(Vigesimal::encode(20).err(), Some(VigesimalError::OutOfRange(20)));
    assert_eq!(Vigesimal::encode(255).err(), Some(VigesimalError::OutOfRange(255)));
}

#[test]
fn round_trip_all_values() {
    for v in 0u64..20 {
        let state = Vigesimal::encode(v).unwrap();
        let decoded = Vigesimal::decode(&state).unwrap();
        assert_eq!(v, decoded, "round-trip failed for {}", v);
    }
}

#[test]
fn encode_lane_structure() {
    let state = Vigesimal::encode(7).unwrap();
    assert_eq!(state.lane_count(), 2);
    assert_eq!(state.lanes()[0], Vigesimal::quad_lane());
    assert_eq!(state.lanes()[1], Vigesimal::pent_lane());
    assert_eq!(state.residues(), &[7 % 4, 7 % 5]);
    assert_eq!(state.residues(), &[3u64, 2]);
}

#[test]
fn add_matches_modular_arithmetic() {
    for a in 0u64..20 {
        for b in 0u64..20 {
            let sa = Vigesimal::encode(a).unwrap();
            let sb = Vigesimal::encode(b).unwrap();
            let sum = Vigesimal::add(&sa, &sb).unwrap();
            let decoded = Vigesimal::decode(&sum).unwrap();
            assert_eq!(decoded, (a + b) % 20, "{} + {} mod 20", a, b);
        }
    }
}

#[test]
fn mul_matches_modular_arithmetic() {
    for a in 0u64..20 {
        for b in 0u64..20 {
            let sa = Vigesimal::encode(a).unwrap();
            let sb = Vigesimal::encode(b).unwrap();
            let prod = Vigesimal::mul(&sa, &sb).unwrap();
            let decoded = Vigesimal::decode(&prod).unwrap();
            assert_eq!(decoded, (a * b) % 20, "{} · {} mod 20", a, b);
        }
    }
}

#[test]
fn fibonacci_orbit_length_is_pisano_20() {
    let orbit = Vigesimal::fibonacci_orbit().unwrap();
    assert_eq!(orbit.len(), 60);
}

#[test]
fn fibonacci_orbit_first_three_values() {
    let orbit = Vigesimal::fibonacci_orbit().unwrap();
    assert_eq!(Vigesimal::decode(&orbit[0]).unwrap(), 0);
    assert_eq!(Vigesimal::decode(&orbit[1]).unwrap(), 1);
    assert_eq!(Vigesimal::decode(&orbit[2]).unwrap(), 1);
    assert_eq!(Vigesimal::decode(&orbit[3]).unwrap(), 2);
    assert_eq!(Vigesimal::decode(&orbit[7]).unwrap(), 13);
}

#[test]
fn vigesimal_validate_rejects_wrong_lane_structure() {
    let wrong_lanes = vec![
        Lane { name: "foo", modulus: 4, domain: "" },
        Lane { name: "bar", modulus: 5, domain: "" },
    ];
    let state = MayaState::new(vec![0u64, 0], wrong_lanes).unwrap();
    assert_eq!(Vigesimal::validate(&state), Err(VigesimalError::MalformedState));
}

#[test]
fn cram_lane_coverage_observation() {
    assert_eq!(Vigesimal::quad_lane().modulus, 4);
    assert_eq!(Vigesimal::pent_lane().modulus, 5);
    let core = substrate::MAYA_COPRIME_CORE;
    assert!(core.contains(&4));
    assert!(core.contains(&5));
}

#[test]
fn new_validates_tone_range() {
    assert_eq!(Tzolkin::new(0, 0).err(), Some(TzolkinError::ToneOutOfRange(0)));
    assert_eq!(Tzolkin::new(14, 0).err(), Some(TzolkinError::ToneOutOfRange(14)));
}

#[test]
fn new_validates_glyph_range() {
    assert_eq!(Tzolkin::new(1, 20).err(), Some(TzolkinError::GlyphOutOfRange(20)));
    assert_eq!(Tzolkin::new(1, 255).err(), Some(TzolkinError::GlyphOutOfRange(255)));
}

#[test]
fn from_day_round_trip_full_cycle() {
    let mut seen: HashSet<(u64, u64)> = HashSet::new();
    for day in 0u64..260 {
        let state = Tzolkin::from_day(day);
        let pair = (state.residues()[0], state.residues()[1]);
        assert!(seen.insert(pair), "duplicate residue pair at day {}", day);
        let recovered = Tzolkin::to_day_number(&state).unwrap();
        assert_eq!(day, recovered, "round-trip failed for day {}", day);
    }
    assert_eq!(seen.len(), 260);
}

#[test]
fn from_glyph_bridges_to_dayname() {
    let state = Tzolkin::from_glyph(1, DayNameGlyph::Imix).unwrap();
    assert_eq!(state.residues(), &[0u64, 0]);
    assert_eq!(Tzolkin::to_day_number(&state).unwrap(), 0);
    let state = Tzolkin::from_glyph(1, DayNameGlyph::Eb).unwrap();
    assert_eq!(state.residues(), &[0u64, 11]);
    let recovered = Tzolkin::to_day_number(&state).unwrap();
    assert_eq!(recovered, 91);
    assert_eq!(<DayNameGlyph as GlyphAlphabet<6>>::ordinal(&DayNameGlyph::Eb), 11);
}

#[test]
fn display_uses_modern_mayan_orthography() {
    let state = Tzolkin::from_day(0);
    assert_eq!(Tzolkin::display(&state).unwrap(), "1 Imix");
    let state = Tzolkin::from_day(1);
    assert_eq!(Tzolkin::display(&state).unwrap(), "2 IkPrime");
    let state = Tzolkin::from_day(19);
    assert_eq!(Tzolkin::display(&state).unwrap(), "7 Ajaw");
}

#[test]
fn fibonacci_tone_pattern_length_28() {
    let seq = Tzolkin::fibonacci_tone_pattern().unwrap();
    assert_eq!(seq.len(), 28);
    assert_eq!(seq[0], 0);
    assert_eq!(seq[1], 1);
    assert_eq!(seq[7], 0);
}

#[test]
fn tzolkin_validate_rejects_wrong_lane_structure() {
    let wrong_lanes = vec![
        Lane { name: "foo", modulus: 13, domain: "" },
        Lane { name: "bar", modulus: 20, domain: "" },
    ];
    let state = MayaState::new(vec![0u64, 0], wrong_lanes).unwrap();
    assert_eq!(Tzolkin::validate(&state), Err(TzolkinError::MalformedState));
}

#[test]
fn cycle_has_exactly_260_unique_states() {
    let mut all_states = HashSet::new();
    for day in 0u64..260 {
        let state = Tzolkin::from_day(day);
        all_states.insert((state.residues()[0], state.residues()[1]));
    }
    assert_eq!(all_states.len(), 260);
    let day_260 = Tzolkin::from_day(260);
    let day_0 = Tzolkin::from_day(0);
    assert!(day_260.same_position(&day_0));
}

#[test]
fn cram_address_relationship_at_day_0() {
    let _state = Tzolkin::from_day(0);
    assert_eq!(substrate::cram_address(0), [0u64; 6]);
    assert_eq!(substrate::cram_address(1), [1u64, 1, 1, 1, 1, 1]);
}

#[test]
fn full_glyph_alphabet_bridge() {
    let mut seen = HashSet::new();
    for &glyph in ALL_DAY_NAMES.iter() {
        let state = Tzolkin::from_glyph(1, glyph).unwrap();
        assert!(seen.insert(state.residues()[1]));
    }
    assert_eq!(seen.len(), 20);
}

const VAULT_TEST_DAYS: [u64; 12] =
    [0, 1, 19, 20, 359, 360, 7199, 7200, 143999, 144_000, 1_872_000, 13 * 144_000];

#[test]
fn round_trip_for_vault_test_dates() {
    for &d in &VAULT_TEST_DAYS {
        let lc = LongCount::from_days(d);
        assert_eq!(lc.to_days(), d, "round-trip failed for {}", d);
    }
}

#[test]
fn advance_one_day_from_origin() {
    let zero = LongCount::new(0, 0, 0, 0, 0);
    assert_eq!(zero.advance_one_day(), LongCount::new(0, 0, 0, 0, 1));
}

#[test]
fn advance_one_day_carries_through_every_tier() {
    let last = LongCount::new(0, 19, 19, 17, 19);
    assert_eq!(last.advance_one_day(), LongCount::new(1, 0, 0, 0, 0));
}

#[test]
fn advance_twenty_promotes_kin_to_uinal() {
    let zero = LongCount::new(0, 0, 0, 0, 0);
    assert_eq!(zero.advance(20), LongCount::new(0, 0, 0, 1, 0));
}

#[test]
fn advance_three_sixty_promotes_to_tun() {
    let zero = LongCount::new(0, 0, 0, 0, 0);
    assert_eq!(zero.advance(360), LongCount::new(0, 0, 1, 0, 0));
}

#[test]
fn advance_seventy_two_hundred_promotes_to_katun() {
    let zero = LongCount::new(0, 0, 0, 0, 0);
    assert_eq!(zero.advance(7_200), LongCount::new(0, 1, 0, 0, 0));
}

#[test]
fn advance_one_forty_four_thousand_promotes_to_baktun() {
    let zero = LongCount::new(0, 0, 0, 0, 0);
    assert_eq!(zero.advance(144_000), LongCount::new(1, 0, 0, 0, 0));
}

#[test]
fn thirteen_baktun_round_trip() {
    let lc = LongCount::from_days(1_872_000);
    assert_eq!(lc, LongCount::new(13, 0, 0, 0, 0));
    assert_eq!(lc.to_days(), 1_872_000);
}

#[test]
fn period_endings_at_baktun_end() {
    let zero = LongCount::new(0, 0, 0, 0, 0);
    let endings = zero.period_endings();
    assert!(endings.contains(&PeriodEnding::UinalEnd));
    assert!(endings.contains(&PeriodEnding::TunEnd));
    assert!(endings.contains(&PeriodEnding::KatunEnd));
    assert!(endings.contains(&PeriodEnding::BaktunEnd));
    assert_eq!(endings.len(), 4);
}

#[test]
fn period_endings_only_uinal_when_kin_zero() {
    let lc = LongCount::new(0, 0, 0, 3, 0);
    assert_eq!(lc.period_endings(), vec![PeriodEnding::UinalEnd]);
}

#[test]
fn period_endings_empty_mid_uinal() {
    let lc = LongCount::new(0, 0, 0, 0, 5);
    assert!(lc.period_endings().is_empty());
}

#[test]
fn cyclic_state_has_four_lanes_with_anomalous_uinal() {
    let lc = LongCount::new(0, 1, 2, 3, 4);
    let state = lc.cyclic_state();
    assert_eq!(state.lane_count(), 4);
    let moduli: Vec<u64> = state.lanes().iter().map(|l| l.modulus).collect();
    assert_eq!(moduli, vec![20u64, 18, 20, 20]);
    let residues: Vec<u64> = state.residues().to_vec();
    assert_eq!(residues, vec![4u64, 3, 2, 1]);
}

#[test]
fn display_format() {
    let lc = LongCount::new(13, 0, 0, 0, 0);
    assert_eq!(lc.display_string(), "13.0.0.0.0");
}

#[test]
fn period_is_46_tzolkins() {
    assert_eq!(dresden_eclipse::PERIOD, 46 * 260);
    assert_eq!(dresden_eclipse::PERIOD, 11_960);
}

#[test]
fn half_eclipse_constants_match_goddess_section_intervals() {
    assert_eq!(dresden_eclipse::HALF_ECLIPSE_SHORT, substrate::ECLIPSE_NEAR);
    assert_eq!(dresden_eclipse::HALF_ECLIPSE_LONG, substrate::ECLIPSE_FAR);
}

#[test]
fn warning_stations_start_at_zero_and_alternate() {
    let stations = DresdenEclipse::warning_stations();
    assert_eq!(stations[0], 0);
    assert_eq!(stations[1], 177);
    assert_eq!(stations[2], 177 + 148);
    assert_eq!(stations[3], 177 + 148 + 177);
    assert_eq!(stations[4], 177 + 148 + 177 + 148);
    for &s in &stations {
        assert!(s < dresden_eclipse::PERIOD);
    }
}

#[test]
fn is_eclipse_window_zero_day_zero_tolerance() {
    assert!(DresdenEclipse::is_eclipse_window(0, 0));
    assert!(!DresdenEclipse::is_eclipse_window(1, 0));
    assert!(DresdenEclipse::is_eclipse_window(1, 3));
}

#[test]
fn next_eclipse_advances_by_one_period() {
    assert_eq!(DresdenEclipse::next_eclipse_from(0), 11_960);
    assert_eq!(DresdenEclipse::next_eclipse_from(100), 100 + 11_960);
}

#[test]
fn tzolkin_invariant_across_eclipse_period() {
    let start = Tzolkin::from_day(91);
    let advanced = start.advance(dresden_eclipse::PERIOD);
    assert!(start.same_position(&advanced));
    let same = DresdenEclipse::tzolkin_at_eclipse(&start);
    assert!(start.same_position(&same));
}

#[test]
fn verify_commensuration_honest_about_haab_and_venus() {
    let table = DresdenEclipse::verify_commensuration();
    for &(name, m, divides) in &table {
        match name {
            "Tzolk'in" | "Sacred 13" | "Uinal" => {
                assert!(divides, "{} ({}) should divide PERIOD", name, m);
            }
            "Haab (365)" => {
                assert!(!divides);
                assert_eq!(dresden_eclipse::PERIOD % m, 280);
            }
            "Venus synodic" => {
                assert!(!divides);
                assert_eq!(dresden_eclipse::PERIOD % m, 280);
            }
            _ => panic!("unexpected commensuration row: {}", name),
        }
    }
}

#[test]
fn warning_stations_alternation_correct_count() {
    let stations = DresdenEclipse::warning_stations();
    assert!(stations.len() >= 70 && stations.len() <= 80, "got {}", stations.len());
    assert_eq!(stations.len(), 74);
}

#[test]
fn four_stations_sum_to_synodic_period() {
    assert_eq!(
        venus_table::MORNING_STAR
            + venus_table::SUPERIOR_CONJ
            + venus_table::EVENING_STAR
            + venus_table::INFERIOR_CONJ,
        venus_table::VENUS_SYNODIC
    );
    assert_eq!(venus_table::VENUS_SYNODIC, substrate::VENUS_SYNODIC);
}

#[test]
fn find_sync_is_5_venus_8_solar() {
    let (v, e, days) = VenusTable::find_sync();
    assert_eq!(v, 5);
    assert_eq!(e, 8);
    assert_eq!(days, 2_920);
    assert_eq!(days, substrate::VENUS_HAAB_LCM);
}

#[test]
fn venus_state_at_origin_has_both_lanes_zero() {
    let state = VenusTable::venus_state(0);
    assert_eq!(state.lane_count(), 2);
    assert_eq!(state.residues(), &[0u64, 0]);
}

#[test]
fn current_station_transitions() {
    assert_eq!(VenusTable::current_station(0), VenusStation::MorningStar);
    assert_eq!(VenusTable::current_station(235), VenusStation::MorningStar);
    assert_eq!(VenusTable::current_station(236), VenusStation::SuperiorConjunction);
    assert_eq!(VenusTable::current_station(325), VenusStation::SuperiorConjunction);
    assert_eq!(VenusTable::current_station(326), VenusStation::EveningStar);
    assert_eq!(VenusTable::current_station(575), VenusStation::EveningStar);
    assert_eq!(VenusTable::current_station(576), VenusStation::InferiorConjunction);
    assert_eq!(VenusTable::current_station(583), VenusStation::InferiorConjunction);
    assert_eq!(VenusTable::current_station(584), VenusStation::MorningStar);
}

#[test]
fn every_day_in_cycle_yields_some_station() {
    for d in 0..venus_table::VENUS_SYNODIC {
        let _ = VenusTable::current_station(d);
    }
}

#[test]
fn correction_schedule_matches_vault() {
    let s = VenusTable::correction_schedule();
    assert_eq!(s, vec![(61, -4), (122, -4), (183, -4), (305, -8)]);
}

#[test]
fn pisano_analysis_well_defined() {
    let (pi_8, pi_73, alpha_73, pi_584) = VenusTable::pisano_analysis().unwrap();
    assert_eq!(pi_8, 12);
    assert_eq!(pi_73, 148);
    assert!(alpha_73 > 0);
    assert_eq!(pi_73 % alpha_73, 0);
    fn gcd(a: u64, b: u64) -> u64 {
        if b == 0 { a } else { gcd(b, a % b) }
    }
    let expected = pi_8 * pi_73 / gcd(pi_8, pi_73);
    assert_eq!(pi_584, expected);
}

#[test]
fn venus_state_residues_match_cram_for_first_six_lanes() {
    let d = 100u64;
    let venus = VenusTable::venus_state(d);
    let cram = substrate::cram_address(d);
    assert_eq!(venus.residues()[0], d % 8);
    assert_eq!(venus.residues()[1], d % 73);
    assert_eq!(cram[0], d % 2);
}

#[test]
fn sync_period_factorization() {
    assert_eq!(venus_table::SYNC_PERIOD, 8 * venus_table::EARTH_YEAR);
    assert_eq!(venus_table::SYNC_PERIOD, 5 * venus_table::VENUS_SYNODIC);
    assert_eq!(venus_table::SYNC_PERIOD, 2_920);
}

#[test]
fn origin_equals_at_day_zero() {
    assert_eq!(MayaFabric::origin(), MayaFabric::at_day(0));
}

#[test]
fn at_day_zero_has_all_subfields_at_origin() {
    let f = MayaFabric::origin();
    assert_eq!(f.day, 0);
    assert_eq!(f.long_count, LongCount::new(0, 0, 0, 0, 0));
    assert_eq!(f.tzolkin.residues(), &[0u64, 0]);
    assert_eq!(f.venus_day, 0);
    assert_eq!(f.eclipse_day, 0);
}

#[test]
fn fabric_advance_zero_is_identity() {
    let a = MayaFabric::at_day(123);
    let b = a.advance(0);
    assert_eq!(a, b);
}

#[test]
fn fabric_advance_additive() {
    let a = MayaFabric::at_day(100);
    let b = a.advance(50);
    let c = MayaFabric::at_day(150);
    assert_eq!(b, c);
}

#[test]
fn thirteen_baktun_fabric() {
    let f = MayaFabric::at_day(1_872_000);
    assert_eq!(f.long_count.baktun, 13);
    assert_eq!(f.long_count.katun, 0);
    assert_eq!(f.long_count.tun, 0);
    assert_eq!(f.long_count.uinal, 0);
    assert_eq!(f.long_count.kin, 0);
}

#[test]
fn alignment_report_at_day_zero_is_strong() {
    let f = MayaFabric::origin();
    let a = f.alignment_report();
    assert!(a.tzolkin_origin);
    assert!(a.venus_station_boundary);
    assert!(a.eclipse_window);
    assert_eq!(a.long_count_endings.len(), 4);
    assert_eq!(a.alignment_score, 7);
}

#[test]
fn alignment_report_at_mid_cycle_is_weaker() {
    let f = MayaFabric::at_day(200);
    let a = f.alignment_report();
    assert!(!a.tzolkin_origin);
    assert!(!a.venus_station_boundary);
    assert!(!a.eclipse_window);
    assert_eq!(a.long_count_endings, vec![PeriodEnding::UinalEnd]);
    assert_eq!(a.alignment_score, 1);
}
