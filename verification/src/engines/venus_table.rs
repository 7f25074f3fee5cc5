//! The Venus table: the 584-day synodic cycle as `ℤ/8 × ℤ/73`, its four
//! stations, the 5-Venus / 8-year resonance and the Maya correction
//! schedule.

use vstd::prelude::*;
use vstd::arithmetic::div_mod::{lemma_mod_mod, lemma_mod_add_multiples_vanish, lemma_small_mod};
use crate::engines::lane::{Lane, MayaState, valid_state, pisano_search_fails};
use crate::engines::pisano::{
    PisanoError, fib, fibonacci_entry_point, pisano_period, is_pisano_period, is_entry_point,
};

verus! {

/// Venus synodic period.
pub const VENUS_SYNODIC: u64 = 584;
/// Solar (Haab) year.
pub const EARTH_YEAR: u64 = 365;
/// Venus–Earth synchronization period `lcm(584, 365)`.
pub const SYNC_PERIOD: u64 = 2_920;
/// Morning-star visibility.
pub const MORNING_STAR: u64 = 236;
/// Superior conjunction.
pub const SUPERIOR_CONJ: u64 = 90;
/// Evening-star visibility.
pub const EVENING_STAR: u64 = 250;
/// Inferior conjunction.
pub const INFERIOR_CONJ: u64 = 8;

/// The Venus engine.
pub struct VenusTable;

/// The four stations of the Venus synodic cycle.
#[derive(Clone, Copy, Debug, PartialEq, Eq, Hash, Structural)]
pub enum VenusStation {
    /// Days 0..236.
    MorningStar,
    /// Days 236..326.
    SuperiorConjunction,
    /// Days 326..576.
    EveningStar,
    /// Days 576..584.
    InferiorConjunction,
}

/// The octave lane `ℤ/8`.
pub open spec fn octave_lane_spec() -> Lane {
    Lane { name: "octave", modulus: 8, domain: "earth-year-phase" }
}

/// The Venus lane `ℤ/73`.
pub open spec fn venus_lane_spec() -> Lane {
    Lane { name: "venus", modulus: 73, domain: "venus-specific" }
}

/// The station of day `d` of the synodic cycle (taken modulo 584).
pub open spec fn station_of(day: nat) -> VenusStation {
    let d = day % 584;
    if d < 236 {
        VenusStation::MorningStar
    } else if d < 326 {
        VenusStation::SuperiorConjunction
    } else if d < 576 {
        VenusStation::EveningStar
    } else {
        VenusStation::InferiorConjunction
    }
}

/// The stations repeat every synodic cycle: day `d + 584` is in the
/// station of day `d`. Within one cycle the morning star holds days
/// 0..236, the superior conjunction 236..326, the evening star 326..576
/// and the inferior conjunction 576..584.
pub proof fn lemma_station_cycle(d: nat)
    ensures
        station_of(d + 584) == station_of(d),
        d < 236 ==> station_of(d) == VenusStation::MorningStar,
        236 <= d < 326 ==> station_of(d) == VenusStation::SuperiorConjunction,
        326 <= d < 576 ==> station_of(d) == VenusStation::EveningStar,
        576 <= d < 584 ==> station_of(d) == VenusStation::InferiorConjunction,
{
    lemma_mod_add_multiples_vanish(d as int, 584);
    if d < 584 {
        lemma_small_mod(d, 584);
    }
}

/// `v` Venus cycles span `e` solar years.
pub open spec fn venus_sync(v: int, e: int) -> bool {
    v * 584 == e * 365
}

/// The Maya Venus correction schedule.
pub open spec fn correction_spec() -> Seq<(u64, i64)> {
    seq![(61u64, -4i64), (122u64, -4i64), (183u64, -4i64), (305u64, -8i64)]
}

/// Among `1 ≤ v, e ≤ 20`, the first synchronization in lexicographic
/// order is 5 Venus cycles to 8 years.
pub proof fn lemma_first_sync(v: int, e: int)
    requires
        1 <= v <= 20,
        1 <= e <= 20,
        venus_sync(v, e),
    ensures
        v > 5 || (v == 5 && e >= 8),
{
}

impl VenusTable {
    /// The octave lane `ℤ/8`.
    pub fn octave_lane() -> (l: Lane)
        ensures
            l == octave_lane_spec(),
    {
        Lane { name: "octave", modulus: 8, domain: "earth-year-phase" }
    }

    /// The Venus lane `ℤ/73`.
    pub fn venus_lane() -> (l: Lane)
        ensures
            l == venus_lane_spec(),
    {
        Lane { name: "venus", modulus: 73, domain: "venus-specific" }
    }

    /// The state of a day of the synodic cycle over `[octave, venus]`.
    pub fn venus_state(day_in_cycle: u64) -> (s: MayaState)
        ensures
            s.res() == seq![day_in_cycle % 8, day_in_cycle % 73],
            s.lns() == seq![octave_lane_spec(), venus_lane_spec()],
    {
        let d = day_in_cycle % VENUS_SYNODIC;
        proof {
            lemma_mod_mod(day_in_cycle as int, 8, 73);
            lemma_mod_mod(day_in_cycle as int, 73, 8);
        }
        let residues = vec![d % 8, d % 73];
        let lanes = vec![Self::octave_lane(), Self::venus_lane()];
        assert(valid_state(residues@, lanes@));
        MayaState::from_valid(residues, lanes)
    }

    /// The station the day falls in.
    pub fn current_station(day_in_cycle: u64) -> (st: VenusStation)
        ensures
            st == station_of(day_in_cycle as nat),
            day_in_cycle % 584 < 236 ==> st == VenusStation::MorningStar,
            236 <= day_in_cycle % 584 < 326 ==> st == VenusStation::SuperiorConjunction,
            326 <= day_in_cycle % 584 < 576 ==> st == VenusStation::EveningStar,
            576 <= day_in_cycle % 584 ==> st == VenusStation::InferiorConjunction,
    {
        let d = day_in_cycle % VENUS_SYNODIC;
        if d < MORNING_STAR {
            VenusStation::MorningStar
        } else if d < MORNING_STAR + SUPERIOR_CONJ {
            VenusStation::SuperiorConjunction
        } else if d < MORNING_STAR + SUPERIOR_CONJ + EVENING_STAR {
            VenusStation::EveningStar
        } else {
            VenusStation::InferiorConjunction
        }
    }

    /// The first `(v, e, days)` with `v · 584 == e · 365` searching
    /// `1 ≤ v, e ≤ 20` in lexicographic order: `(5, 8, 2920)`.
    pub fn find_sync() -> (r: (u64, u64, u64))
        ensures
            r == (5u64, 8u64, 2920u64),
            venus_sync(r.0 as int, r.1 as int),
            r.2 == r.0 * 584,
    {
        let mut v: u64 = 1;
        while v <= 20
            invariant
                1 <= v <= 21,
                forall|a: int, b: int| 1 <= a < v && 1 <= b <= 20 ==> !venus_sync(a, b),
            decreases 21 - v,
        {
            let mut e: u64 = 1;
            while e <= 20
                invariant
                    1 <= v <= 20,
                    1 <= e <= 21,
                    forall|a: int, b: int| 1 <= a < v && 1 <= b <= 20 ==> !venus_sync(a, b),
                    forall|b: int| 1 <= b < e ==> !venus_sync(v as int, b),
                decreases 21 - e,
            {
                if v * VENUS_SYNODIC == e * EARTH_YEAR {
                    proof {
                        if v != 5 || e != 8 {
                            assert(venus_sync(5, 8));
                            assert(false);
                        }
                    }
                    return (v, e, v * VENUS_SYNODIC);
                }
                e = e + 1;
            }
            v = v + 1;
        }
        assert(venus_sync(5, 8));
        (0, 0, 0)
    }

    /// The correction schedule: `(after N Venus cycles, day adjustment)`.
    pub fn correction_schedule() -> (v: Vec<(u64, i64)>)
        ensures
            v@ == correction_spec(),
    {
        let v = vec![(61u64, -4i64), (122u64, -4i64), (183u64, -4i64), (305u64, -8i64)];
        assert(v@ =~= correction_spec());
        v
    }

    /// `(π(8), π(73), α(73), π(584))`, the first failing search giving
    /// the error.
    pub fn pisano_analysis() -> (r: Result<(u64, u64, u64, u64), PisanoError>)
        ensures
            r matches Ok(t) ==> is_pisano_period(8, t.0 as nat) && is_pisano_period(73, t.1 as nat)
                && is_entry_point(73, t.2 as nat) && is_pisano_period(584, t.3 as nat),
            r matches Err(e) ==> (e == PisanoError::ModulusTooLarge(8) && pisano_search_fails(8))
                || (e == PisanoError::ModulusTooLarge(73) && (pisano_search_fails(73) || forall|
                k: nat,
            | 1 <= k <= 438 ==> #[trigger] fib(k) % 73 != 0)) || (e == PisanoError::ModulusTooLarge(
                584,
            ) && pisano_search_fails(584)),
    {
        let pi_8 = pisano_period(8)?;
        let pi_73 = pisano_period(73)?;
        let alpha_73 = fibonacci_entry_point(73)?;
        let pi_584 = pisano_period(VENUS_SYNODIC)?;
        Ok((pi_8, pi_73, alpha_73, pi_584))
    }
}

} // verus!
