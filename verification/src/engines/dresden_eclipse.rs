//! The Dresden eclipse table: an 11,960-day period of warning stations
//! spaced by alternating 177- and 148-day eclipse half-years.

use vstd::prelude::*;
use crate::engines::lane::{Lane, MayaState, advanced};
use crate::engines::tzolkin::{tzolkin_lanes, tone_lane_spec, sign_lane_spec};

verus! {

/// The eclipse-table period, 46 Tzolk'in.
pub const PERIOD: u64 = 11_960;
/// Long eclipse half-year: six lunar months.
pub const HALF_ECLIPSE_LONG: u64 = 177;
/// Short eclipse half-year: five lunar months.
pub const HALF_ECLIPSE_SHORT: u64 = 148;

/// The eclipse-table engine.
pub struct DresdenEclipse;

/// Station `k` of the table: starting at 0 and stepping alternately by
/// 177 and 148 days.
pub open spec fn station(k: nat) -> nat {
    325 * (k / 2) + 177 * (k % 2)
}

/// The warning stations strictly inside one period, in order.
pub open spec fn stations_spec() -> Seq<u64> {
    Seq::new(74, |k: int| station(k as nat) as u64)
}

/// Distance in days from `d` to station `k`.
pub open spec fn station_distance(d: nat, k: int) -> nat {
    if d >= station(k as nat) {
        (d - station(k as nat)) as nat
    } else {
        (station(k as nat) - d) as nat
    }
}

/// `d` lies within `tol` days of a warning station.
pub open spec fn near_station(d: nat, tol: nat) -> bool {
    exists|k: int| 0 <= k < 74 && #[trigger] station_distance(d, k) <= tol
}

/// The commensuration rows `(name, modulus, PERIOD mod modulus == 0)`.
pub open spec fn commensuration_spec() -> Seq<(&'static str, u64, bool)> {
    seq![
        ("Tzolk'in", 260u64, true),
        ("Sacred 13", 13u64, true),
        ("Uinal", 20u64, true),
        ("Haab (365)", 365u64, false),
        ("Venus synodic", 584u64, false),
    ]
}

/// Consecutive stations step by 177 then 148.
pub proof fn lemma_station_step(k: nat)
    ensures
        station(k + 1) == station(k) + (if k % 2 == 0 { 177nat } else { 148nat }),
{
}

/// Exactly the first 74 stations fall inside one period.
pub proof fn lemma_stations_inside_period(k: nat)
    ensures
        station(k) < PERIOD <==> k < 74,
{
}

/// The Tzolk'in position is unchanged by one eclipse period.
pub proof fn lemma_tzolkin_invariant_across_period(r: Seq<u64>, l: Seq<Lane>)
    requires
        tzolkin_lanes(l),
        r.len() == 2,
        r[0] < 13,
        r[1] < 20,
    ensures
        advanced(r, l, PERIOD) == r,
{
    assert(l[0].modulus == 13 && l[1].modulus == 20);
    assert(PERIOD % 13 == 0 && PERIOD % 20 == 0);
    let a = advanced(r, l, PERIOD);
    assert(a[0] == r[0]) by {
        assert((r[0] + PERIOD % l[0].modulus) % (l[0].modulus as int) == r[0] % 13);
    }
    assert(a[1] == r[1]) by {
        assert((r[1] + PERIOD % l[1].modulus) % (l[1].modulus as int) == r[1] % 20);
    }
    assert(a =~= r);
}

impl DresdenEclipse {
    /// The warning stations inside one period: 0, then alternately
    /// +177 and +148 while below `PERIOD`.
    pub fn warning_stations() -> (v: Vec<u64>)
        ensures
            v@ == stations_spec(),
    {
        let mut stations: Vec<u64> = vec![0u64];
        let mut day: u64 = 0;
        let mut use_short = false;
        let mut k: u64 = 0;
        loop
            invariant_except_break
                k < 74,
                day == station(k as nat),
                use_short == (k % 2 == 1),
                stations.len() == k + 1,
                forall|j: int| 0 <= j <= k ==> #[trigger] stations@[j] == station(j as nat),
            ensures
                stations@ == stations_spec(),
            decreases 74 - k,
        {
            let interval = if use_short {
                HALF_ECLIPSE_SHORT
            } else {
                HALF_ECLIPSE_LONG
            };
            proof {
                lemma_station_step(k as nat);
                lemma_stations_inside_period((k + 1) as nat);
            }
            day = day + interval;
            if day >= PERIOD {
                assert(stations@ =~= stations_spec());
                break;
            }
            stations.push(day);
            use_short = !use_short;
            k = k + 1;
        }
        stations
    }

    /// Whether `day_in_period` (taken modulo the period) lies within
    /// `tolerance` days of a warning station.
    pub fn is_eclipse_window(day_in_period: u64, tolerance: u64) -> (b: bool)
        ensures
            b == near_station((day_in_period % PERIOD) as nat, tolerance as nat),
    {
        let d = day_in_period % PERIOD;
        let stations = Self::warning_stations();
        let mut i: usize = 0;
        while i < stations.len()
            invariant
                stations@ == stations_spec(),
                d == day_in_period % PERIOD,
                0 <= i <= stations.len(),
                forall|j: int| 0 <= j < i ==> !(#[trigger] station_distance(d as nat, j) <= tolerance),
            decreases stations.len() - i,
        {
            let s = stations[i];
            assert(s == station(i as nat));
            let diff = if d >= s {
                d - s
            } else {
                s - d
            };
            assert(diff == station_distance(d as nat, i as int));
            if diff <= tolerance {
                assert(near_station(d as nat, tolerance as nat));
                return true;
            }
            i = i + 1;
        }
        assert(!near_station(d as nat, tolerance as nat));
        false
    }

    /// The next eclipse window after `reference_day`: one period later.
    pub fn next_eclipse_from(reference_day: u64) -> (d: u64)
        requires
            reference_day + PERIOD <= u64::MAX,
        ensures
            d == reference_day + PERIOD,
    {
        reference_day + PERIOD
    }

    /// The Tzolk'in position one eclipse period on: the same position,
    /// since 13 and 20 both divide the period.
    pub fn tzolkin_at_eclipse(reference_tzolkin: &MayaState) -> (s: MayaState)
        ensures
            s.res() == reference_tzolkin.res(),
            s.lns() == reference_tzolkin.lns(),
    {
        reference_tzolkin.clone()
    }

    /// The commensuration table: for each examined cycle, its name, its
    /// modulus and whether it divides the period.
    pub fn verify_commensuration() -> (v: Vec<(&'static str, u64, bool)>)
        ensures
            v@ == commensuration_spec(),
            forall|i: int| 0 <= i < v.len() ==> (#[trigger] v@[i]).2 == (PERIOD % v@[i].1 == 0),
    {
        let checks: [(&'static str, u64); 5] = [
            ("Tzolk'in", 260),
            ("Sacred 13", 13),
            ("Uinal", 20),
            ("Haab (365)", 365),
            ("Venus synodic", 584),
        ];
        let mut out: Vec<(&'static str, u64, bool)> = Vec::new();
        let mut i: usize = 0;
        while i < 5
            invariant
                0 <= i <= 5,
                checks@ == seq![
                    ("Tzolk'in", 260u64),
                    ("Sacred 13", 13u64),
                    ("Uinal", 20u64),
                    ("Haab (365)", 365u64),
                    ("Venus synodic", 584u64),
                ],
                out.len() == i,
                forall|j: int|
                    0 <= j < i ==> #[trigger] out@[j] == (checks@[j].0, checks@[j].1, PERIOD
                        % checks@[j].1 == 0),
            decreases 5 - i,
        {
            let (name, m) = checks[i];
            out.push((name, m, PERIOD % m == 0));
            i = i + 1;
        }
        assert(out@ =~= commensuration_spec());
        out
    }
}

} // verus!
