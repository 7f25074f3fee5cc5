//! The unified fabric: Tzolk'in, Long Count, Venus and eclipse positions
//! of one absolute day, and the report of which engines stand at a
//! structural boundary that day.

use vstd::prelude::*;
use crate::engines::dresden_eclipse::{DresdenEclipse, PERIOD, near_station};
use crate::engines::lane::MayaState;
use crate::engines::long_count::{LongCount, PeriodEnding, lc_from_days, endings_spec};
use crate::engines::tzolkin::{Tzolkin, tzolkin_residues, tone_lane_spec, sign_lane_spec};
use crate::engines::venus_table::{VENUS_SYNODIC, MORNING_STAR, SUPERIOR_CONJ, EVENING_STAR};

verus! {

/// Tolerance in days of the eclipse-window flag.
pub const ECLIPSE_WINDOW_TOLERANCE: u64 = 3;

/// All engines at one absolute day.
#[derive(Clone, Debug, PartialEq)]
pub struct MayaFabric {
    pub day: u64,
    pub tzolkin: MayaState,
    pub long_count: LongCount,
    pub venus_day: u64,
    pub eclipse_day: u64,
}

/// Which engines stand at a boundary on one day.
#[derive(Clone, Debug, PartialEq, Eq)]
pub struct FabricAlignment {
    pub day: u64,
    /// Both Tzolk'in lanes at residue 0.
    pub tzolkin_origin: bool,
    /// The Venus day is a station boundary (0, 236, 326 or 576).
    pub venus_station_boundary: bool,
    /// Within the tolerance of an eclipse warning station.
    pub eclipse_window: bool,
    /// Long Count tier endings.
    pub long_count_endings: Vec<PeriodEnding>,
    /// Count of the three flags plus the number of tier endings.
    pub alignment_score: u32,
}

/// `f` is the fabric of absolute day `d`.
pub open spec fn fabric_at(f: MayaFabric, d: nat) -> bool {
    &&& f.day == d
    &&& f.tzolkin.res() == tzolkin_residues(d)
    &&& f.tzolkin.lns() == seq![tone_lane_spec(), sign_lane_spec()]
    &&& f.long_count == lc_from_days(d)
    &&& f.venus_day == d % 584
    &&& f.eclipse_day == d % 11_960
}

/// A Venus day that starts one of the four stations.
pub open spec fn venus_boundary(v: u64) -> bool {
    v == 0 || v == 236 || v == 326 || v == 576
}

/// The alignment report owed for fabric `f`.
pub open spec fn alignment_spec(f: MayaFabric, a: FabricAlignment) -> bool {
    let origin = f.tzolkin.res()[0] == 0 && f.tzolkin.res()[1] == 0;
    let venus = venus_boundary(f.venus_day);
    let eclipse = near_station((f.eclipse_day % 11_960) as nat, 3);
    let endings = endings_spec(f.long_count);
    &&& a.day == f.day
    &&& a.tzolkin_origin == origin
    &&& a.venus_station_boundary == venus
    &&& a.eclipse_window == eclipse
    &&& a.long_count_endings@ == endings
    &&& a.alignment_score == (if origin { 1int } else { 0 }) + (if venus { 1int } else { 0 }) + (
    if eclipse { 1int } else { 0 }) + endings.len()
}

/// Two fabrics of the same day agree on every engine position.
pub proof fn lemma_fabric_determined_by_day(f: MayaFabric, g: MayaFabric, d: nat)
    requires
        fabric_at(f, d),
        fabric_at(g, d),
    ensures
        f.day == g.day,
        f.tzolkin.res() == g.tzolkin.res(),
        f.tzolkin.lns() == g.tzolkin.lns(),
        f.long_count == g.long_count,
        f.venus_day == g.venus_day,
        f.eclipse_day == g.eclipse_day,
{
}

impl MayaFabric {
    /// The fabric at the Long Count origin, day 0.
    pub fn origin() -> (f: MayaFabric)
        ensures
            fabric_at(f, 0),
    {
        Self::at_day(0)
    }

    /// All engines at absolute day `day`.
    pub fn at_day(day: u64) -> (f: MayaFabric)
        ensures
            fabric_at(f, day as nat),
    {
        MayaFabric {
            day,
            tzolkin: Tzolkin::from_day(day),
            long_count: LongCount::from_days(day),
            venus_day: day % VENUS_SYNODIC,
            eclipse_day: day % PERIOD,
        }
    }

    /// The fabric `n` days later.
    pub fn advance(&self, n: u64) -> (f: MayaFabric)
        requires
            self.day + n <= u64::MAX,
        ensures
            fabric_at(f, (self.day + n) as nat),
    {
        Self::at_day(self.day + n)
    }

    /// The alignment report of this day.
    pub fn alignment_report(&self) -> (a: FabricAlignment)
        requires
            self.tzolkin.res().len() >= 2,
        ensures
            alignment_spec(*self, a),
    {
        let res = self.tzolkin.residues();
        let tzolkin_origin = res[0] == 0 && res[1] == 0;
        let v = self.venus_day;
        let venus_station_boundary = v == 0 || v == MORNING_STAR || v == MORNING_STAR
            + SUPERIOR_CONJ || v == MORNING_STAR + SUPERIOR_CONJ + EVENING_STAR;
        let eclipse_window = DresdenEclipse::is_eclipse_window(
            self.eclipse_day,
            ECLIPSE_WINDOW_TOLERANCE,
        );
        let long_count_endings = self.long_count.period_endings();
        assert(long_count_endings.len() <= 4);
        let alignment_score = (if tzolkin_origin { 1u32 } else { 0u32 }) + (
        if venus_station_boundary { 1u32 } else { 0u32 }) + (if eclipse_window { 1u32 } else { 0u32 })
            + (long_count_endings.len() as u32);
        FabricAlignment {
            day: self.day,
            tzolkin_origin,
            venus_station_boundary,
            eclipse_window,
            long_count_endings,
            alignment_score,
        }
    }
}

} // verus!
