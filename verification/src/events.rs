//! Codex events: dated records of what the codex tracks (Venus phases,
//! cycle completions, stations), each carrying its Safe Basis address,
//! and generators of the canonical event corpus over a day range.

use vstd::prelude::*;
use crate::substrate::{cram_address, cram_spec};
use crate::text::{concat, decimal_string, decimal_text, owned, str_equal};
use crate::atlas::{ConfigAtlas, AtlasEntry, groups_addresses, histogram_spec, indices_with};
use crate::engines::venus_table::{VenusStation, station_of};
use vstd::arithmetic::div_mod::{
    lemma_fundamental_div_mod, lemma_mod_add_multiples_vanish, lemma_mod_multiples_basic,
    lemma_mod_multiples_vanish, lemma_small_mod,
};
use std::collections::HashMap;

verus! {

/// The kind of event recorded in the codex.
#[derive(Clone, Copy, Debug)]
pub enum CodexEventKind {
    /// Venus heliacal rising (start of the morning-star phase).
    VenusHeliacalRising,
    /// Venus inferior conjunction.
    VenusInferiorConjunction,
    /// Venus superior conjunction.
    VenusSuperiorConjunction,
    /// Venus evening-star first visibility.
    VenusEveningFirstVisibility,
    /// Lunar eclipse prediction.
    LunarEclipsePrediction,
    /// Solar eclipse prediction.
    SolarEclipsePrediction,
    /// Tzolk'in cycle completion.
    TzolkinCycleComplete,
    /// Haab year completion.
    HaabYearComplete,
    /// Calendar Round completion.
    CalendarRoundComplete,
    /// 819-day station.
    PlanetaryCouncilStation,
    /// Katun ending.
    KatunEnding,
    /// Baktun ending.
    BaktunEnding,
    /// Mars heliacal event.
    MarsHeliacalEvent,
    /// Ritual date of the almanac sections.
    RitualDate,
    /// Custom event with an annotation.
    Custom(&'static str),
}

/// Two kinds are the same kind: the same variant, and for custom kinds
/// the same annotation.
pub open spec fn same_kind(a: CodexEventKind, b: CodexEventKind) -> bool {
    match (a, b) {
        (CodexEventKind::Custom(x), CodexEventKind::Custom(y)) => x@ == y@,
        (CodexEventKind::Custom(_), _) => false,
        (_, CodexEventKind::Custom(_)) => false,
        _ => a == b,
    }
}

impl CodexEventKind {
    /// Short label of the kind; a custom kind's label is its annotation.
    pub open spec fn label_spec(self) -> &'static str {
        match self {
            CodexEventKind::VenusHeliacalRising => "VenusHelRise",
            CodexEventKind::VenusInferiorConjunction => "VenusInfConj",
            CodexEventKind::VenusSuperiorConjunction => "VenusSupConj",
            CodexEventKind::VenusEveningFirstVisibility => "VenusEvFirst",
            CodexEventKind::LunarEclipsePrediction => "LunarEclipse",
            CodexEventKind::SolarEclipsePrediction => "SolarEclipse",
            CodexEventKind::TzolkinCycleComplete => "TzolkinCycle",
            CodexEventKind::HaabYearComplete => "HaabYear",
            CodexEventKind::CalendarRoundComplete => "CalendarRound",
            CodexEventKind::PlanetaryCouncilStation => "Council819",
            CodexEventKind::KatunEnding => "Katun",
            CodexEventKind::BaktunEnding => "Baktun",
            CodexEventKind::MarsHeliacalEvent => "MarsHelEv",
            CodexEventKind::RitualDate => "Ritual",
            CodexEventKind::Custom(s) => s,
        }
    }

    /// Short label for logging.
    pub fn label(&self) -> (s: &'static str)
        ensures
            s == self.label_spec(),
    {
        match self {
            CodexEventKind::VenusHeliacalRising => "VenusHelRise",
            CodexEventKind::VenusInferiorConjunction => "VenusInfConj",
            CodexEventKind::VenusSuperiorConjunction => "VenusSupConj",
            CodexEventKind::VenusEveningFirstVisibility => "VenusEvFirst",
            CodexEventKind::LunarEclipsePrediction => "LunarEclipse",
            CodexEventKind::SolarEclipsePrediction => "SolarEclipse",
            CodexEventKind::TzolkinCycleComplete => "TzolkinCycle",
            CodexEventKind::HaabYearComplete => "HaabYear",
            CodexEventKind::CalendarRoundComplete => "CalendarRound",
            CodexEventKind::PlanetaryCouncilStation => "Council819",
            CodexEventKind::KatunEnding => "Katun",
            CodexEventKind::BaktunEnding => "Baktun",
            CodexEventKind::MarsHeliacalEvent => "MarsHelEv",
            CodexEventKind::RitualDate => "Ritual",
            CodexEventKind::Custom(s) => s,
        }
    }

    /// Kind identity, as `same_kind` states it.
    pub fn same(&self, other: &CodexEventKind) -> (r: bool)
        ensures
            r == same_kind(*self, *other),
    {
        match (self, other) {
            (CodexEventKind::Custom(x), CodexEventKind::Custom(y)) => str_equal(x, y),
            (CodexEventKind::VenusHeliacalRising, CodexEventKind::VenusHeliacalRising) => true,
            (CodexEventKind::VenusInferiorConjunction, CodexEventKind::VenusInferiorConjunction) => true,
            (CodexEventKind::VenusSuperiorConjunction, CodexEventKind::VenusSuperiorConjunction) => true,
            (
                CodexEventKind::VenusEveningFirstVisibility,
                CodexEventKind::VenusEveningFirstVisibility,
            ) => true,
            (CodexEventKind::LunarEclipsePrediction, CodexEventKind::LunarEclipsePrediction) => true,
            (CodexEventKind::SolarEclipsePrediction, CodexEventKind::SolarEclipsePrediction) => true,
            (CodexEventKind::TzolkinCycleComplete, CodexEventKind::TzolkinCycleComplete) => true,
            (CodexEventKind::HaabYearComplete, CodexEventKind::HaabYearComplete) => true,
            (CodexEventKind::CalendarRoundComplete, CodexEventKind::CalendarRoundComplete) => true,
            (CodexEventKind::PlanetaryCouncilStation, CodexEventKind::PlanetaryCouncilStation) => true,
            (CodexEventKind::KatunEnding, CodexEventKind::KatunEnding) => true,
            (CodexEventKind::BaktunEnding, CodexEventKind::BaktunEnding) => true,
            (CodexEventKind::MarsHeliacalEvent, CodexEventKind::MarsHeliacalEvent) => true,
            (CodexEventKind::RitualDate, CodexEventKind::RitualDate) => true,
            _ => false,
        }
    }
}

impl PartialEq for CodexEventKind {
    fn eq(&self, other: &CodexEventKind) -> (r: bool) {
        self.same(other)
    }
}

impl vstd::std_specs::cmp::PartialEqSpecImpl for CodexEventKind {
    open spec fn obeys_eq_spec() -> bool {
        true
    }

    open spec fn eq_spec(&self, other: &CodexEventKind) -> bool {
        same_kind(*self, *other)
    }
}

/// A single codex event.
#[derive(Clone, Debug)]
pub struct CodexEvent {
    /// Days since the Long Count epoch.
    pub days_since_epoch: u64,
    /// What kind of event this is.
    pub kind: CodexEventKind,
    /// The Safe Basis residue address of the day.
    pub address: [u64; 6],
    /// Notes or source citation.
    pub note: String,
}

/// `e` is the event of day `d`, kind `k`, note `n`.
pub open spec fn event_is(e: CodexEvent, d: nat, k: CodexEventKind, n: Seq<char>) -> bool {
    &&& e.days_since_epoch == d
    &&& e.kind == k
    &&& e.address@ == cram_spec(d as u64)
    &&& e.note@ == n
}

impl CodexEvent {
    /// The event of day `days_since_epoch`, with its residue address.
    pub fn new(days_since_epoch: u64, kind: CodexEventKind, note: &str) -> (e: CodexEvent)
        ensures
            event_is(e, days_since_epoch as nat, kind, note@),
    {
        CodexEvent { days_since_epoch, kind, address: cram_address(days_since_epoch), note: owned(note) }
    }
}

/// A collection of codex events.
#[derive(Clone, Debug)]
pub struct EventSet {
    pub events: Vec<CodexEvent>,
}

/// The first multiple of `p` strictly after `start`.
pub open spec fn first_multiple_after(p: nat, start: nat) -> nat {
    (start / p + 1) * p
}

/// Number of multiples of `p` strictly after `start` and at most `end`.
pub open spec fn multiple_count(p: nat, start: nat, end: nat) -> nat {
    let first = first_multiple_after(p, start);
    if end >= first {
        (((end - first) as nat) / p + 1) as nat
    } else {
        0
    }
}

/// `s` lists the completions of a `p`-day cycle after `start` up to
/// `end`, of kind `k`, each noted `prefix` followed by its cycle number.
pub open spec fn completions_are(
    s: Seq<CodexEvent>,
    p: nat,
    start: nat,
    end: nat,
    k: CodexEventKind,
    prefix: Seq<char>,
) -> bool {
    &&& s.len() == multiple_count(p, start, end)
    &&& forall|i: int|
        0 <= i < s.len() ==> {
            let d = first_multiple_after(p, start) + i * p;
            event_is(#[trigger] s[i], d as nat, k, prefix + decimal_text(d as nat / p))
        }
}

/// The four Venus phase offsets of a synodic cycle.
pub open spec fn venus_offset(j: int) -> nat {
    if j == 0 {
        0
    } else if j == 1 {
        236
    } else if j == 2 {
        326
    } else {
        576
    }
}

/// The Venus phase kind at offset index `j`.
pub open spec fn venus_kind(j: int) -> CodexEventKind {
    if j == 0 {
        CodexEventKind::VenusHeliacalRising
    } else if j == 1 {
        CodexEventKind::VenusSuperiorConjunction
    } else if j == 2 {
        CodexEventKind::VenusEveningFirstVisibility
    } else {
        CodexEventKind::VenusInferiorConjunction
    }
}

/// The Venus phase note at offset index `j`.
pub open spec fn venus_note(j: int) -> &'static str {
    if j == 0 {
        "morning-star begins"
    } else if j == 1 {
        "morning-star ends"
    } else if j == 2 {
        "evening-star begins"
    } else {
        "evening-star ends"
    }
}

/// The station of the synodic cycle whose first day a Venus event marks:
/// the heliacal rising opens the morning star, the superior conjunction
/// ends it, the evening first visibility opens the evening star and the
/// inferior conjunction ends that. Other kinds mark no station.
pub open spec fn station_opened_by(k: CodexEventKind) -> Option<VenusStation> {
    match k {
        CodexEventKind::VenusHeliacalRising => Some(VenusStation::MorningStar),
        CodexEventKind::VenusSuperiorConjunction => Some(VenusStation::SuperiorConjunction),
        CodexEventKind::VenusEveningFirstVisibility => Some(VenusStation::EveningStar),
        CodexEventKind::VenusInferiorConjunction => Some(VenusStation::InferiorConjunction),
        _ => None,
    }
}

/// Each of the four Venus phases falls on the first day of the station
/// its kind marks: the station of its offset is the one its kind opens,
/// and the day before it (one cycle round) lies in another station.
pub proof fn lemma_venus_phase_opens_station(j: int)
    requires
        0 <= j < 4,
    ensures
        venus_offset(j) < 584,
        station_opened_by(venus_kind(j)) == Some(station_of(venus_offset(j))),
        station_of((venus_offset(j) + 583) as nat) != station_of(venus_offset(j)),
{
    let o = venus_offset(j);
    lemma_small_mod(o, 584);
    lemma_small_mod((o + 583) as nat % 584, 584);
    assert((o + 583) as nat % 584 == if o == 0 { 583 } else { o - 1 });
}

/// Every Venus phase event `(d, j)` of the cycles from the one starting at
/// a multiple `c` of 584 lies at offset `venus_offset(j)` of its cycle.
proof fn lemma_venus_events_offsets(c: nat, start: nat, end: nat)
    requires
        c % 584 == 0,
    ensures
        forall|i: int|
            0 <= i < venus_events_from(c, start, end).len() ==> {
                let e = #[trigger] venus_events_from(c, start, end)[i];
                &&& 0 <= e.1 < 4
                &&& e.0 % 584 == venus_offset(e.1)
                &&& start <= e.0 <= end
            },
    decreases end + 584 - c,
{
    if c <= end {
        lemma_venus_phase_offsets(c, start, end, 0);
        lemma_mod_add_multiples_vanish(c as int, 584);
        lemma_venus_events_offsets(c + 584, start, end);
        let a = venus_phase_events(c, start, end, 0);
        let b = venus_events_from(c + 584, start, end);
        assert forall|i: int| 0 <= i < (a + b).len() implies {
            let e = #[trigger] (a + b)[i];
            &&& 0 <= e.1 < 4
            &&& e.0 % 584 == venus_offset(e.1)
            &&& start <= e.0 <= end
        } by {
            if i < a.len() {
                assert((a + b)[i] == a[i]);
            } else {
                assert((a + b)[i] == b[i - a.len()]);
            }
        }
    }
}

/// Day of phase `k` in the synodic cycle number `q` (counted from day 0).
pub open spec fn venus_day(q: nat, k: int) -> nat {
    584 * q + venus_offset(k)
}

/// Every phase `k ≥ j` of the cycle starting at `c` whose day falls in
/// `[start, end]` is among the phases `j..4` of that cycle.
proof fn lemma_venus_phase_present(c: nat, start: nat, end: nat, j: int, k: int)
    requires
        0 <= j <= k < 4,
        start <= c + venus_offset(k) <= end,
    ensures
        venus_phase_events(c, start, end, j).contains((c + venus_offset(k), k)),
    decreases 4 - j,
{
    let d = c + venus_offset(j);
    let rest = venus_phase_events(c, start, end, j + 1);
    let t = venus_phase_events(c, start, end, j);
    if j == k {
        assert(start <= d && d <= end);
        assert(t == seq![(d, j)] + rest);
        assert(t[0] == (d, j));
    } else {
        lemma_venus_phase_present(c, start, end, j + 1, k);
        let x = choose|x: int| 0 <= x < rest.len() && rest[x] == (c + venus_offset(k), k);
        if start <= d && d <= end {
            assert(t == seq![(d, j)] + rest);
            assert(t[x + 1] == rest[x]);
        } else {
            assert(t == rest);
            assert(t[x] == rest[x]);
        }
    }
}

/// Every phase day in `[start, end]` whose cycle starts at a multiple of
/// 584 between `c` and `end` is among the events from the cycle at `c`.
proof fn lemma_venus_events_present(c: nat, start: nat, end: nat, q: nat, k: int)
    requires
        c % 584 == 0,
        0 <= k < 4,
        c <= 584 * q,
        start <= 584 * q + venus_offset(k) <= end,
    ensures
        venus_events_from(c, start, end).contains((584 * q + venus_offset(k), k)),
    decreases end + 584 - c,
{
    let a = venus_phase_events(c, start, end, 0);
    let b = venus_events_from(c + 584, start, end);
    let t = venus_events_from(c, start, end);
    assert(c <= end);
    assert(t == a + b);
    lemma_fundamental_div_mod(c as int, 584);
    let qc = c / 584;
    assert(c == 584 * qc);
    if qc == q {
        lemma_venus_phase_present(c, start, end, 0, k);
        let x = choose|x: int| 0 <= x < a.len() && a[x] == (584 * q + venus_offset(k), k);
        assert(t[x] == a[x]);
    } else {
        assert(qc < q);
        lemma_mod_add_multiples_vanish(c as int, 584);
        lemma_venus_events_present(c + 584, start, end, q, k);
        let x = choose|x: int| 0 <= x < b.len() && b[x] == (584 * q + venus_offset(k), k);
        assert(t[a.len() + x] == b[x]);
    }
}

/// The phases `j..4` of a cycle starting at a multiple of 584 lie at
/// their offsets.
proof fn lemma_venus_phase_offsets(c: nat, start: nat, end: nat, j: int)
    requires
        c % 584 == 0,
        0 <= j,
    ensures
        forall|i: int|
            0 <= i < venus_phase_events(c, start, end, j).len() ==> {
                let e = #[trigger] venus_phase_events(c, start, end, j)[i];
                &&& 0 <= e.1 < 4
                &&& e.0 % 584 == venus_offset(e.1)
                &&& start <= e.0 <= end
            },
    decreases 4 - j,
{
    if j < 4 {
        lemma_venus_phase_offsets(c, start, end, j + 1);
        let o = venus_offset(j);
        lemma_fundamental_div_mod(c as int, 584);
        lemma_mod_multiples_vanish((c / 584) as int, o as int, 584);
        lemma_small_mod(o, 584);
        assert((c + o) % 584 == o);
        let rest = venus_phase_events(c, start, end, j + 1);
        let d = c + o;
        if start <= d && d <= end {
            let t = seq![(d, j)] + rest;
            assert forall|i: int| 0 <= i < t.len() implies {
                let e = #[trigger] t[i];
                &&& 0 <= e.1 < 4
                &&& e.0 % 584 == venus_offset(e.1)
                &&& start <= e.0 <= end
            } by {
                if i > 0 {
                    assert(t[i] == rest[i - 1]);
                }
            }
        }
    }
}

/// The phases `j..4` of the cycle starting at `c` that fall in `[start, end]`.
pub open spec fn venus_phase_events(c: nat, start: nat, end: nat, j: int) -> Seq<(nat, int)>
    decreases 4 - j,
{
    if j >= 4 || j < 0 {
        seq![]
    } else {
        let d = c + venus_offset(j);
        let rest = venus_phase_events(c, start, end, j + 1);
        if start <= d && d <= end {
            seq![(d, j)] + rest
        } else {
            rest
        }
    }
}

/// The Venus phase events, as `(day, phase index)`, of the cycles from
/// the one starting at `c` while cycle starts stay at most `end`.
pub open spec fn venus_events_from(c: nat, start: nat, end: nat) -> Seq<(nat, int)>
    decreases end + 584 - c,
{
    if c > end {
        seq![]
    } else {
        venus_phase_events(c, start, end, 0) + venus_events_from(c + 584, start, end)
    }
}

/// All Venus phase events in `[start, end]`, cycle by cycle.
pub open spec fn venus_events_spec(start: nat, end: nat) -> Seq<(nat, int)> {
    venus_events_from((start / 584) * 584, start, end)
}

impl EventSet {
    /// An empty event set.
    pub fn new() -> (s: EventSet)
        ensures
            s.events@.len() == 0,
    {
        EventSet { events: Vec::new() }
    }

    /// Appends an event.
    pub fn add(&mut self, event: CodexEvent)
        ensures
            final(self).events@ == old(self).events@.push(event),
    {
        self.events.push(event);
    }

    /// Number of events.
    pub fn len(&self) -> (n: usize)
        ensures
            n == self.events@.len(),
    {
        self.events.len()
    }

    /// Whether the set holds no event.
    pub fn is_empty(&self) -> (b: bool)
        ensures
            b == (self.events@.len() == 0),
    {
        self.events.len() == 0
    }

    fn completions(
        p: u64,
        start_day: u64,
        end_day: u64,
        kind: CodexEventKind,
        prefix: &str,
    ) -> (s: EventSet)
        requires
            p > 0,
            start_day + p <= u64::MAX,
            end_day + p <= u64::MAX,
        ensures
            completions_are(s.events@, p as nat, start_day as nat, end_day as nat, kind, prefix@),
    {
        let mut set = EventSet::new();
        let q = start_day / p;
        assert((q + 1) * p <= start_day + p) by (nonlinear_arith)
            requires
                q == start_day / p,
                p > 0,
        {
            vstd::arithmetic::div_mod::lemma_fundamental_div_mod(start_day as int, p as int);
        }
        let first = (q + 1) * p;
        let mut day = first;
        let mut i: u64 = 0;
        while day <= end_day
            invariant
                p > 0,
                end_day + p <= u64::MAX,
                first == first_multiple_after(p as nat, start_day as nat),
                day == first + i * p,
                set.events@.len() == i,
                i <= multiple_count(p as nat, start_day as nat, end_day as nat),
                day <= end_day ==> i < multiple_count(p as nat, start_day as nat, end_day as nat),
                day > end_day ==> i == multiple_count(p as nat, start_day as nat, end_day as nat),
                forall|j: int|
                    0 <= j < i ==> {
                        let d = first + j * p;
                        event_is(
                            #[trigger] set.events@[j],
                            d as nat,
                            kind,
                            prefix@ + decimal_text(d as nat / p as nat),
                        )
                    },
            decreases end_day + p - day,
        {
            proof {
                let n = multiple_count(p as nat, start_day as nat, end_day as nat);
                vstd::arithmetic::div_mod::lemma_fundamental_div_mod(
                    (end_day - first) as int,
                    p as int,
                );
                assert((i + 1) * p == i * p + p) by (nonlinear_arith);
                if day + p <= end_day {
                    assert(i + 1 < n) by (nonlinear_arith)
                        requires
                            day == first + i * p,
                            day + p <= end_day,
                            n == ((end_day - first) as int) / (p as int) + 1,
                            p > 0,
                            end_day - first == p * (((end_day - first) as int) / (p as int)) + ((end_day
                                - first) as int) % (p as int),
                            0 <= ((end_day - first) as int) % (p as int) < p,
                    ;
                } else {
                    assert(i + 1 == n) by (nonlinear_arith)
                        requires
                            day == first + i * p,
                            day <= end_day,
                            day + p > end_day,
                            n == ((end_day - first) as int) / (p as int) + 1,
                            p > 0,
                            end_day - first == p * (((end_day - first) as int) / (p as int)) + ((end_day
                                - first) as int) % (p as int),
                            0 <= ((end_day - first) as int) % (p as int) < p,
                    ;
                }
            }
            let note = concat(prefix, decimal_string(day / p).as_str());
            set.add(CodexEvent::new(day, kind, note.as_str()));
            day = day + p;
            i = i + 1;
        }
        set
    }
}

impl EventSet {
    /// Tzolk'in cycle completions strictly after `start_day` and at most `end_day`, one
    /// event per completion, noted with its cycle number.
    pub fn tzolkin_completions(start_day: u64, end_day: u64) -> (s: EventSet)
        requires
            start_day + 260 <= u64::MAX,
            end_day + 260 <= u64::MAX,
        ensures
            completions_are(
                s.events@,
                260,
                start_day as nat,
                end_day as nat,
                CodexEventKind::TzolkinCycleComplete,
                "Tzolk'in completion #"@,
            ),
    {
        Self::completions(260, start_day, end_day, CodexEventKind::TzolkinCycleComplete, "Tzolk'in completion #")
    }

    /// Haab year completions strictly after `start_day` and at most `end_day`, one
    /// event per completion, noted with its cycle number.
    pub fn haab_completions(start_day: u64, end_day: u64) -> (s: EventSet)
        requires
            start_day + 365 <= u64::MAX,
            end_day + 365 <= u64::MAX,
        ensures
            completions_are(
                s.events@,
                365,
                start_day as nat,
                end_day as nat,
                CodexEventKind::HaabYearComplete,
                "Haab year completion #"@,
            ),
    {
        Self::completions(365, start_day, end_day, CodexEventKind::HaabYearComplete, "Haab year completion #")
    }

    /// 819-day Planetary Council stations strictly after `start_day` and at most `end_day`, one
    /// event per completion, noted with its cycle number.
    pub fn council_819_stations(start_day: u64, end_day: u64) -> (s: EventSet)
        requires
            start_day + 819 <= u64::MAX,
            end_day + 819 <= u64::MAX,
        ensures
            completions_are(
                s.events@,
                819,
                start_day as nat,
                end_day as nat,
                CodexEventKind::PlanetaryCouncilStation,
                "819-day station #"@,
            ),
    {
        Self::completions(819, start_day, end_day, CodexEventKind::PlanetaryCouncilStation, "819-day station #")
    }

    /// Katun endings (every 7,200 days) strictly after `start_day` and at most `end_day`, one
    /// event per completion, noted with its cycle number.
    pub fn katun_endings(start_day: u64, end_day: u64) -> (s: EventSet)
        requires
            start_day + 7200 <= u64::MAX,
            end_day + 7200 <= u64::MAX,
        ensures
            completions_are(
                s.events@,
                7200,
                start_day as nat,
                end_day as nat,
                CodexEventKind::KatunEnding,
                "Katun ending #"@,
            ),
    {
        Self::completions(7200, start_day, end_day, CodexEventKind::KatunEnding, "Katun ending #")
    }

    /// Calendar Round renewals (every 18,980 days) strictly after `start_day` and at most `end_day`, one
    /// event per completion, noted with its cycle number.
    pub fn calendar_round_renewals(start_day: u64, end_day: u64) -> (s: EventSet)
        requires
            start_day + 18980 <= u64::MAX,
            end_day + 18980 <= u64::MAX,
        ensures
            completions_are(
                s.events@,
                18980,
                start_day as nat,
                end_day as nat,
                CodexEventKind::CalendarRoundComplete,
                "CR renewal #"@,
            ),
    {
        Self::completions(18980, start_day, end_day, CodexEventKind::CalendarRoundComplete, "CR renewal #")
    }

    /// The Venus phase events (offsets 0, 236, 326, 576 of each 584-day
    /// cycle) that fall in `[start_day, end_day]`, cycle by cycle.
    pub fn venus_synodic_events(start_day: u64, end_day: u64) -> (s: EventSet)
        requires
            end_day + 584 <= u64::MAX,
        ensures
            venus_events_match(s.events@, venus_events_spec(start_day as nat, end_day as nat)),
            forall|i: int|
                0 <= i < s.events@.len() ==> station_opened_by((#[trigger] s.events@[i]).kind)
                    == Some(station_of(s.events@[i].days_since_epoch as nat)),
            forall|i: int|
                0 <= i < s.events@.len() ==> start_day <= (#[trigger] s.events@[i]).days_since_epoch
                    <= end_day,
            forall|q: nat, k: int|
                0 <= k < 4 && start_day <= #[trigger] venus_day(q, k) <= end_day ==> exists|i: int|
                    0 <= i < s.events@.len() && (#[trigger] s.events@[i]).days_since_epoch
                        == venus_day(q, k) && s.events@[i].kind == venus_kind(k),
    {
        let mut set = EventSet::new();
        let mut cycle_start = (start_day / 584) * 584;
        let ghost mut done: Seq<(nat, int)> = seq![];
        proof {
            assert(done + venus_events_from(cycle_start as nat, start_day as nat, end_day as nat)
                =~= venus_events_spec(start_day as nat, end_day as nat));
        }
        while cycle_start <= end_day
            invariant
                end_day + 584 <= u64::MAX,
                done + venus_events_from(cycle_start as nat, start_day as nat, end_day as nat)
                    == venus_events_spec(start_day as nat, end_day as nat),
                venus_events_match(set.events@, done),
            decreases end_day + 584 - cycle_start,
        {
            let ghost before = done;
            let mut j: usize = 0;
            proof {
                assert(done + venus_phase_events(cycle_start as nat, start_day as nat, end_day as nat, 0)
                    =~= before + venus_phase_events(cycle_start as nat, start_day as nat, end_day as nat, 0));
            }
            while j < 4
                invariant
                    end_day + 584 <= u64::MAX,
                    cycle_start <= end_day,
                    0 <= j <= 4,
                    done + venus_phase_events(cycle_start as nat, start_day as nat, end_day as nat, j as int)
                        == before + venus_phase_events(cycle_start as nat, start_day as nat, end_day as nat, 0),
                    venus_events_match(set.events@, done),
                decreases 4 - j,
            {
                let (offset, kind, note) = venus_phase(j);
                let day = cycle_start + offset;
                let ghost old_done = done;
                if day >= start_day && day <= end_day {
                    set.add(CodexEvent::new(day, kind, note));
                    proof {
                        done = done.push((day as nat, j as int));
                        assert(done + venus_phase_events(cycle_start as nat, start_day as nat, end_day as nat, j + 1)
                            =~= old_done + venus_phase_events(cycle_start as nat, start_day as nat, end_day as nat, j as int));
                    }
                }
                j = j + 1;
            }
            proof {
                assert(venus_phase_events(cycle_start as nat, start_day as nat, end_day as nat, 4) =~= seq![]);
                assert(done =~= before + venus_phase_events(cycle_start as nat, start_day as nat, end_day as nat, 0));
                assert(before + venus_events_from(cycle_start as nat, start_day as nat, end_day as nat)
                    =~= done + venus_events_from((cycle_start + 584) as nat, start_day as nat, end_day as nat));
            }
            cycle_start = cycle_start + 584;
        }
        proof {
            assert(done =~= venus_events_spec(start_day as nat, end_day as nat));
            let c0 = ((start_day / 584) * 584) as nat;
            lemma_mod_multiples_basic((start_day / 584) as int, 584);
            lemma_venus_events_offsets(c0, start_day as nat, end_day as nat);
            let t = venus_events_spec(start_day as nat, end_day as nat);
            assert forall|i: int| 0 <= i < set.events@.len() implies station_opened_by(
                (#[trigger] set.events@[i]).kind,
            ) == Some(station_of(set.events@[i].days_since_epoch as nat)) by {
                let e = t[i];
                lemma_venus_phase_opens_station(e.1);
                assert(e.0 % 584 == venus_offset(e.1));
                lemma_small_mod(venus_offset(e.1), 584);
            }
            assert forall|q: nat, k: int|
                0 <= k < 4 && start_day <= #[trigger] venus_day(q, k) <= end_day implies exists|i: int|
                    0 <= i < set.events@.len() && (#[trigger] set.events@[i]).days_since_epoch
                        == venus_day(q, k) && set.events@[i].kind == venus_kind(k) by {
                let d = venus_day(q, k);
                lemma_fundamental_div_mod(start_day as int, 584);
                assert(start_day / 584 <= q) by {
                    if start_day / 584 > q {
                        assert(584 * (start_day / 584) >= 584 * (q + 1)) by (nonlinear_arith)
                            requires start_day / 584 >= q + 1;
                    }
                }
                assert(c0 <= 584 * q) by (nonlinear_arith)
                    requires c0 == (start_day / 584) * 584, start_day / 584 <= q;
                lemma_venus_events_present(c0, start_day as nat, end_day as nat, q, k);
                let x = choose|x: int| 0 <= x < t.len() && t[x] == (d, k);
                assert(set.events@[x].days_since_epoch == d);
            }
        }
        set
    }
}

/// The events of `s` are, in order, the Venus phase events `t`.
pub open spec fn venus_events_match(s: Seq<CodexEvent>, t: Seq<(nat, int)>) -> bool {
    &&& s.len() == t.len()
    &&& forall|i: int|
        0 <= i < s.len() ==> event_is(
            #[trigger] s[i],
            t[i].0,
            venus_kind(t[i].1),
            venus_note(t[i].1)@,
        )
}

/// Offset, kind and note of Venus phase `j < 4`.
fn venus_phase(j: usize) -> (r: (u64, CodexEventKind, &'static str))
    requires
        j < 4,
    ensures
        r.0 == venus_offset(j as int),
        r.1 == venus_kind(j as int),
        r.2 == venus_note(j as int),
{
    if j == 0 {
        (0, CodexEventKind::VenusHeliacalRising, "morning-star begins")
    } else if j == 1 {
        (236, CodexEventKind::VenusSuperiorConjunction, "morning-star ends")
    } else if j == 2 {
        (326, CodexEventKind::VenusEveningFirstVisibility, "evening-star begins")
    } else {
        (576, CodexEventKind::VenusInferiorConjunction, "evening-star ends")
    }
}

/// `s` is the canonical corpus of `[start, end]`: the Tzolk'in, Haab,
/// Venus, 819-day, Katun and Calendar Round events, in that order.
pub open spec fn corpus_is(s: Seq<CodexEvent>, start: nat, end: nat) -> bool {
    let n1 = multiple_count(260, start, end);
    let n2 = n1 + multiple_count(365, start, end);
    let n3 = n2 + venus_events_spec(start, end).len();
    let n4 = n3 + multiple_count(819, start, end);
    let n5 = n4 + multiple_count(7200, start, end);
    let n6 = n5 + multiple_count(18980, start, end);
    &&& s.len() == n6
    &&& completions_are(
        s.subrange(0, n1 as int),
        260,
        start,
        end,
        CodexEventKind::TzolkinCycleComplete,
        "Tzolk'in completion #"@,
    )
    &&& completions_are(
        s.subrange(n1 as int, n2 as int),
        365,
        start,
        end,
        CodexEventKind::HaabYearComplete,
        "Haab year completion #"@,
    )
    &&& venus_events_match(s.subrange(n2 as int, n3 as int), venus_events_spec(start, end))
    &&& completions_are(
        s.subrange(n3 as int, n4 as int),
        819,
        start,
        end,
        CodexEventKind::PlanetaryCouncilStation,
        "819-day station #"@,
    )
    &&& completions_are(
        s.subrange(n4 as int, n5 as int),
        7200,
        start,
        end,
        CodexEventKind::KatunEnding,
        "Katun ending #"@,
    )
    &&& completions_are(
        s.subrange(n5 as int, n6 as int),
        18980,
        start,
        end,
        CodexEventKind::CalendarRoundComplete,
        "CR renewal #"@,
    )
}

/// The kinds of `s`, each once, in order of first occurrence.
pub open spec fn distinct_kinds_spec(s: Seq<CodexEvent>) -> Seq<CodexEventKind>
    decreases s.len(),
{
    if s.len() == 0 {
        seq![]
    } else {
        let prev = distinct_kinds_spec(s.drop_last());
        if exists|i: int| 0 <= i < prev.len() && same_kind(#[trigger] prev[i], s.last().kind) {
            prev
        } else {
            prev.push(s.last().kind)
        }
    }
}

/// The events of `s` of kind `k`, in order.
pub open spec fn events_of_kind(s: Seq<CodexEvent>, k: CodexEventKind) -> Seq<CodexEvent> {
    s.filter(|e: CodexEvent| same_kind(e.kind, k))
}

impl EventSet {
    /// The canonical corpus over `[start_day, end_day]`: all six event
    /// generators, concatenated.
    pub fn canonical_corpus(start_day: u64, end_day: u64) -> (s: EventSet)
        requires
            start_day + 18980 <= u64::MAX,
            end_day + 18980 <= u64::MAX,
        ensures
            corpus_is(s.events@, start_day as nat, end_day as nat),
    {
        let mut combined = EventSet::new();
        let mut a = Self::tzolkin_completions(start_day, end_day);
        let mut b = Self::haab_completions(start_day, end_day);
        let mut c = Self::venus_synodic_events(start_day, end_day);
        let mut d = Self::council_819_stations(start_day, end_day);
        let mut e = Self::katun_endings(start_day, end_day);
        let mut f = Self::calendar_round_renewals(start_day, end_day);
        let ghost (sa, sb, sc, sd, se, sf) = (a.events@, b.events@, c.events@, d.events@, e.events@, f.events@);
        combined.events.append(&mut a.events);
        combined.events.append(&mut b.events);
        combined.events.append(&mut c.events);
        combined.events.append(&mut d.events);
        combined.events.append(&mut e.events);
        combined.events.append(&mut f.events);
        proof {
            let s = combined.events@;
            assert(s =~= sa + sb + sc + sd + se + sf);
            let n1 = sa.len();
            let n2 = n1 + sb.len();
            let n3 = n2 + sc.len();
            let n4 = n3 + sd.len();
            let n5 = n4 + se.len();
            assert(s.subrange(0, n1 as int) =~= sa);
            assert(s.subrange(n1 as int, n2 as int) =~= sb);
            assert(s.subrange(n2 as int, n3 as int) =~= sc);
            assert(s.subrange(n3 as int, n4 as int) =~= sd);
            assert(s.subrange(n4 as int, n5 as int) =~= se);
            assert(s.subrange(n5 as int, s.len() as int) =~= sf);
        }
        combined
    }

    /// The events of the given kind, in order.
    pub fn filter_by_kind(&self, kind: &CodexEventKind) -> (v: Vec<&CodexEvent>)
        ensures
            v@.len() == events_of_kind(self.events@, *kind).len(),
            forall|i: int| 0 <= i < v@.len() ==> *v@[i] == events_of_kind(self.events@, *kind)[i],
    {
        let mut out: Vec<&CodexEvent> = Vec::new();
        let mut i: usize = 0;
        while i < self.events.len()
            invariant
                0 <= i <= self.events.len(),
                out@.len() == events_of_kind(self.events@.subrange(0, i as int), *kind).len(),
                forall|j: int|
                    0 <= j < out@.len() ==> *out@[j] == events_of_kind(
                        self.events@.subrange(0, i as int),
                        *kind,
                    )[j],
            decreases self.events.len() - i,
        {
            let ghost pre = self.events@.subrange(0, i as int);
            proof {
                assert(self.events@.subrange(0, i as int + 1) =~= pre.push(self.events@[i as int]));
                pre.lemma_filter_push(self.events@[i as int], |e: CodexEvent| same_kind(e.kind, *kind));
            }
            let e = &self.events[i];
            if e.kind.same(kind) {
                out.push(e);
            }
            i = i + 1;
        }
        assert(self.events@.subrange(0, self.events.len() as int) =~= self.events@);
        out
    }

    /// The kinds present in the set, each once, in order of first occurrence.
    pub fn distinct_kinds(&self) -> (v: Vec<CodexEventKind>)
        ensures
            v@ == distinct_kinds_spec(self.events@),
    {
        let mut kinds: Vec<CodexEventKind> = Vec::new();
        let mut i: usize = 0;
        while i < self.events.len()
            invariant
                0 <= i <= self.events.len(),
                kinds@ == distinct_kinds_spec(self.events@.subrange(0, i as int)),
            decreases self.events.len() - i,
        {
            let k = self.events[i].kind;
            let mut found = false;
            let mut j: usize = 0;
            while j < kinds.len()
                invariant
                    0 <= j <= kinds.len(),
                    k == self.events@[i as int].kind,
                    found == exists|m: int| 0 <= m < j && same_kind(#[trigger] kinds@[m], k),
                decreases kinds.len() - j,
            {
                if kinds[j].same(&k) {
                    found = true;
                }
                j = j + 1;
            }
            proof {
                let post = self.events@.subrange(0, i as int + 1);
                assert(post.drop_last() =~= self.events@.subrange(0, i as int));
                assert(post.last() == self.events@[i as int]);
            }
            if !found {
                kinds.push(k);
            }
            i = i + 1;
        }
        assert(self.events@.subrange(0, self.events.len() as int) =~= self.events@);
        kinds
    }
}


impl EventSet {
    /// Groups the events by their four-head flat address (event `i` has
    /// address `addresses[i]`): each occurring address maps to the
    /// ascending indices of its events.
    pub fn group_by_four_head_address(&self, addresses: &[u64]) -> (g: HashMap<u64, Vec<usize>>)
        requires
            addresses@.len() == self.events@.len(),
        ensures
            g@.dom() == addresses@.to_set(),
            forall|a: u64| #[trigger] g@.contains_key(a) ==> g@[a]@ == indices_with(addresses@, a, addresses@.len()),
    {
        broadcast use vstd::std_specs::hash::group_hash_axioms;
        let atlas = ConfigAtlas::build_from_addresses(addresses, 4);
        let mut groups: HashMap<u64, Vec<usize>> = HashMap::new();
        let mut entries = atlas.entries;
        let ghost all = entries@;
        let mut i: usize = 0;
        let n = entries.len();
        while entries.len() > 0
            invariant
                groups_addresses(all, addresses@),
                forall|j: int| 0 <= j < all.len() ==> addresses@.contains(#[trigger] all[j].address),
                entries@ == all.subrange(0, entries.len() as int),
                entries.len() <= all.len(),
                forall|a: u64| #[trigger] groups@.contains_key(a) <==> exists|j: int| entries.len() <= j < all.len() && all[j].address == a,
                forall|a: u64| #[trigger] groups@.contains_key(a) ==> groups@[a]@ == indices_with(addresses@, a, addresses@.len()),
            decreases entries.len(),
        {
            let e = entries.pop().unwrap();
            let ghost j = entries.len() as int;
            assert(e == all[j]);
            groups.insert(e.address, e.event_indices);
            proof {
                assert forall|a: u64| #[trigger] groups@.contains_key(a) <==> exists|m: int| entries.len() <= m < all.len() && all[m].address == a by {
                    if a == e.address {
                        assert(all[j].address == a);
                    }
                }
            }
        }
        proof {
            assert(groups@.dom() =~= addresses@.to_set()) by {
                assert forall|a: u64| groups@.dom().contains(a) implies addresses@.to_set().contains(a) by {
                    let m = choose|m: int| 0 <= m < all.len() && all[m].address == a;
                    assert(addresses@.contains(all[m].address));
                }
                assert forall|a: u64| addresses@.to_set().contains(a) implies groups@.dom().contains(a) by {
                    let k = choose|k: int| 0 <= k < addresses@.len() && addresses@[k] == a;
                    assert(crate::atlas::address_present(all, addresses@[k]));
                    let m = choose|m: int| 0 <= m < all.len() && (#[trigger] all[m]).address == a;
                    assert(groups@.contains_key(a));
                }
            }
        }
        groups
    }

    /// Number of distinct four-head addresses the events occupy.
    pub fn distinct_addresses(&self, addresses: &[u64]) -> (n: usize)
        requires
            addresses@.len() == self.events@.len(),
        ensures
            n == addresses@.to_set().len(),
    {
        ConfigAtlas::build_from_addresses(addresses, 4).entries.len()
    }

    /// Occupancy histogram of the four-head grouping: occupancy `k` to the
    /// number of addresses holding `k` events.
    pub fn occupancy_histogram(&self, addresses: &[u64]) -> (h: HashMap<usize, usize>)
        requires
            addresses@.len() == self.events@.len(),
        ensures
            exists|entries: Seq<AtlasEntry>|
                #![trigger groups_addresses(entries, addresses@)]
                groups_addresses(entries, addresses@) && h@ == histogram_spec(entries),
    {
        let atlas = ConfigAtlas::build_from_addresses(addresses, 4);
        atlas.occupancy_histogram()
    }
}
} // verus!
