//! Independent event corpora (Saros eclipse series, the Venus Great Round,
//! the Mars synodic sequence) and the cross-validation of the mutual
//! information and `κ₃` predictions on them.

use vstd::prelude::*;
use crate::events::{CodexEvent, CodexEventKind, EventSet, event_is};
use crate::text::{contains_text, owned, str_contains, str_equal};
use crate::h3_mi::{h3_mi_report, joint_spec, independence_ratio_spec, event_pairs};
use crate::atlas::day_address;
use crate::events::corpus_is;

verus! {

/// The Saros cycle in whole days (≈ 223 synodic months).
pub const SAROS_DAYS: u64 = 6_585;

/// Half a Saros.
pub const HALF_SAROS_DAYS: u64 = 3_292;

/// Number of modelled Saros series.
pub const N_SAROS_SERIES: usize = 10;

/// The Venus Great Round: `8·365 = 5·584` days.
pub const VENUS_GREAT_ROUND: u64 = 2_920;

/// The five conjunctions within one Great Round.
pub const VENUS_GREAT_ROUND_OFFSETS: [u64; 5] = [0, 584, 1168, 1752, 2336];

/// Mars synodic period in whole days.
pub const MARS_SYNODIC: u64 = 780;

/// Jupiter synodic period in whole days.
pub const JUPITER_SYNODIC: u64 = 399;

/// `first, first + step, …` while below `end`.
pub open spec fn progression(first: nat, step: nat, end: nat) -> Seq<u64>
    decreases (if end > first { end - first } else { 0 }) when step > 0
{
    if first >= end {
        seq![]
    } else {
        seq![first as u64] + progression(first + step, step, end)
    }
}

/// The events of `days`, each of kind `kind` and note `note`.
pub open spec fn events_on(s: Seq<CodexEvent>, days: Seq<u64>, kind: CodexEventKind, note: Seq<char>) -> bool {
    &&& s.len() == days.len()
    &&& forall|i: int| 0 <= i < s.len() ==> event_is(#[trigger] s[i], days[i] as nat, kind, note)
}

/// Adds the events `first, first + step, …` below `end`.
fn add_progression(
    set: &mut EventSet,
    first: u64,
    step: u64,
    end: u64,
    kind: CodexEventKind,
    note: &str,
) -> (last: u64)
    requires
        step > 0,
        end + step <= u64::MAX,
        first + step <= u64::MAX,
    ensures
        final(set).events@.len() == old(set).events@.len() + progression(first as nat, step as nat, end as nat).len(),
        final(set).events@.subrange(0, old(set).events@.len() as int) == old(set).events@,
        events_on(
            final(set).events@.subrange(old(set).events@.len() as int, final(set).events@.len() as int),
            progression(first as nat, step as nat, end as nat),
            kind,
            note@,
        ),
{
    let ghost base = set.events@;
    let ghost full = progression(first as nat, step as nat, end as nat);
    let mut day = first;
    let ghost mut done: Seq<u64> = seq![];
    while day < end
        invariant
            step > 0,
            end + step <= u64::MAX,
            day == first || day < end + step,
            done + progression(day as nat, step as nat, end as nat) == full,
            set.events@.len() == base.len() + done.len(),
            set.events@.subrange(0, base.len() as int) == base,
            events_on(set.events@.subrange(base.len() as int, set.events@.len() as int), done, kind, note@),
        decreases end + step - day,
    {
        let ghost before = set.events@;
        set.add(CodexEvent::new(day, kind, note));
        proof {
            assert(progression(day as nat, step as nat, end as nat) == seq![day] + progression(
                (day + step) as nat,
                step as nat,
                end as nat,
            ));
            assert(done + seq![day] + progression((day + step) as nat, step as nat, end as nat) =~= done
                + progression(day as nat, step as nat, end as nat));
            done = done.push(day);
            assert(set.events@.subrange(0, base.len() as int) =~= before.subrange(0, base.len() as int));
            let seg = set.events@.subrange(base.len() as int, set.events@.len() as int);
            assert forall|i: int| 0 <= i < seg.len() implies event_is(#[trigger] seg[i], done[i] as nat, kind, note@) by {
                if i < seg.len() - 1 {
                    assert(seg[i] == before.subrange(base.len() as int, before.len() as int)[i]);
                }
            }
        }
        day = day + step;
    }
    proof {
        assert(progression(day as nat, step as nat, end as nat) =~= Seq::<u64>::empty());
        assert(done =~= full);
    }
    day
}

/// The starting offsets of the modelled Saros series.
pub open spec fn saros_offsets() -> Seq<u64> {
    seq![0u64, 654, 1308, 1962, 2616, 3270, 3924, 4578, 5232, 5886]
}

/// The first eclipse of a series at `offset` on or after `start`.
pub open spec fn saros_first(offset: nat, start: nat) -> nat {
    if offset >= start {
        offset
    } else {
        (offset + ((start - offset + 6584) / 6585) * 6585) as nat
    }
}

/// The eclipse days of the first `n` series, series by series.
pub open spec fn saros_days(start: nat, end: nat, n: nat) -> Seq<u64>
    decreases n,
{
    if n == 0 {
        seq![]
    } else {
        saros_days(start, end, (n - 1) as nat) + progression(
            saros_first(saros_offsets()[n - 1] as nat, start),
            6585,
            end,
        )
    }
}

/// Eclipses of ten Saros series in `[start_day, end_day)`: each series
/// recurs every 6585 days from its offset.
pub fn saros_eclipse_corpus(start_day: u64, end_day: u64) -> (s: EventSet)
    requires
        start_day + 2 * SAROS_DAYS <= u64::MAX,
        end_day + SAROS_DAYS <= u64::MAX,
    ensures
        events_on(
            s.events@,
            saros_days(start_day as nat, end_day as nat, 10),
            CodexEventKind::LunarEclipsePrediction,
            "saros-series"@,
        ),
{
    let series_offsets: [u64; 10] = [0, 654, 1308, 1962, 2616, 3270, 3924, 4578, 5232, 5886];
    let mut set = EventSet::new();
    let mut i: usize = 0;
    while i < 10
        invariant
            0 <= i <= 10,
            series_offsets@ == saros_offsets(),
            start_day + 2 * SAROS_DAYS <= u64::MAX,
            end_day + SAROS_DAYS <= u64::MAX,
            events_on(
                set.events@,
                saros_days(start_day as nat, end_day as nat, i as nat),
                CodexEventKind::LunarEclipsePrediction,
                "saros-series"@,
            ),
        decreases 10 - i,
    {
        let offset = series_offsets[i];
        let first = if offset >= start_day {
            offset
        } else {
            let n = (start_day - offset + SAROS_DAYS - 1) / SAROS_DAYS;
            proof {
                assert(n * 6585 <= start_day - offset + 6584) by {
                    vstd::arithmetic::div_mod::lemma_fundamental_div_mod(
                        (start_day - offset + 6584) as int,
                        6585,
                    );
                    vstd::arithmetic::div_mod::lemma_mod_pos_bound((start_day - offset + 6584) as int, 6585);
                }
            }
            offset + n * SAROS_DAYS
        };
        let ghost before = set.events@;
        let ghost prev = saros_days(start_day as nat, end_day as nat, i as nat);
        add_progression(&mut set, first, SAROS_DAYS, end_day, CodexEventKind::LunarEclipsePrediction, "saros-series");
        proof {
            let prog = progression(first as nat, 6585, end_day as nat);
            assert(saros_days(start_day as nat, end_day as nat, (i + 1) as nat) == prev + prog);
            let all = set.events@;
            assert forall|k: int| 0 <= k < all.len() implies event_is(
                #[trigger] all[k],
                (prev + prog)[k] as nat,
                CodexEventKind::LunarEclipsePrediction,
                "saros-series"@,
            ) by {
                if k < before.len() {
                    assert(all[k] == all.subrange(0, before.len() as int)[k]);
                } else {
                    assert(all[k] == all.subrange(before.len() as int, all.len() as int)[k - before.len()]);
                }
            }
        }
        i = i + 1;
    }
    set
}

/// Mars synodic events from `start_day`, every 780 days, below `end_day`.
pub fn mars_synodic_corpus(start_day: u64, end_day: u64) -> (s: EventSet)
    requires
        start_day + MARS_SYNODIC <= u64::MAX,
        end_day + MARS_SYNODIC <= u64::MAX,
    ensures
        events_on(
            s.events@,
            progression(start_day as nat, 780, end_day as nat),
            CodexEventKind::MarsHeliacalEvent,
            "mars"@,
        ),
{
    let mut set = EventSet::new();
    add_progression(&mut set, start_day, MARS_SYNODIC, end_day, CodexEventKind::MarsHeliacalEvent, "mars");
    proof {
        assert(set.events@.subrange(0, set.events@.len() as int) =~= set.events@);
    }
    set
}

/// Days in `[start, end)`.
pub open spec fn in_window(start: nat, end: nat) -> spec_fn(u64) -> bool {
    |d: u64| start <= d < end
}

/// The conjunctions of the Great Round starting on `rs`.
pub open spec fn round_days(rs: nat) -> Seq<u64> {
    seq![rs as u64, (rs + 584) as u64, (rs + 1168) as u64, (rs + 1752) as u64, (rs + 2336) as u64]
}

/// The conjunctions in `[start, end)` of the Great Rounds from `rs` on,
/// round by round, while the round starts below `end`.
pub open spec fn great_round_days(rs: nat, start: nat, end: nat) -> Seq<u64>
    decreases (if end > rs { end - rs } else { 0 }),
{
    if rs >= end {
        seq![]
    } else {
        round_days(rs).filter(in_window(start, end)) + great_round_days(rs + 2920, start, end)
    }
}

/// Venus conjunctions of the Great Rounds from day 0 that fall in
/// `[start_day, end_day)`.
pub fn venus_great_round_corpus(start_day: u64, end_day: u64) -> (s: EventSet)
    requires
        end_day + VENUS_GREAT_ROUND <= u64::MAX,
    ensures
        events_on(
            s.events@,
            great_round_days(0, start_day as nat, end_day as nat),
            CodexEventKind::VenusHeliacalRising,
            "great-round"@,
        ),
{
    let offsets = VENUS_GREAT_ROUND_OFFSETS;
    let mut set = EventSet::new();
    let mut round_start: u64 = 0;
    let ghost mut done: Seq<u64> = seq![];
    while round_start < end_day
        invariant
            end_day + 2920 <= u64::MAX,
            offsets@ == seq![0u64, 584, 1168, 1752, 2336],
            round_start == 0 || round_start < end_day + 2920,
            done + great_round_days(round_start as nat, start_day as nat, end_day as nat) == great_round_days(
                0,
                start_day as nat,
                end_day as nat,
            ),
            events_on(set.events@, done, CodexEventKind::VenusHeliacalRising, "great-round"@),
        decreases end_day + 2920 - round_start,
    {
        let ghost rd = round_days(round_start as nat);
        let ghost done0 = done;
        let mut j: usize = 0;
        while j < 5
            invariant
                0 <= j <= 5,
                round_start < end_day,
                end_day + 2920 <= u64::MAX,
                offsets@ == seq![0u64, 584, 1168, 1752, 2336],
                rd == round_days(round_start as nat),
                done == done0 + rd.subrange(0, j as int).filter(in_window(start_day as nat, end_day as nat)),
                events_on(set.events@, done, CodexEventKind::VenusHeliacalRising, "great-round"@),
            decreases 5 - j,
        {
            let day = round_start + offsets[j];
            proof {
                assert(rd[j as int] == day);
                assert(rd.subrange(0, j as int + 1) =~= rd.subrange(0, j as int).push(day));
                rd.subrange(0, j as int).lemma_filter_push(day, in_window(start_day as nat, end_day as nat));
            }
            if day >= start_day && day < end_day {
                let ghost before = set.events@;
                set.add(CodexEvent::new(day, CodexEventKind::VenusHeliacalRising, "great-round"));
                proof {
                    assert(done0 + rd.subrange(0, j as int + 1).filter(in_window(start_day as nat, end_day as nat))
                        =~= done.push(day));
                    done = done.push(day);
                    assert forall|i: int| 0 <= i < set.events@.len() implies event_is(
                        #[trigger] set.events@[i],
                        done[i] as nat,
                        CodexEventKind::VenusHeliacalRising,
                        "great-round"@,
                    ) by {
                        if i < before.len() {
                            assert(set.events@[i] == before[i]);
                        }
                    }
                }
            } else {
                proof {
                    assert(done0 + rd.subrange(0, j as int + 1).filter(in_window(start_day as nat, end_day as nat))
                        =~= done);
                }
            }
            j = j + 1;
        }
        proof {
            assert(rd.subrange(0, 5) =~= rd);
            assert(great_round_days(round_start as nat, start_day as nat, end_day as nat) == rd.filter(
                in_window(start_day as nat, end_day as nat),
            ) + great_round_days((round_start + 2920) as nat, start_day as nat, end_day as nat));
            assert(done0 + rd.filter(in_window(start_day as nat, end_day as nat)) + great_round_days(
                (round_start + 2920) as nat,
                start_day as nat,
                end_day as nat,
            ) =~= done0 + great_round_days(round_start as nat, start_day as nat, end_day as nat));
        }
        round_start = round_start + VENUS_GREAT_ROUND;
    }
    proof {
        assert(great_round_days(round_start as nat, start_day as nat, end_day as nat) =~= Seq::<u64>::empty());
        assert(done =~= great_round_days(0, start_day as nat, end_day as nat));
    }
    set
}

/// A progression below `end` has at most `end` terms.
proof fn lemma_progression_len(first: nat, step: nat, end: nat)
    requires
        step > 0,
    ensures
        progression(first, step, end).len() <= (if end > first { end - first } else { 0 }),
    decreases (if end > first { end - first } else { 0 }),
{
    if first < end {
        lemma_progression_len(first + step, step, end);
    }
}

/// The Saros days of `n` series number at most `n·end`.
proof fn lemma_saros_len(start: nat, end: nat, n: nat)
    ensures
        saros_days(start, end, n).len() <= n * end,
    decreases n,
{
    if n > 0 {
        lemma_saros_len(start, end, (n - 1) as nat);
        lemma_progression_len(saros_first(saros_offsets()[n - 1] as nat, start), 6585, end);
        assert((n - 1) * end + end == n * end) by (nonlinear_arith);
    }
}

/// A filtered sequence is no longer than the sequence.
proof fn lemma_filter_len(s: Seq<u64>, f: spec_fn(u64) -> bool)
    ensures
        s.filter(f).len() <= s.len(),
    decreases s.len(),
{
    if s.len() > 0 {
        lemma_filter_len(s.drop_last(), f);
        assert(s =~= s.drop_last().push(s.last()));
        s.drop_last().lemma_filter_push(s.last(), f);
    } else {
        assert(s.filter(f) =~= s);
    }
}

/// The Great Round days from `rs` number at most `end − rs + 5`.
proof fn lemma_great_round_len(rs: nat, start: nat, end: nat)
    ensures
        great_round_days(rs, start, end).len() <= (if end > rs { end - rs + 5 } else { 0 }),
    decreases (if end > rs { end - rs } else { 0 }),
{
    if rs < end {
        lemma_great_round_len(rs + 2920, start, end);
        lemma_filter_len(round_days(rs), in_window(start, end));
    }
}

/// Per-corpus `κ₃` cross-validation.
#[derive(Clone, Debug)]
pub struct CrossValidationH5 {
    pub corpus_name: String,
    pub event_count: usize,
    /// Per head: its name and the share (bp) of events with `κ₃ = 0`.
    pub kappa3_zero_per_head: Vec<(String, u64)>,
    /// The Tzolk'in and Haab heads both show `κ₃ = 0` for at least 99%.
    pub level2_prediction_holds: bool,
}

/// Days with `κ₃ = 0` at a head of cycle `cycle`.
pub open spec fn kappa3_zero_at(cycle: u64) -> spec_fn(u64) -> bool {
    |d: u64| ((d % cycle) / 1331) % 11 == 0
}

/// Share (bp) of `days` with `κ₃ = 0` at a head of cycle `cycle`.
pub open spec fn kappa3_zero_bp(days: Seq<u64>, cycle: u64) -> int {
    (days.filter(kappa3_zero_at(cycle)).len() * 10_000) as int / (if days.len() > 0 { days.len() as int } else { 1 })
}

/// Index of the first head whose name contains `pat`.
pub open spec fn first_named(heads: Seq<(&'static str, u64)>, pat: Seq<char>) -> Option<int>
    decreases heads.len(),
{
    if heads.len() == 0 {
        None
    } else {
        match first_named(heads.drop_last(), pat) {
            Some(i) => Some(i),
            None => if contains_text(heads.last().0@, pat) {
                Some(heads.len() - 1)
            } else {
                None
            },
        }
    }
}

/// The head named like `pat` exists and shows `κ₃ = 0` for at least 99%
/// of `days`.
pub open spec fn level2_ok(heads: Seq<(&'static str, u64)>, days: Seq<u64>, pat: Seq<char>) -> bool {
    match first_named(heads, pat) {
        Some(i) => kappa3_zero_bp(days, heads[i].1) >= 9_900,
        None => false,
    }
}

/// The cross-validation entry owed for corpus `name` of days `days`.
pub open spec fn h5_entry(r: CrossValidationH5, name: Seq<char>, days: Seq<u64>, heads: Seq<(&'static str, u64)>) -> bool {
    &&& r.corpus_name@ == name
    &&& r.event_count == days.len()
    &&& r.kappa3_zero_per_head@.len() == heads.len()
    &&& forall|h: int|
        0 <= h < heads.len() ==> (#[trigger] r.kappa3_zero_per_head@[h]).0@ == heads[h].0@
            && r.kappa3_zero_per_head@[h].1 == kappa3_zero_bp(days, heads[h].1)
    &&& r.level2_prediction_holds == (level2_ok(heads, days, "Tzolkin"@) && level2_ok(heads, days, "Haab"@))
}

/// The days of the events of a set.
pub open spec fn days_of(s: Seq<CodexEvent>) -> Seq<u64> {
    s.map_values(|e: CodexEvent| e.days_since_epoch)
}

/// Index of the first head named like `pat`.
fn find_named(heads: &[(&'static str, u64)], pat: &str) -> (r: Option<usize>)
    ensures
        r matches Some(i) ==> first_named(heads@, pat@) == Some(i as int),
        r is None ==> first_named(heads@, pat@) is None,
{
    let mut i: usize = 0;
    while i < heads.len()
        invariant
            0 <= i <= heads.len(),
            first_named(heads@.subrange(0, i as int), pat@) is None,
        decreases heads.len() - i,
    {
        let found = str_contains(heads[i].0, pat);
        proof {
            assert(heads@.subrange(0, i as int + 1).drop_last() =~= heads@.subrange(0, i as int));
        }
        if found {
            proof {
                assert(first_named(heads@.subrange(0, i as int + 1), pat@) == Some(i as int));
                lemma_first_named_prefix(heads@, i as int + 1, pat@);
            }
            return Some(i);
        }
        i = i + 1;
    }
    assert(heads@.subrange(0, heads.len() as int) =~= heads@);
    None
}

/// A match found in a prefix is the first match of the whole.
proof fn lemma_first_named_prefix(heads: Seq<(&'static str, u64)>, n: int, pat: Seq<char>)
    requires
        0 <= n <= heads.len(),
        first_named(heads.subrange(0, n), pat) is Some,
    ensures
        first_named(heads, pat) == first_named(heads.subrange(0, n), pat),
    decreases heads.len() - n,
{
    if n < heads.len() {
        assert(heads.subrange(0, n + 1).drop_last() =~= heads.subrange(0, n));
        assert(first_named(heads.subrange(0, n + 1), pat) == first_named(heads.subrange(0, n), pat));
        lemma_first_named_prefix(heads, n + 1, pat);
    } else {
        assert(heads.subrange(0, n) =~= heads);
    }
}

/// The `κ₃` cross-validation entry of one corpus.
fn h5_for_corpus(name: &str, events: &EventSet, heads: &[(&'static str, u64)]) -> (r: CrossValidationH5)
    requires
        forall|h: int| 0 <= h < heads@.len() ==> (#[trigger] heads@[h]).1 > 0,
        events.events@.len() * 10_000 <= u64::MAX,
    ensures
        h5_entry(r, name@, days_of(events.events@), heads@),
{
    let ghost days = days_of(events.events@);
    let total = events.events.len() as u64;
    let mut per_head: Vec<(String, u64)> = Vec::new();
    let mut h: usize = 0;
    while h < heads.len()
        invariant
            0 <= h <= heads.len(),
            forall|q: int| 0 <= q < heads@.len() ==> (#[trigger] heads@[q]).1 > 0,
            events.events@.len() * 10_000 <= u64::MAX,
            total == events.events@.len(),
            days == days_of(events.events@),
            per_head@.len() == h,
            forall|q: int|
                0 <= q < h ==> (#[trigger] per_head@[q]).0@ == heads@[q].0@ && per_head@[q].1 == kappa3_zero_bp(
                    days,
                    heads@[q].1,
                ),
        decreases heads.len() - h,
    {
        let cycle = heads[h].1;
        let mut zero: u64 = 0;
        let mut i: usize = 0;
        while i < events.events.len()
            invariant
                0 <= i <= events.events.len(),
                cycle > 0,
                days == days_of(events.events@),
                zero == days.subrange(0, i as int).filter(kappa3_zero_at(cycle)).len(),
                zero <= i,
            decreases events.events.len() - i,
        {
            let local = events.events[i].days_since_epoch % cycle;
            let k3 = (local / 1331) % 11;
            proof {
                assert(days[i as int] == events.events@[i as int].days_since_epoch);
                assert(days.subrange(0, i as int + 1) =~= days.subrange(0, i as int).push(days[i as int]));
                days.subrange(0, i as int).lemma_filter_push(days[i as int], kappa3_zero_at(cycle));
            }
            if k3 == 0 {
                zero = zero + 1;
            }
            i = i + 1;
        }
        proof {
            assert(days.subrange(0, events.events@.len() as int) =~= days);
            assert(zero * 10_000 <= total * 10_000) by (nonlinear_arith)
                requires
                    zero <= total,
            ;
        }
        let denom: u64 = if total > 0 {
            total
        } else {
            1
        };
        let bp = zero * 10_000 / denom;
        per_head.push((owned(heads[h].0), bp));
        h = h + 1;
    }
    let tz = find_named(heads, "Tzolkin");
    let ha = find_named(heads, "Haab");
    proof {
        lemma_first_named_range(heads@, "Tzolkin"@);
        lemma_first_named_range(heads@, "Haab"@);
    }
    let tzolkin_ok = match tz {
        Some(i) => per_head[i].1 >= 9_900,
        None => false,
    };
    let haab_ok = match ha {
        Some(i) => per_head[i].1 >= 9_900,
        None => false,
    };
    CrossValidationH5 {
        corpus_name: owned(name),
        event_count: events.events.len(),
        kappa3_zero_per_head: per_head,
        level2_prediction_holds: tzolkin_ok && haab_ok,
    }
}

/// A first match indexes a head.
proof fn lemma_first_named_range(heads: Seq<(&'static str, u64)>, pat: Seq<char>)
    ensures
        first_named(heads, pat) matches Some(i) ==> 0 <= i < heads.len(),
    decreases heads.len(),
{
    if heads.len() > 0 {
        lemma_first_named_range(heads.drop_last(), pat);
    }
}

/// The days of a set are the days it was built on.
proof fn lemma_days_of(s: Seq<CodexEvent>, days: Seq<u64>, kind: CodexEventKind, note: Seq<char>)
    requires
        events_on(s, days, kind, note),
    ensures
        days_of(s) == days,
{
    assert forall|i: int| 0 <= i < s.len() implies days_of(s)[i] == days[i] by {
        assert(event_is(s[i], days[i] as nat, kind, note));
    }
    assert(days_of(s) =~= days);
}

/// The three independent corpora over `[0, 200000)`: name and days.
#[verifier::opaque]
pub open spec fn independent_corpora() -> Seq<(Seq<char>, Seq<u64>)> {
    seq![
        ("Saros"@, saros_days(0, 200_000, 10)),
        ("Venus_GR"@, great_round_days(0, 0, 200_000)),
        ("Mars"@, progression(0, 780, 200_000)),
    ]
}

/// The non-empty corpora among the first `n` independent ones.
pub open spec fn nonempty_corpora(n: nat) -> Seq<(Seq<char>, Seq<u64>)>
    decreases n,
{
    if n == 0 {
        seq![]
    } else if independent_corpora()[n - 1].1.len() > 0 {
        nonempty_corpora((n - 1) as nat).push(independent_corpora()[n - 1])
    } else {
        nonempty_corpora((n - 1) as nat)
    }
}

/// Each of the three independent corpora over `[0, 200000)` has events.
pub proof fn lemma_corpora_nonempty()
    ensures
        nonempty_corpora(3).len() == 3,
        nonempty_corpora(3) == independent_corpora(),
{
    reveal(independent_corpora);
    let mars = progression(0, 780, 200_000);
    assert(mars.len() >= 1) by {
        assert(mars == seq![0u64] + progression(780, 780, 200_000));
    }
    let last = progression(saros_first(saros_offsets()[9] as nat, 0), 6585, 200_000);
    assert(saros_offsets()[9] == 5886);
    assert(saros_first(5886, 0) == 5886);
    assert(last.len() >= 1) by {
        assert(last == seq![5886u64] + progression(5886 + 6585, 6585, 200_000));
    }
    assert(saros_days(0, 200_000, 10) == saros_days(0, 200_000, 9) + last);
    let rd = round_days(0);
    assert(rd[0] == 0u64);
    rd.lemma_filter_contains(in_window(0, 200_000), 0);
    assert(rd.filter(in_window(0, 200_000)).len() >= 1);
    assert(great_round_days(0, 0, 200_000) == rd.filter(in_window(0, 200_000)) + great_round_days(
        2920,
        0,
        200_000,
    ));
    let ic = independent_corpora();
    assert(ic[0].1.len() > 0 && ic[1].1.len() > 0 && ic[2].1.len() > 0);
    assert(nonempty_corpora(0) =~= Seq::<(Seq<char>, Seq<u64>)>::empty());
    assert(nonempty_corpora(1) =~= seq![ic[0]]);
    assert(nonempty_corpora(2) =~= seq![ic[0], ic[1]]);
    assert(nonempty_corpora(3) =~= seq![ic[0], ic[1], ic[2]]);
    assert(ic =~= seq![ic[0], ic[1], ic[2]]);
}

/// The `κ₃` prediction on the independent corpora: for each non-empty
/// corpus and each head (name, cycle), the share of events with `κ₃ = 0`
/// at the head, and whether the Tzolk'in and Haab heads keep it at 99%.
pub fn h5_kappa3_cross_validation(heads: &[(&'static str, u64)]) -> (r: Vec<CrossValidationH5>)
    requires
        forall|h: int| 0 <= h < heads@.len() ==> (#[trigger] heads@[h]).1 > 0,
    ensures
        r@.len() == nonempty_corpora(3).len(),
        forall|k: int|
            0 <= k < r@.len() ==> h5_entry(#[trigger] r@[k], nonempty_corpora(3)[k].0, nonempty_corpora(3)[k].1, heads@),
{
    let saros = saros_eclipse_corpus(0, 200_000);
    let venus = venus_great_round_corpus(0, 200_000);
    let mars = mars_synodic_corpus(0, 200_000);
    proof {
        reveal(independent_corpora);
        lemma_days_of(saros.events@, saros_days(0, 200_000, 10), CodexEventKind::LunarEclipsePrediction, "saros-series"@);
        lemma_days_of(venus.events@, great_round_days(0, 0, 200_000), CodexEventKind::VenusHeliacalRising, "great-round"@);
        lemma_days_of(mars.events@, progression(0, 780, 200_000), CodexEventKind::MarsHeliacalEvent, "mars"@);
        lemma_saros_len(0, 200_000, 10);
        lemma_great_round_len(0, 0, 200_000);
        lemma_progression_len(0, 780, 200_000);
        assert(nonempty_corpora(0).len() == 0);
    }
    let mut out: Vec<CrossValidationH5> = Vec::new();
    if !saros.is_empty() {
        out.push(h5_for_corpus("Saros", &saros, heads));
    }
    assert(out@.len() == nonempty_corpora(1).len());
    assert(forall|k: int| 0 <= k < out@.len() ==> h5_entry(#[trigger] out@[k], nonempty_corpora(1)[k].0, nonempty_corpora(1)[k].1, heads@));
    let ghost o1 = out@;
    if !venus.is_empty() {
        out.push(h5_for_corpus("Venus_GR", &venus, heads));
    }
    proof {
        assert forall|k: int| 0 <= k < out@.len() implies h5_entry(#[trigger] out@[k], nonempty_corpora(2)[k].0, nonempty_corpora(2)[k].1, heads@) by {
            if k < o1.len() {
                assert(out@[k] == o1[k]);
            }
        }
    }
    assert(out@.len() == nonempty_corpora(2).len());
    let ghost o2 = out@;
    proof {
        reveal(independent_corpora);
        assert(independent_corpora()[2] == ("Mars"@, progression(0, 780, 200_000)));
        assert(mars.events@.len() == progression(0, 780, 200_000).len());
        assert(nonempty_corpora(3) == (if progression(0, 780, 200_000).len() > 0 {
            nonempty_corpora(2).push(("Mars"@, progression(0, 780, 200_000)))
        } else {
            nonempty_corpora(2)
        }));
    }
    if !mars.is_empty() {
        out.push(h5_for_corpus("Mars", &mars, heads));
    }
    proof {
        assert forall|k: int| 0 <= k < out@.len() implies h5_entry(#[trigger] out@[k], nonempty_corpora(3)[k].0, nonempty_corpora(3)[k].1, heads@) by {
            if k < o2.len() {
                assert(out@[k] == o2[k]);
            }
        }
    }
    out
}

/// Mutual-information cross-validation of one candidate on one corpus.
#[derive(Clone, Debug)]
pub struct CrossValidationH3 {
    pub candidate_name: String,
    pub corpus_name: String,
    /// Independence ratio on the canonical corpus (bp).
    pub canonical_ratio_bp: u64,
    /// Independence ratio on the independent corpus (bp).
    pub crossval_ratio_bp: u64,
    /// The ratio stays within a factor of two of the canonical one.
    pub stable: bool,
}

/// The candidate heads tested for independence: the Saturn `11²` head,
/// the four temperaments and the eclipse alternation (name, cycle).
pub open spec fn h3_candidate_heads() -> Seq<(Seq<char>, u64)> {
    seq![("Saturn_11²"@, 121u64), ("Temperaments"@, 4u64), ("EclipseAlt"@, 325u64)]
}

/// Candidate head `c` of `h3_candidate_heads`.
fn h3_candidate_head(c: usize) -> (h: (&'static str, u64))
    requires
        c < 3,
    ensures
        h.0@ == h3_candidate_heads()[c as int].0,
        h.1 == h3_candidate_heads()[c as int].1,
        h.1 > 0,
{
    if c == 0 {
        ("Saturn_11²", 121)
    } else if c == 1 {
        ("Temperaments", 4)
    } else {
        ("EclipseAlt", 325)
    }
}

/// The cycles of heads (name, cycle).
pub open spec fn head_cycles(heads: Seq<(&'static str, u64)>) -> Seq<u64> {
    heads.map_values(|h: (&'static str, u64)| h.1)
}

/// The `(four-head address, candidate address)` pair of each day.
pub open spec fn day_pairs(days: Seq<u64>, four: Seq<u64>, cycle: u64) -> Seq<(u64, u64)> {
    Seq::new(
        days.len(),
        |k: int| (day_address(days[k], four) as u64, day_address(days[k], seq![cycle]) as u64),
    )
}

/// The independence ratio of a candidate of cycle `cycle` on the days.
#[verifier::opaque]
pub open spec fn days_ratio(days: Seq<u64>, four: Seq<u64>, cycle: u64) -> int {
    independence_ratio_spec(joint_spec(day_pairs(days, four, cycle)))
}

/// Cross-validation row `k`: candidate `k / n` on non-empty corpus
/// `k % n` (`n` of them): names, canonical ratio and corpus ratio.
pub open spec fn h3_expected_row(four: Seq<u64>, canon: Seq<u64>, k: int) -> (Seq<char>, Seq<char>, int, int) {
    let n = nonempty_corpora(3).len() as int;
    let c = h3_candidate_heads()[k / n];
    let corpus = nonempty_corpora(3)[k % n];
    (c.0, corpus.0, days_ratio(canon, four, c.1), days_ratio(corpus.1, four, c.1))
}

/// A cross-validation row holds the ratios of `row` and its stability:
/// within half and twice the canonical ratio (plus 500 bp).
pub open spec fn row_is(r: CrossValidationH3, row: (Seq<char>, Seq<char>, int, int)) -> bool {
    &&& r.candidate_name@ == row.0
    &&& r.corpus_name@ == row.1
    &&& r.canonical_ratio_bp == row.2
    &&& r.crossval_ratio_bp == row.3
    &&& r.stable == (row.3 >= row.2 / 2 && row.3 <= row.2 * 2 + 500)
}

/// The rows are those owed for the four heads of cycles `four` with the
/// canonical corpus on days `canon`.
pub open spec fn h3_rows_are(rows: Seq<CrossValidationH3>, four: Seq<u64>, canon: Seq<u64>) -> bool {
    &&& rows.len() == 3 * nonempty_corpora(3).len()
    &&& forall|k: int| 0 <= k < rows.len() ==> row_is(#[trigger] rows[k], h3_expected_row(four, canon, k))
}

/// Event pairs depend on the events' days alone.
proof fn lemma_event_pairs_days(s: Seq<CodexEvent>, four: Seq<u64>, cycle: u64)
    ensures
        event_pairs(s, four, cycle) == day_pairs(days_of(s), four, cycle),
{
    assert(event_pairs(s, four, cycle) =~= day_pairs(days_of(s), four, cycle));
}

/// The cycles of the heads.
fn cycles_of(heads: &[(&'static str, u64)]) -> (v: Vec<u64>)
    ensures
        v@ == head_cycles(heads@),
{
    let mut v: Vec<u64> = Vec::new();
    let mut i: usize = 0;
    while i < heads.len()
        invariant
            0 <= i <= heads.len(),
            v@ == head_cycles(heads@).subrange(0, i as int),
        decreases heads.len() - i,
    {
        v.push(heads[i].1);
        i = i + 1;
        assert(v@ =~= head_cycles(heads@).subrange(0, i as int));
    }
    assert(v@ =~= head_cycles(heads@));
    v
}

/// The row of a candidate on one corpus of events.
fn h3_row_for(
    events: &EventSet,
    four: &Vec<u64>,
    name: &'static str,
    corpus_name: &'static str,
    cycle: u64,
    canon_ratio: u64,
) -> (r: CrossValidationH3)
    requires
        four@.len() * 6 <= usize::MAX,
        forall|i: int| 0 <= i < four@.len() ==> #[trigger] four@[i] > 0,
        cycle > 0,
        canon_ratio <= 10000,
    ensures
        row_is(r, (name@, corpus_name@, canon_ratio as int, days_ratio(days_of(events.events@), four@, cycle))),
{
    let x = h3_mi_report(events, four.as_slice(), name, cycle, 3_000);
    proof {
        lemma_event_pairs_days(events.events@, four@, cycle);
        reveal(days_ratio);
    }
    let x_ratio = x.independence_ratio_bp;
    let stable = x_ratio >= canon_ratio / 2 && x_ratio <= canon_ratio * 2 + 500;
    CrossValidationH3 {
        candidate_name: owned(name),
        corpus_name: owned(corpus_name),
        canonical_ratio_bp: canon_ratio,
        crossval_ratio_bp: x_ratio,
        stable,
    }
}

/// The independent corpora's facts the cross-validation relies on.
pub open spec fn corpora_are(saros: Seq<CodexEvent>, venus: Seq<CodexEvent>, mars: Seq<CodexEvent>) -> bool {
    &&& days_of(saros) == independent_corpora()[0].1
    &&& days_of(venus) == independent_corpora()[1].1
    &&& days_of(mars) == independent_corpora()[2].1
    &&& saros.len() == independent_corpora()[0].1.len()
    &&& venus.len() == independent_corpora()[1].1.len()
    &&& mars.len() == independent_corpora()[2].1.len()
    &&& independent_corpora()[0].0 == "Saros"@
    &&& independent_corpora()[1].0 == "Venus_GR"@
    &&& independent_corpora()[2].0 == "Mars"@
}

/// The row of candidate (name, cycle) on non-empty corpus `j`.
pub open spec fn candidate_row(
    name: Seq<char>,
    cycle: u64,
    four: Seq<u64>,
    canon: Seq<u64>,
    j: int,
) -> (Seq<char>, Seq<char>, int, int) {
    (name, nonempty_corpora(3)[j].0, days_ratio(canon, four, cycle), days_ratio(nonempty_corpora(3)[j].1, four, cycle))
}

/// The rows of one candidate, one per non-empty corpus.
#[verifier::rlimit(100)]
fn h3_candidate_rows(
    canonical: &EventSet,
    saros: &EventSet,
    venus: &EventSet,
    mars: &EventSet,
    four: &Vec<u64>,
    name: &'static str,
    cycle: u64,
) -> (v: Vec<CrossValidationH3>)
    requires
        four@.len() * 6 <= usize::MAX,
        forall|i: int| 0 <= i < four@.len() ==> #[trigger] four@[i] > 0,
        cycle > 0,
        corpora_are(saros.events@, venus.events@, mars.events@),
    ensures
        v@.len() == nonempty_corpora(3).len(),
        forall|j: int|
            0 <= j < v@.len() ==> row_is(
                #[trigger] v@[j],
                candidate_row(name@, cycle, four@, days_of(canonical.events@), j),
            ),
{
    let ghost canon = days_of(canonical.events@);
    let canon_report = h3_mi_report(canonical, four.as_slice(), name, cycle, 3_000);
    let canon_ratio = canon_report.independence_ratio_bp;
    proof {
        lemma_event_pairs_days(canonical.events@, four@, cycle);
        reveal(days_ratio);
    }
    let ghost rc = days_ratio(canon, four@, cycle);
    let mut v: Vec<CrossValidationH3> = Vec::new();
    let mut j: usize = 0;
    while j < 3
        invariant
            0 <= j <= 3,
            four@.len() * 6 <= usize::MAX,
            forall|i: int| 0 <= i < four@.len() ==> #[trigger] four@[i] > 0,
            cycle > 0,
            canon_ratio == rc,
            canon_ratio <= 10000,
            corpora_are(saros.events@, venus.events@, mars.events@),
            v@.len() == nonempty_corpora(j as nat).len(),
            forall|k: int|
                0 <= k < v@.len() ==> row_is(
                    #[trigger] v@[k],
                    (
                        name@,
                        nonempty_corpora(j as nat)[k].0,
                        rc,
                        days_ratio(nonempty_corpora(j as nat)[k].1, four@, cycle),
                    ),
                ),
        decreases 3 - j,
    {
        let corpus: &EventSet = if j == 0 {
            saros
        } else if j == 1 {
            venus
        } else {
            mars
        };
        let corpus_name: &'static str = if j == 0 {
            "Saros"
        } else if j == 1 {
            "Venus_GR"
        } else {
            "Mars"
        };
        assert(days_of(corpus.events@) == independent_corpora()[j as int].1);
        assert(corpus.events@.len() == independent_corpora()[j as int].1.len());
        assert(corpus_name@ == independent_corpora()[j as int].0);
        let ghost before = v@;
        if !corpus.is_empty() {
            v.push(h3_row_for(corpus, four, name, corpus_name, cycle, canon_ratio));
        }
        proof {
            let next = nonempty_corpora((j + 1) as nat);
            let prev = nonempty_corpora(j as nat);
            assert(forall|k: int| 0 <= k < prev.len() ==> next[k] == prev[k]);
            assert forall|k: int| 0 <= k < v@.len() implies row_is(
                #[trigger] v@[k],
                (name@, next[k].0, rc, days_ratio(next[k].1, four@, cycle)),
            ) by {
                if k < before.len() {
                    assert(v@[k] == before[k]);
                }
            }
        }
        j = j + 1;
    }
    v
}

/// Row `c·n + j` of the table is row `j` of candidate `c`.
proof fn lemma_row_index(k: int, n: int, c: int, j: int)
    requires
        0 <= j < n,
        0 <= c,
        k == c * n + j,
    ensures
        k / n == c,
        k % n == j,
{
    vstd::arithmetic::div_mod::lemma_fundamental_div_mod_converse(k, n, c, j);
}

/// Cross-validation of the candidate heads' independence ratios against
/// the four heads (name, cycle): for each candidate, its ratio on each
/// non-empty independent corpus over `[0, 200000)` beside its ratio on
/// the canonical corpus over the same window.
#[verifier::rlimit(40)]
pub fn h3_cross_validation(heads: &[(&'static str, u64)]) -> (r: Vec<CrossValidationH3>)
    requires
        heads@.len() * 6 <= usize::MAX,
        forall|h: int| 0 <= h < heads@.len() ==> (#[trigger] heads@[h]).1 > 0,
    ensures
        r@.len() == 9,
        exists|s: Seq<CodexEvent>|
            corpus_is(s, 0, 200_000) && #[trigger] h3_rows_are(r@, head_cycles(heads@), days_of(s)),
{
    proof {
        lemma_corpora_nonempty();
    }
    let four = cycles_of(heads);
    let canonical = EventSet::canonical_corpus(0, 200_000);
    let saros = saros_eclipse_corpus(0, 200_000);
    let venus = venus_great_round_corpus(0, 200_000);
    let mars = mars_synodic_corpus(0, 200_000);
    let ghost canon = days_of(canonical.events@);
    let ghost n = nonempty_corpora(3).len() as int;
    proof {
        lemma_days_of(saros.events@, saros_days(0, 200_000, 10), CodexEventKind::LunarEclipsePrediction, "saros-series"@);
        lemma_days_of(venus.events@, great_round_days(0, 0, 200_000), CodexEventKind::VenusHeliacalRising, "great-round"@);
        lemma_days_of(mars.events@, progression(0, 780, 200_000), CodexEventKind::MarsHeliacalEvent, "mars"@);
        assert(four@.len() == heads@.len());
        assert forall|i: int| 0 <= i < four@.len() implies #[trigger] four@[i] > 0 by {
            assert(four@[i] == heads@[i].1);
        }
        reveal(independent_corpora);
        assert(corpora_are(saros.events@, venus.events@, mars.events@));
    }
    let mut results: Vec<CrossValidationH3> = Vec::new();
    let mut c: usize = 0;
    while c < 3
        invariant
            0 <= c <= 3,
            n == nonempty_corpora(3).len(),
            four@ == head_cycles(heads@),
            four@.len() * 6 <= usize::MAX,
            forall|i: int| 0 <= i < four@.len() ==> #[trigger] four@[i] > 0,
            canon == days_of(canonical.events@),
            corpora_are(saros.events@, venus.events@, mars.events@),
            results@.len() == c * n,
            forall|k: int| 0 <= k < results@.len() ==> row_is(#[trigger] results@[k], h3_expected_row(four@, canon, k)),
        decreases 3 - c,
    {
        let (name, cycle) = h3_candidate_head(c);
        let mut rows = h3_candidate_rows(&canonical, &saros, &venus, &mars, &four, name, cycle);
        let ghost base = results@;
        let ghost added = rows@;
        results.append(&mut rows);
        proof {
            assert(results@ == base + added);
            assert((c as int + 1) * n == c * n + n) by (nonlinear_arith);
            assert forall|k: int| 0 <= k < results@.len() implies row_is(
                #[trigger] results@[k],
                h3_expected_row(four@, canon, k),
            ) by {
                if k < base.len() {
                    assert(results@[k] == base[k]);
                } else {
                    let j = k - base.len();
                    assert(results@[k] == added[j]);
                    assert(row_is(added[j], candidate_row(name@, cycle, four@, canon, j)));
                    lemma_row_index(k, n, c as int, j);
                }
            }
        }
        c = c + 1;
    }
    proof {
        assert(corpus_is(canonical.events@, 0, 200_000));
        assert(h3_rows_are(results@, head_cycles(heads@), days_of(canonical.events@)));
    }
    results
}

/// The cross-validation report.
#[derive(Clone, Debug)]
pub struct CrossValidationReport {
    pub h3_results: Vec<CrossValidationH3>,
    pub h5_results: Vec<CrossValidationH5>,
    /// Every non-Saros row is stable.
    pub h3_stable: bool,
    /// The `κ₃` prediction holds on every corpus.
    pub h5_level2_universal: bool,
}

/// Every row on a corpus other than Saros is stable.
pub open spec fn stable_beyond_saros_spec(rows: Seq<CrossValidationH3>) -> bool {
    forall|k: int| 0 <= k < rows.len() ==> (#[trigger] rows[k]).corpus_name@ != "Saros"@ ==> rows[k].stable
}

/// The `κ₃` prediction holds on every corpus.
pub open spec fn level2_everywhere_spec(rows: Seq<CrossValidationH5>) -> bool {
    forall|k: int| 0 <= k < rows.len() ==> (#[trigger] rows[k]).level2_prediction_holds
}

/// Every row on a corpus other than Saros is stable.
fn stable_beyond_saros(h3: &Vec<CrossValidationH3>) -> (b: bool)
    ensures
        b == stable_beyond_saros_spec(h3@),
{
    let mut h3_stable = true;
    let mut i: usize = 0;
    while i < h3.len()
        invariant
            0 <= i <= h3.len(),
            h3_stable == forall|k: int|
                0 <= k < i ==> (#[trigger] h3@[k]).corpus_name@ != "Saros"@ ==> h3@[k].stable,
        decreases h3.len() - i,
    {
        if !str_equal(h3[i].corpus_name.as_str(), "Saros") && !h3[i].stable {
            h3_stable = false;
        }
        i = i + 1;
    }
    h3_stable
}

/// The `κ₃` prediction holds on every corpus.
fn level2_everywhere(h5: &Vec<CrossValidationH5>) -> (b: bool)
    ensures
        b == level2_everywhere_spec(h5@),
{
    let mut universal = true;
    let mut j: usize = 0;
    while j < h5.len()
        invariant
            0 <= j <= h5.len(),
            universal == forall|k: int| 0 <= k < j ==> (#[trigger] h5@[k]).level2_prediction_holds,
        decreases h5.len() - j,
    {
        if !h5[j].level2_prediction_holds {
            universal = false;
        }
        j = j + 1;
    }
    universal
}

/// Cross-validation of the candidate heads' independence ratios and of
/// the `κ₃` prediction of the heads (name, cycle).
#[verifier::rlimit(100)]
pub fn compute_cross_validation(heads: &[(&'static str, u64)]) -> (r: CrossValidationReport)
    requires
        heads@.len() * 6 <= usize::MAX,
        forall|h: int| 0 <= h < heads@.len() ==> (#[trigger] heads@[h]).1 > 0,
    ensures
        r.h3_results@.len() == 9,
        exists|s: Seq<CodexEvent>|
            corpus_is(s, 0, 200_000) && #[trigger] h3_rows_are(r.h3_results@, head_cycles(heads@), days_of(s)),
        r.h5_results@.len() == nonempty_corpora(3).len(),
        forall|k: int|
            0 <= k < r.h5_results@.len() ==> h5_entry(
                #[trigger] r.h5_results@[k],
                nonempty_corpora(3)[k].0,
                nonempty_corpora(3)[k].1,
                heads@,
            ),
        r.h3_stable == stable_beyond_saros_spec(r.h3_results@),
        r.h5_level2_universal == level2_everywhere_spec(r.h5_results@),
{
    let h3 = h3_cross_validation(heads);
    let h5 = h5_kappa3_cross_validation(heads);
    let h3_stable = stable_beyond_saros(&h3);
    let universal = level2_everywhere(&h5);
    let ghost rows = h3@;
    let r = CrossValidationReport { h3_results: h3, h5_results: h5, h3_stable, h5_level2_universal: universal };
    proof {
        let s = choose|s: Seq<CodexEvent>| corpus_is(s, 0, 200_000) && h3_rows_are(rows, head_cycles(heads@), days_of(s));
        assert(r.h3_results@ == rows);
        assert(corpus_is(s, 0, 200_000) && h3_rows_are(r.h3_results@, head_cycles(heads@), days_of(s)));
    }
    r
}

} // verus!
