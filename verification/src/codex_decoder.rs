//! The Dresden Venus and eclipse tables as residue structures: Venus
//! table entries with their phase boundaries, the eclipse table's
//! alternating half-year sequence, and the profile records of both.

use vstd::prelude::*;
use crate::engines::dresden_eclipse::{station, lemma_stations_inside_period, lemma_station_step};
use crate::substrate::{VENUS_SYNODIC, ECLIPSE_TABLE_DAYS, VENUS_PHASES, cram_address, cram_spec,
    carry_bits, pack_carry_bits, pack_spec, carry_spec};
use crate::h5_level::{k_elim_level, level_spec};

verus! {

/// Columns of the Venus table.
pub const VENUS_COLUMNS: u64 = 5;
/// Synodic periods per column.
pub const VENUS_ROWS_PER_COLUMN: u64 = 13;
/// Synodic periods of the whole table.
pub const VENUS_TOTAL_PERIODS: u64 = 65;
/// The Venus great round, `5·584 = 8·365`.
pub const VENUS_GREAT_ROUND: u64 = 2_920;

/// Days spanned by the first `col` columns of the Venus table.
pub fn venus_column_days(col: u64) -> (d: u64)
    requires
        col * 13 * 584 <= u64::MAX,
    ensures
        d == col * 13 * 584,
{
    col * VENUS_ROWS_PER_COLUMN * VENUS_SYNODIC
}

/// One Venus synodic period of the table with its phase decomposition.
#[derive(Clone, Debug)]
pub struct VenusEntry {
    pub period_index: u64,
    pub col: u64,
    pub row: u64,
    pub start_day: u64,
    pub end_day: u64,
    /// Morning star, superior conjunction, evening star, inferior conjunction.
    pub phases: [u64; 4],
    /// Cumulative day at the end of each phase.
    pub phase_boundaries: [u64; 4],
    /// Residue address of the period's start.
    pub start_cram: [u64; 6],
    /// Level of the start day at the shadow prime.
    pub start_level_11: u32,
}

/// Days of the Venus table: 65 synodic periods.
pub const VENUS_TABLE_DAYS: u64 = 37_960;

/// Carry signature of the Tzolk'in: lanes 3, 7 and 11 active.
pub const TZOLKIN_CARRY_SIG: u8 = 26;

impl VenusEntry {
    /// Synodic period `period_index` of the table: its column and row,
    /// start and end days, phases and phase boundaries, and the residue
    /// address and level of its start within the table.
    pub fn compute(period_index: u64) -> (e: Self)
        requires
            period_index * 584 + 584 <= u64::MAX,
        ensures
            e.period_index == period_index,
            e.col == period_index / 13,
            e.row == period_index % 13,
            e.start_day == period_index * 584,
            e.end_day == e.start_day + 584,
            e.phases@ == seq![236u64, 90, 250, 8],
            e.phase_boundaries@ == seq![
                (e.start_day + 236) as u64,
                (e.start_day + 326) as u64,
                (e.start_day + 576) as u64,
                (e.start_day + 584) as u64,
            ],
            e.start_cram@ == cram_spec((e.start_day % 37_960) as u64),
            e.start_level_11 == level_spec((e.start_day % 37_960) as nat, 11),
    {
        let col = period_index / VENUS_ROWS_PER_COLUMN;
        let row = period_index % VENUS_ROWS_PER_COLUMN;
        let start = period_index * VENUS_SYNODIC;
        let end = start + VENUS_SYNODIC;
        let phases: [u64; 4] = VENUS_PHASES;
        let mut pb: [u64; 4] = [0u64; 4];
        let mut acc = start;
        let mut i: usize = 0;
        while i < 4
            invariant
                0 <= i <= 4,
                start + 584 <= u64::MAX,
                phases@ == seq![236u64, 90, 250, 8],
                acc == start + (if i == 0 {
                    0int
                } else if i == 1 {
                    236
                } else if i == 2 {
                    326
                } else if i == 3 {
                    576
                } else {
                    584
                }),
                forall|k: int| 0 <= k < i ==> pb@[k] == start + (if k == 0 {
                    236int
                } else if k == 1 {
                    326
                } else if k == 2 {
                    576
                } else {
                    584
                }),
            decreases 4 - i,
        {
            acc = acc + phases[i];
            pb.set(i, acc);
            i = i + 1;
        }
        assert(pb@ =~= seq![(start + 236) as u64, (start + 326) as u64, (start + 576) as u64, (start + 584) as u64]);
        VenusEntry {
            period_index,
            col,
            row,
            start_day: start,
            end_day: end,
            phases,
            phase_boundaries: pb,
            start_cram: cram_address(start % VENUS_TABLE_DAYS),
            start_level_11: k_elim_level(start % VENUS_TABLE_DAYS, 11),
        }
    }

    /// Day of the heliacal rising: the period's start.
    pub fn heliacal_rising_day(&self) -> (d: u64)
        ensures
            d == self.start_day,
    {
        self.start_day
    }

    /// Day of the superior conjunction: the end of the morning star.
    pub fn superior_conj_day(&self) -> (d: u64)
        ensures
            d == self.phase_boundaries@[0],
    {
        self.phase_boundaries[0]
    }

    /// First day of the evening star: the end of the superior conjunction.
    pub fn evening_first_day(&self) -> (d: u64)
        ensures
            d == self.phase_boundaries@[1],
    {
        self.phase_boundaries[1]
    }

    /// Day of the inferior conjunction: the end of the evening star.
    pub fn inferior_conj_day(&self) -> (d: u64)
        ensures
            d == self.phase_boundaries@[2],
    {
        self.phase_boundaries[2]
    }
}

/// Structural profile of the complete Venus table.
#[derive(Clone, Debug)]
pub struct VenusTableProfile {
    pub total_days: u64,
    pub total_periods: u64,
    pub carry_sig: u8,
    pub tzolkin_multiple: u64,
    pub great_round_count: u64,
    pub level_11: u32,
    /// Active Safe Basis primes.
    pub active_primes: Vec<u64>,
    /// Carry class label.
    pub carry_class: &'static str,
}

/// Interval `k` of the eclipse sequence: 177 on even `k`, 148 on odd `k`.
pub open spec fn eclipse_interval(k: int) -> u64 {
    if k % 2 == 0 {
        177
    } else {
        148
    }
}

/// The eclipse table as 73 alternating half-years and a closing 83-day
/// remainder, summing to 11,960 days.
pub open spec fn eclipse_sequence_spec() -> Seq<u64> {
    Seq::new(73, |k: int| eclipse_interval(k)).push(83)
}

/// The alternating 177/148 intervals, starting with 177, while the running
/// total stays within the 11,960-day table; the remainder closes it.
pub fn synthetic_eclipse_sequence() -> (v: Vec<u64>)
    ensures
        v@ == eclipse_sequence_spec(),
{
    let mut seq: Vec<u64> = Vec::new();
    let mut total: u64 = 0;
    let mut far_first = true;
    let mut k: u64 = 0;
    while total < ECLIPSE_TABLE_DAYS
        invariant_except_break
            k <= 73,
            total == station(k as nat),
            far_first == (k % 2 == 0),
            seq@ == Seq::new(k as nat, |j: int| eclipse_interval(j)),
        ensures
            seq@ == eclipse_sequence_spec(),
        decreases ECLIPSE_TABLE_DAYS - total,
    {
        let interval: u64 = if far_first {
            177
        } else {
            148
        };
        far_first = !far_first;
        proof {
            lemma_station_step(k as nat);
            lemma_stations_inside_period((k + 1) as nat);
        }
        if total + interval <= ECLIPSE_TABLE_DAYS {
            seq.push(interval);
            total = total + interval;
            k = k + 1;
            assert(seq@ =~= Seq::new(k as nat, |j: int| eclipse_interval(j)));
        } else {
            let remaining = ECLIPSE_TABLE_DAYS - total;
            if remaining > 0 {
                seq.push(remaining);
            }
            assert(seq@ =~= eclipse_sequence_spec());
            break;
        }
    }
    seq
}

/// Structural profile of the eclipse table.
#[derive(Clone, Debug)]
pub struct EclipseTableProfile {
    pub total_days: u64,
    pub synodic_months: u64,
    pub tzolkin_multiple: u64,
    pub carry_sig: u8,
    pub level_11: u32,
    pub active_primes: Vec<u64>,
    pub carry_class: &'static str,
    /// Number of intervals in the synthetic sequence.
    pub interval_count: usize,
    /// Count of 177-day intervals.
    pub far_count: usize,
    /// Count of 148-day intervals.
    pub near_count: usize,
    /// Residual of the synodic-month fit, in thousandths of a day.
    pub synodic_residual_milli: u64,
}

/// The prime-11 activity of one codex period.
#[derive(Clone, Debug)]
pub struct Prime11Status {
    pub section_name: &'static str,
    pub days: u64,
    /// Whether 11 does not divide the period.
    pub prime_11_active: bool,
    /// The period modulo 11.
    pub r11: u64,
    /// Whether the period shares the Tzolk'in carry class.
    pub tzolkin_class: bool,
}

/// The carry-class classification of the codex periods.
#[derive(Clone, Debug)]
pub struct CodexCarryClassification {
    /// Periods in the Tzolk'in carry class.
    pub tzolkin_class: Vec<(&'static str, u64)>,
    /// Periods outside it, with their carry signature.
    pub other_class: Vec<(&'static str, u64, u8)>,
    /// Whether prime 11 is active in every period.
    pub prime_11_universal: bool,
}

/// The major sections of the codex with their day counts.
pub open spec fn codex_sections() -> Seq<(&'static str, u64)> {
    seq![
        ("Tzolk'in (260)", 260u64),
        ("Haab (365)", 365),
        ("Venus synodic (584)", 584),
        ("Moon Goddess (1448)", 1448),
        ("Calendar Round (18980)", 18_980),
        ("Eclipse Table (11960)", 11_960),
        ("Venus Table (37960)", 37_960),
        ("Baktun (144000)", 144_000),
        ("Eclipse near (148)", 148),
        ("Eclipse far (177)", 177),
        ("Saros (6585)", 6_585),
        ("Lunar year (354)", 354),
    ]
}

/// The prime-11 status of a section.
pub open spec fn status_for(e: Prime11Status, name: &'static str, days: u64) -> bool {
    &&& e.section_name == name
    &&& e.days == days
    &&& e.r11 == days % 11
    &&& e.prime_11_active == (days % 11 != 0)
    &&& e.tzolkin_class == (pack_spec(carry_spec(days)) == TZOLKIN_CARRY_SIG)
}

/// The prime-11 status of every major section, in order; 11 is active in
/// all of them.
pub fn full_codex_prime11_table() -> (v: Vec<Prime11Status>)
    ensures
        v@.len() == 12,
        forall|k: int| 0 <= k < 12 ==> status_for(#[trigger] v@[k], codex_sections()[k].0, codex_sections()[k].1),
        forall|k: int| 0 <= k < 12 ==> (#[trigger] v@[k]).prime_11_active,
{
    let sections: [(&'static str, u64); 12] = [
        ("Tzolk'in (260)", 260),
        ("Haab (365)", 365),
        ("Venus synodic (584)", 584),
        ("Moon Goddess (1448)", 1448),
        ("Calendar Round (18980)", 18_980),
        ("Eclipse Table (11960)", 11_960),
        ("Venus Table (37960)", 37_960),
        ("Baktun (144000)", 144_000),
        ("Eclipse near (148)", 148),
        ("Eclipse far (177)", 177),
        ("Saros (6585)", 6_585),
        ("Lunar year (354)", 354),
    ];
    assert(sections@ == codex_sections());
    let mut v: Vec<Prime11Status> = Vec::new();
    let mut k: usize = 0;
    while k < 12
        invariant
            0 <= k <= 12,
            sections@ == codex_sections(),
            v@.len() == k,
            forall|q: int| 0 <= q < k ==> status_for(#[trigger] v@[q], codex_sections()[q].0, codex_sections()[q].1),
            forall|q: int| 0 <= q < k ==> (#[trigger] v@[q]).prime_11_active,
        decreases 12 - k,
    {
        let (name, days) = sections[k];
        let r11 = days % 11;
        let csig = pack_carry_bits(&carry_bits(days));
        v.push(
            Prime11Status {
                section_name: name,
                days,
                prime_11_active: r11 != 0,
                r11,
                tzolkin_class: csig == TZOLKIN_CARRY_SIG,
            },
        );
        k = k + 1;
    }
    v
}

/// Sections among the first `n` in the Tzolk'in class (`tz`) or not.
pub open spec fn sections_where(n: nat, tz: bool) -> Seq<(&'static str, u64)>
    decreases n,
{
    if n == 0 {
        seq![]
    } else {
        let prev = sections_where((n - 1) as nat, tz);
        let (name, days) = codex_sections()[n - 1];
        if (pack_spec(carry_spec(days)) == TZOLKIN_CARRY_SIG) == tz {
            prev.push((name, days))
        } else {
            prev
        }
    }
}

/// The sections split by carry class, in section order, and whether 11
/// is active in all of them (it is).
pub fn codex_carry_classification() -> (c: CodexCarryClassification)
    ensures
        c.tzolkin_class@ == sections_where(12, true),
        c.other_class@.map_values(|o: (&'static str, u64, u8)| (o.0, o.1)) == sections_where(12, false),
        forall|i: int| 0 <= i < c.other_class@.len() ==> (#[trigger] c.other_class@[i]).2 as int == pack_spec(
            carry_spec(c.other_class@[i].1),
        ),
        c.prime_11_universal,
{
    let table = full_codex_prime11_table();
    let mut tz: Vec<(&'static str, u64)> = Vec::new();
    let mut other: Vec<(&'static str, u64, u8)> = Vec::new();
    let mut all = true;
    let mut k: usize = 0;
    while k < table.len()
        invariant
            0 <= k <= table.len(),
            table@.len() == 12,
            forall|q: int| 0 <= q < 12 ==> status_for(#[trigger] table@[q], codex_sections()[q].0, codex_sections()[q].1),
            forall|q: int| 0 <= q < 12 ==> (#[trigger] table@[q]).prime_11_active,
            all,
            tz@ == sections_where(k as nat, true),
            other@.map_values(|o: (&'static str, u64, u8)| (o.0, o.1)) == sections_where(k as nat, false),
            forall|i: int| 0 <= i < other@.len() ==> (#[trigger] other@[i]).2 as int == pack_spec(carry_spec(other@[i].1)),
        decreases table.len() - k,
    {
        let e = &table[k];
        if !e.prime_11_active {
            all = false;
        }
        let ghost before = other@;
        if e.tzolkin_class {
            tz.push((e.section_name, e.days));
        } else {
            let csig = pack_carry_bits(&carry_bits(e.days));
            other.push((e.section_name, e.days, csig));
            proof {
                assert(other@.map_values(|o: (&'static str, u64, u8)| (o.0, o.1)) =~= before.map_values(
                    |o: (&'static str, u64, u8)| (o.0, o.1),
                ).push((e.section_name, e.days)));
            }
        }
        k = k + 1;
    }
    CodexCarryClassification { tzolkin_class: tz, other_class: other, prime_11_universal: all }
}

} // verus!
