//! Generator-predicted candidate heads: the cycles the bilinear generator
//! produces beyond those already tested, each turned into a head and
//! run through the DKAM pre-filter and the independence test.
//!
//! A head is given by its name and its phase intervals.

use vstd::prelude::*;
use crate::h1_stage8::{SEED, has_cycle, period_view, distinct_cycles, cycles_increasing,
    same_periods, covers, covered, contains_cycle, sort_by_cycle};
use crate::h5_level::{k_elim_level, level_spec};
use crate::substrate::{cram_address, cram_spec, nullified_lanes, nullified_spec};
use crate::text::{concat, decimal_string, decimal_text, owned};
use crate::dkam_filter::DkamFilter;
use crate::h3_mi::{h3_mi_report_for_pairs, joint_spec, independence_ratio_spec, event_address_pairs, event_pairs};
use crate::events::{CodexEvent, EventSet};

verus! {

/// A generator-predicted candidate cycle with its provenance.
#[derive(Clone, Debug)]
pub struct GeneratorCandidate {
    pub cycle: u64,
    pub generator_path: String,
    /// Astronomical name, if known.
    pub astro_name: &'static str,
    /// Level at the shadow prime 11.
    pub level_11: u32,
    /// Residue address over the Safe Basis.
    pub cram: [u64; 6],
    /// Safe Basis primes dividing the cycle.
    pub nullified: Vec<u64>,
}

/// The fields of a candidate that follow from its cycle.
pub open spec fn candidate_fields(c: GeneratorCandidate) -> bool {
    &&& c.level_11 == level_spec(c.cycle as nat, 11)
    &&& c.cram@ == cram_spec(c.cycle)
    &&& c.nullified@ == nullified_spec(c.cycle)
}

impl GeneratorCandidate {
    /// The candidate of a cycle with its generator path and name.
    pub fn new(cycle: u64, path: &str, name: &'static str) -> (c: Self)
        ensures
            c.cycle == cycle,
            c.generator_path@ == path@,
            c.astro_name == name,
            candidate_fields(c),
    {
        GeneratorCandidate {
            cycle,
            generator_path: owned(path),
            astro_name: name,
            level_11: k_elim_level(cycle, 11),
            cram: cram_address(cycle),
            nullified: nullified_lanes(cycle),
        }
    }
}

/// The cycles already tested: the earlier candidates and the canonical
/// heads.
pub open spec fn already_tested() -> Seq<u64> {
    seq![121u64, 28, 325, 584, 819, 360, 260, 365, 18_980, 144_000]
}

/// The multipliers of the generator.
pub open spec fn candidate_multipliers() -> Seq<u64> {
    seq![2u64, 3, 4, 5, 6, 7, 8, 9, 11, 12, 13, 14, 17, 18, 19, 20, 73]
}

/// The bases of the uniform rule.
pub open spec fn candidate_bases() -> Seq<u64> {
    seq![20u64, 73, 260, 365, 360, 520]
}

/// The intercalary units.
pub open spec fn intercalary_units() -> Seq<u64> {
    seq![3u64, 5, 7, 11, 13]
}

/// Astronomical name of a candidate cycle.
pub open spec fn astro_name_spec(c: u64) -> &'static str {
    if c == 140 {
        "7-winal quarter"
    } else if c == 173 {
        "half-eclipse"
    } else if c == 220 {
        "11-winal"
    } else if c == 260 {
        "Tzolk'in"
    } else if c == 365 {
        "Haab"
    } else if c == 520 {
        "double-Tzolk'in"
    } else if c == 584 {
        "Venus synodic"
    } else if c == 780 {
        "Mars synodic"
    } else if c == 803 {
        "11×73"
    } else if c == 949 {
        "13×73"
    } else if c == 1460 {
        "4-year"
    } else if c == 1820 {
        "7 Tzolk'ins"
    } else if c == 2920 {
        "Venus Great Round"
    } else if c == 2860 {
        "11 Tzolk'ins"
    } else if c == 4015 {
        "11×365"
    } else if c == 4745 {
        "13×365"
    } else {
        "generator-predicted"
    }
}

/// Astronomical name of a candidate cycle.
fn astro_name(c: u64) -> (n: &'static str)
    ensures
        n == astro_name_spec(c),
{
    match c {
        140 => "7-winal quarter",
        173 => "half-eclipse",
        220 => "11-winal",
        260 => "Tzolk'in",
        365 => "Haab",
        520 => "double-Tzolk'in",
        584 => "Venus synodic",
        780 => "Mars synodic",
        803 => "11×73",
        949 => "13×73",
        1460 => "4-year",
        1820 => "7 Tzolk'ins",
        2920 => "Venus Great Round",
        2860 => "11 Tzolk'ins",
        4015 => "11×365",
        4745 => "13×365",
        _ => "generator-predicted",
    }
}

/// The uniform path `G(n, b)`.
pub open spec fn uniform_path(n: u64, b: u64) -> Seq<char> {
    "G("@ + decimal_text(n as nat) + ", "@ + decimal_text(b as nat) + ")"@
}

/// The intercalary path `G(n, 20, 1, u)`.
pub open spec fn intercalary_path(n: u64, u: u64) -> Seq<char> {
    "G("@ + decimal_text(n as nat) + ", 20, 1, "@ + decimal_text(u as nat) + ")"@
}

/// The `t`-th generated cycle within `max`: the uniform products `n·b`
/// (multipliers outer, bases inner), then the intercalary cycles
/// `20n + u` for the multipliers up to 25.
pub open spec fn h3_candidate(max: u64, t: int) -> Option<(&'static str, u64, Seq<char>)> {
    if 0 <= t < 102 {
        let n = candidate_multipliers()[t / 6];
        let b = candidate_bases()[t % 6];
        let c = n * b;
        if 0 < c <= max {
            Some((astro_name_spec(c as u64), c as u64, uniform_path(n, b)))
        } else {
            None
        }
    } else if 102 <= t < 182 {
        let n = candidate_multipliers()[(t - 102) / 5];
        let u = intercalary_units()[(t - 102) % 5];
        let c = 20 * n + u;
        if 0 < c <= max {
            Some((astro_name_spec(c as u64), c as u64, intercalary_path(n, u)))
        } else {
            None
        }
    } else {
        None
    }
}

/// The candidates kept from the first `t` generated cycles: each new
/// cycle not already tested, at its first occurrence.
pub open spec fn h3_collected(max: u64, t: nat) -> Seq<(&'static str, u64, Seq<char>)>
    decreases t,
{
    if t == 0 {
        seq![]
    } else {
        let prev = h3_collected(max, (t - 1) as nat);
        match h3_candidate(max, t - 1) {
            Some(e) => if already_tested().contains(e.1) || has_cycle(prev, e.1) {
                prev
            } else {
                prev.push(e)
            },
            None => prev,
        }
    }
}

/// Whether `c` was already tested.
fn is_already_tested(c: u64) -> (b: bool)
    ensures
        b == already_tested().contains(c),
{
    let tested: [u64; 10] = [121, 28, 325, 584, 819, 360, 260, 365, 18_980, 144_000];
    assert(tested@ == already_tested());
    let mut i: usize = 0;
    while i < 10
        invariant
            0 <= i <= 10,
            tested@ == already_tested(),
            forall|j: int| 0 <= j < i ==> tested@[j] != c,
        decreases 10 - i,
    {
        if tested[i] == c {
            assert(already_tested()[i as int] == c);
            return true;
        }
        i = i + 1;
    }
    false
}

/// Keeps candidate `e` unless its cycle was tested or is already kept.
fn keep_candidate(periods: &mut Vec<(&'static str, u64, String)>, e: (&'static str, u64, String))
    requires
        distinct_cycles(old(periods)@),
    ensures
        distinct_cycles(final(periods)@),
        final(periods)@.map_values(|x: (&'static str, u64, String)| period_view(x)) == (if already_tested().contains(e.1)
            || has_cycle(old(periods)@.map_values(|x: (&'static str, u64, String)| period_view(x)), e.1) {
            old(periods)@.map_values(|x: (&'static str, u64, String)| period_view(x))
        } else {
            old(periods)@.map_values(|x: (&'static str, u64, String)| period_view(x)).push(period_view(e))
        }),
{
    if !is_already_tested(e.1) && !contains_cycle(periods, e.1) {
        let ghost before = periods@;
        periods.push(e);
        proof {
            assert(periods@.map_values(|x: (&'static str, u64, String)| period_view(x)) =~= before.map_values(
                |x: (&'static str, u64, String)| period_view(x),
            ).push(period_view(e)));
            assert forall|i: int, j: int| 0 <= i < j < periods@.len() implies periods@[i].1 != periods@[j].1 by {
                if j == before.len() {
                    assert(before.map_values(|x: (&'static str, u64, String)| period_view(x))[i].1 == before[i].1);
                }
            }
        }
    }
}

/// The generated candidates within `max_cycle`, before ordering.
fn collect_candidates(max_cycle: u64) -> (periods: Vec<(&'static str, u64, String)>)
    ensures
        distinct_cycles(periods@),
        periods@.map_values(|x: (&'static str, u64, String)| period_view(x)) == h3_collected(max_cycle, 182),
{
    let multipliers: [u64; 17] = [2, 3, 4, 5, 6, 7, 8, 9, 11, 12, 13, 14, 17, 18, 19, 20, 73];
    let bases: [u64; 6] = [SEED, 73, 260, 365, 360, 520];
    let units: [u64; 5] = [3, 5, 7, 11, 13];
    assert(multipliers@ == candidate_multipliers());
    assert(bases@ == candidate_bases());
    assert(units@ == intercalary_units());
    let mut periods: Vec<(&'static str, u64, String)> = Vec::new();
    assert(periods@.map_values(|x: (&'static str, u64, String)| period_view(x)) =~= h3_collected(max_cycle, 0));
    let mut mi: usize = 0;
    while mi < 17
        invariant
            0 <= mi <= 17,
            multipliers@ == candidate_multipliers(),
            bases@ == candidate_bases(),
            distinct_cycles(periods@),
            periods@.map_values(|x: (&'static str, u64, String)| period_view(x)) == h3_collected(
                max_cycle,
                (mi * 6) as nat,
            ),
        decreases 17 - mi,
    {
        let mut bi: usize = 0;
        while bi < 6
            invariant
                0 <= mi < 17,
                0 <= bi <= 6,
                multipliers@ == candidate_multipliers(),
                bases@ == candidate_bases(),
                distinct_cycles(periods@),
                periods@.map_values(|x: (&'static str, u64, String)| period_view(x)) == h3_collected(
                    max_cycle,
                    (mi * 6 + bi) as nat,
                ),
            decreases 6 - bi,
        {
            let n = multipliers[mi];
            let b = bases[bi];
            let ghost t: int = (mi * 6 + bi) as int;
            proof {
                assert(t / 6 == mi as int && t % 6 == bi as int);
                assert(n <= 73 && b <= 520);
                assert(n * b <= 73 * 520) by (nonlinear_arith)
                    requires
                        n <= 73,
                        b <= 520,
                ;
            }
            let c = n * b;
            if c > 0 && c <= max_cycle {
                let a1 = concat("G(", decimal_string(n).as_str());
                let a2 = concat(a1.as_str(), ", ");
                let a3 = concat(a2.as_str(), decimal_string(b).as_str());
                let path = concat(a3.as_str(), ")");
                keep_candidate(&mut periods, (astro_name(c), c, path));
            }
            bi = bi + 1;
        }
        mi = mi + 1;
    }
    let mut ni: usize = 0;
    while ni < 16
        invariant
            0 <= ni <= 16,
            multipliers@ == candidate_multipliers(),
            units@ == intercalary_units(),
            distinct_cycles(periods@),
            periods@.map_values(|x: (&'static str, u64, String)| period_view(x)) == h3_collected(
                max_cycle,
                (102 + ni * 5) as nat,
            ),
        decreases 16 - ni,
    {
        let mut ui: usize = 0;
        while ui < 5
            invariant
                0 <= ni < 16,
                0 <= ui <= 5,
                multipliers@ == candidate_multipliers(),
                units@ == intercalary_units(),
                distinct_cycles(periods@),
                periods@.map_values(|x: (&'static str, u64, String)| period_view(x)) == h3_collected(
                    max_cycle,
                    (102 + ni * 5 + ui) as nat,
                ),
            decreases 5 - ui,
        {
            let n = multipliers[ni];
            let u = units[ui];
            let ghost t: int = (102 + ni * 5 + ui) as int;
            proof {
                assert((t - 102) / 5 == ni as int && (t - 102) % 5 == ui as int);
            }
            let c = n * SEED + u;
            if c > 0 && c <= max_cycle {
                let a1 = concat("G(", decimal_string(n).as_str());
                let a2 = concat(a1.as_str(), ", 20, 1, ");
                let a3 = concat(a2.as_str(), decimal_string(u).as_str());
                let path = concat(a3.as_str(), ")");
                keep_candidate(&mut periods, (astro_name(c), c, path));
            }
            ui = ui + 1;
        }
        ni = ni + 1;
    }
    periods
}

/// The generator-predicted candidates within `max_cycle`, by increasing
/// cycle: every product `n·b` and intercalary cycle `20n + u` not already
/// tested, each cycle once with its first derivation.
pub fn enumerate_generator_candidates(max_cycle: u64) -> (v: Vec<GeneratorCandidate>)
    ensures
        enumerated(max_cycle, v@),
{
    let v = enumerate_candidates_sorted(max_cycle);
    v
}

/// The candidates of the generator within `max_cycle`, as
/// `enumerate_generator_candidates` gives them: the collected periods by
/// increasing cycle, each with its derived fields.
pub open spec fn enumerated(max_cycle: u64, v: Seq<GeneratorCandidate>) -> bool {
    &&& exists|p: Seq<(&'static str, u64, String)>|
        {
            &&& cycles_increasing(p)
            &&& same_periods(p, h3_collected(max_cycle, 182))
            &&& v.len() == p.len()
            &&& forall|i: int|
                0 <= i < p.len() ==> {
                    &&& (#[trigger] v[i]).astro_name == p[i].0
                    &&& v[i].cycle == p[i].1
                    &&& v[i].generator_path@ == p[i].2@
                }
        }
    &&& forall|i: int| 0 <= i < v.len() ==> candidate_fields(#[trigger] v[i])
}

fn enumerate_candidates_sorted(max_cycle: u64) -> (v: Vec<GeneratorCandidate>)
    ensures
        exists|p: Seq<(&'static str, u64, String)>|
            {
                &&& cycles_increasing(p)
                &&& same_periods(p, h3_collected(max_cycle, 182))
                &&& v@.len() == p.len()
                &&& forall|i: int|
                    0 <= i < p.len() ==> {
                        &&& (#[trigger] v@[i]).astro_name == p[i].0
                        &&& v@[i].cycle == p[i].1
                        &&& v@[i].generator_path@ == p[i].2@
                    }
            },
        forall|i: int| 0 <= i < v@.len() ==> candidate_fields(#[trigger] v@[i]),
{
    let periods = collect_candidates(max_cycle);
    let sorted = sort_by_cycle(periods);
    let mut out: Vec<GeneratorCandidate> = Vec::new();
    let mut i: usize = 0;
    while i < sorted.len()
        invariant
            0 <= i <= sorted.len(),
            out@.len() == i,
            forall|k: int|
                0 <= k < i ==> {
                    &&& (#[trigger] out@[k]).astro_name == sorted@[k].0
                    &&& out@[k].cycle == sorted@[k].1
                    &&& out@[k].generator_path@ == sorted@[k].2@
                    &&& candidate_fields(out@[k])
                },
        decreases sorted.len() - i,
    {
        let c = GeneratorCandidate::new(sorted[i].1, sorted[i].2.as_str(), sorted[i].0);
        out.push(c);
        i = i + 1;
    }
    proof {
        assert(out_matches(out@, sorted@));
    }
    out
}

/// Candidate `k` of `v` carries the name, cycle and path of period `k`.
spec fn out_matches(v: Seq<GeneratorCandidate>, p: Seq<(&'static str, u64, String)>) -> bool {
    &&& v.len() == p.len()
    &&& forall|i: int|
        0 <= i < p.len() ==> {
            &&& (#[trigger] v[i]).astro_name == p[i].0
            &&& v[i].cycle == p[i].1
            &&& v[i].generator_path@ == p[i].2@
        }
}

/// `c` has the Unicode `White_Space` property.
pub open spec fn is_ws(c: char) -> bool {
    ('\u{9}' <= c <= '\u{d}') || c == ' ' || c == '\u{85}' || c == '\u{a0}' || c == '\u{1680}' || (
    '\u{2000}' <= c <= '\u{200a}') || c == '\u{2028}' || c == '\u{2029}' || c == '\u{202f}' || c
        == '\u{205f}' || c == '\u{3000}'
}

/// Whether `c` is white space.
fn white_space(c: char) -> (b: bool)
    ensures
        b == is_ws(c),
{
    ('\u{9}' <= c && c <= '\u{d}') || c == ' ' || c == '\u{85}' || c == '\u{a0}' || c == '\u{1680}'
        || ('\u{2000}' <= c && c <= '\u{200a}') || c == '\u{2028}' || c == '\u{2029}' || c == '\u{202f}'
        || c == '\u{205f}' || c == '\u{3000}'
}

/// `s` with every leading `"G("` removed.
pub open spec fn strip_g(s: Seq<char>) -> Seq<char>
    decreases s.len(),
{
    if s.len() >= 2 && s[0] == 'G' && s[1] == '(' {
        strip_g(s.skip(2))
    } else {
        s
    }
}

/// `s` with every trailing `')'` removed.
pub open spec fn strip_close(s: Seq<char>) -> Seq<char>
    decreases s.len(),
{
    if s.len() > 0 && s.last() == ')' {
        strip_close(s.drop_last())
    } else {
        s
    }
}

/// `s` split at each comma (an empty text gives one empty piece).
pub open spec fn split_commas(s: Seq<char>) -> Seq<Seq<char>>
    decreases s.len(),
{
    if s.len() == 0 {
        seq![seq![]]
    } else {
        let p = split_commas(s.drop_last());
        if s.last() == ',' {
            p.push(seq![])
        } else {
            p.update(p.len() - 1, p.last().push(s.last()))
        }
    }
}

/// `s` without leading white space.
pub open spec fn trim_start(s: Seq<char>) -> Seq<char>
    decreases s.len(),
{
    if s.len() > 0 && is_ws(s[0]) {
        trim_start(s.skip(1))
    } else {
        s
    }
}

/// `s` without trailing white space.
pub open spec fn trim_end(s: Seq<char>) -> Seq<char>
    decreases s.len(),
{
    if s.len() > 0 && is_ws(s.last()) {
        trim_end(s.drop_last())
    } else {
        s
    }
}

/// `c` is an ASCII digit.
pub open spec fn is_digit(c: char) -> bool {
    '0' <= c <= '9'
}

/// The value of a run of ASCII digits.
pub open spec fn digits_value(s: Seq<char>) -> nat
    decreases s.len(),
{
    if s.len() == 0 {
        0
    } else {
        digits_value(s.drop_last()) * 10 + ((s.last() as nat) - ('0' as nat)) as nat
    }
}

/// An unsigned decimal: an optional `'+'`, then at least one ASCII digit,
/// with a value that fits in `u64`.
pub open spec fn parse_u64(s: Seq<char>) -> Option<u64> {
    let d = digits_part(s);
    if d.len() > 0 && all_digits(d) && digits_value(d) <= u64::MAX {
        Some(digits_value(d) as u64)
    } else {
        None
    }
}

/// `s` without one leading `'+'`.
pub open spec fn digits_part(s: Seq<char>) -> Seq<char> {
    if s.len() > 0 && s[0] == '+' {
        s.skip(1)
    } else {
        s
    }
}

/// Every character of `d` is an ASCII digit.
pub open spec fn all_digits(d: Seq<char>) -> bool {
    forall|i: int| 0 <= i < d.len() ==> is_digit(#[trigger] d[i])
}

/// The numbers among the trimmed pieces, in order.
pub open spec fn numbers_of(pieces: Seq<Seq<char>>) -> Seq<u64>
    decreases pieces.len(),
{
    if pieces.len() == 0 {
        seq![]
    } else {
        let prev = numbers_of(pieces.drop_last());
        match parse_u64(trim_end(trim_start(pieces.last()))) {
            Some(n) => prev.push(n),
            None => prev,
        }
    }
}

/// The numbers of a generator path `G(a, b, ...)`.
pub open spec fn path_numbers(path: Seq<char>) -> Seq<u64> {
    numbers_of(split_commas(strip_close(strip_g(path))))
}

/// A path `G(n, base, 1, inter)`: at least four numbers, the third 1.
pub open spec fn is_intercalary_path(nums: Seq<u64>) -> bool {
    nums.len() >= 4 && nums[2] == 1
}

/// The phase intervals read from a candidate's path: `n` phases of `base`
/// then one of `inter` for an intercalary path `G(n, base, 1, inter)`
/// (`0 < n ≤ 100`, `base > 0`), `n` phases of `base` for a uniform path
/// `G(n, base)` (`0 < n ≤ 500`, `base > 0`), and else the cycle as one
/// phase.
pub open spec fn phases_from_path(path: Seq<char>, cycle: u64) -> Seq<u64> {
    let nums = path_numbers(path);
    if is_intercalary_path(nums) {
        if nums.len() >= 4 && nums[0] > 0 && nums[1] > 0 && nums[0] <= 100 {
            Seq::new(nums[0] as nat, |i: int| nums[1]).push(nums[3])
        } else {
            seq![cycle]
        }
    } else {
        if nums.len() >= 2 && nums[0] > 0 && nums[1] > 0 && nums[0] <= 500 {
            Seq::new(nums[0] as nat, |i: int| nums[1])
        } else {
            seq![cycle]
        }
    }
}

/// The characters of a string.
fn chars_of(s: &str) -> (v: Vec<char>)
    ensures
        v@ == s@,
{
    let n = s.unicode_len();
    let mut v: Vec<char> = Vec::new();
    let mut i: usize = 0;
    while i < n
        invariant
            n == s@.len(),
            0 <= i <= n,
            v@ == s@.subrange(0, i as int),
        decreases n - i,
    {
        v.push(s.get_char(i));
        i = i + 1;
        assert(v@ =~= s@.subrange(0, i as int));
    }
    assert(s@.subrange(0, n as int) =~= s@);
    v
}

/// Parses one piece `c[a..b]`: trimmed, then an unsigned decimal.
fn parse_piece(c: &Vec<char>, a: usize, b: usize) -> (r: Option<u64>)
    requires
        a <= b <= c@.len(),
    ensures
        r == parse_u64(trim_end(trim_start(c@.subrange(a as int, b as int)))),
{
    let mut lo = a;
    while lo < b && white_space(c[lo])
        invariant
            a <= lo <= b <= c@.len(),
            trim_start(c@.subrange(a as int, b as int)) == trim_start(c@.subrange(lo as int, b as int)),
        decreases b - lo,
    {
        assert(c@.subrange(lo as int, b as int).skip(1) =~= c@.subrange(lo + 1, b as int));
        lo = lo + 1;
    }
    let mut hi = b;
    proof {
        assert(trim_start(c@.subrange(lo as int, b as int)) == c@.subrange(lo as int, b as int));
    }
    while hi > lo && white_space(c[hi - 1])
        invariant
            a <= lo <= hi <= b <= c@.len(),
            trim_end(c@.subrange(lo as int, b as int)) == trim_end(c@.subrange(lo as int, hi as int)),
        decreases hi - lo,
    {
        assert(c@.subrange(lo as int, hi as int).drop_last() =~= c@.subrange(lo as int, hi - 1));
        hi = hi - 1;
    }
    let ghost t = c@.subrange(lo as int, hi as int);
    proof {
        assert(trim_end(c@.subrange(lo as int, hi as int)) == t);
    }
    let mut start = lo;
    if lo < hi && c[lo] == '+' {
        start = lo + 1;
    }
    let ghost d = c@.subrange(start as int, hi as int);
    proof {
        if t.len() > 0 && t[0] == '+' {
            assert(t.skip(1) =~= d);
        } else {
            assert(t =~= d);
        }
    }
    if start >= hi {
        return None;
    }
    let mut value: u64 = 0;
    let mut fits = true;
    let mut k = start;
    while k < hi
        invariant
            start <= k <= hi <= c@.len(),
            start < hi,
            d == c@.subrange(start as int, hi as int),
            trim_end(trim_start(c@.subrange(a as int, b as int))) == t,
            t.len() > 0 && t[0] == '+' ==> t.skip(1) == d,
            !(t.len() > 0 && t[0] == '+') ==> t == d,
            forall|i: int| start <= i < k ==> is_digit(#[trigger] c@[i]),
            fits ==> value == digits_value(c@.subrange(start as int, k as int)),
            !fits ==> digits_value(c@.subrange(start as int, k as int)) > u64::MAX,
        decreases hi - k,
    {
        let ch = c[k];
        if !('0' <= ch && ch <= '9') {
            proof {
                let j: int = k as int - start as int;
                assert(d[j] == c@[k as int]);
                assert(!is_digit(d[j]));
                assert(!(forall|i: int| 0 <= i < d.len() ==> is_digit(#[trigger] d[i])));
                assert(digits_part(t) == d);
                assert(!all_digits(d));
            }
            return None;
        }
        let digit = (ch as u32 - '0' as u32) as u64;
        let ghost pre = c@.subrange(start as int, k as int);
        proof {
            assert(c@.subrange(start as int, k + 1).drop_last() =~= pre);
            assert(c@.subrange(start as int, k + 1).last() == ch);
            assert(digits_value(c@.subrange(start as int, k + 1)) == digits_value(pre) * 10 + digit);
        }
        if fits {
            match value.checked_mul(10) {
                Some(m) => match m.checked_add(digit) {
                    Some(v2) => {
                        value = v2;
                    },
                    None => {
                        fits = false;
                    },
                },
                None => {
                    fits = false;
                    assert(digits_value(pre) * 10 + digit > u64::MAX);
                },
            }
        } else {
            assert(digits_value(pre) * 10 + digit >= digits_value(pre)) by (nonlinear_arith)
                requires
                    digits_value(pre) >= 0,
                    digit >= 0,
            ;
        }
        k = k + 1;
    }
    proof {
        assert(forall|i: int| 0 <= i < d.len() ==> is_digit(#[trigger] d[i]) && d[i] == c@[start + i]);
        assert(all_digits(d));
        assert(digits_part(t) == d);
    }
    if fits {
        Some(value)
    } else {
        None
    }
}

/// The numbers of a generator path.
fn read_path_numbers(path: &str) -> (v: Vec<u64>)
    ensures
        v@ == path_numbers(path@),
{
    let c = chars_of(path);
    let mut start: usize = 0;
    proof {
        assert(c@.skip(0) =~= c@);
    }
    while c.len() >= 2 && start <= c.len() - 2 && c[start] == 'G' && c[start + 1] == '('
        invariant
            c@ == path@,
            start <= c@.len(),
            strip_g(path@) == strip_g(c@.skip(start as int)),
        decreases c.len() - start,
    {
        assert(c@.skip(start as int).skip(2) =~= c@.skip(start + 2));
        start = start + 2;
    }
    proof {
        assert(strip_g(c@.skip(start as int)) == c@.skip(start as int));
        assert(c@.skip(start as int) =~= c@.subrange(start as int, c@.len() as int));
    }
    let mut end = c.len();
    while end > start && c[end - 1] == ')'
        invariant
            c@ == path@,
            start <= end <= c@.len(),
            strip_close(strip_g(path@)) == strip_close(c@.subrange(start as int, end as int)),
        decreases end - start,
    {
        assert(c@.subrange(start as int, end as int).drop_last() =~= c@.subrange(start as int, end - 1));
        end = end - 1;
    }
    let ghost body = c@.subrange(start as int, end as int);
    proof {
        assert(strip_close(body) == body);
    }
    let mut nums: Vec<u64> = Vec::new();
    let mut piece_start = start;
    let mut i = start;
    while i < end
        invariant
            start <= piece_start <= i <= end <= c@.len(),
            body == c@.subrange(start as int, end as int),
            split_commas(c@.subrange(start as int, i as int)).last() == c@.subrange(piece_start as int, i as int),
            nums@ == numbers_of(split_commas(c@.subrange(start as int, i as int)).drop_last()),
            split_commas(c@.subrange(start as int, i as int)).len() >= 1,
        decreases end - i,
    {
        let ghost pre = c@.subrange(start as int, i as int);
        let ghost next = c@.subrange(start as int, i + 1);
        proof {
            assert(next.drop_last() =~= pre);
            assert(next.last() == c@[i as int]);
        }
        if c[i] == ',' {
            let r = parse_piece(&c, piece_start, i);
            let ghost before = nums@;
            match r {
                Some(n) => {
                    nums.push(n);
                },
                None => {},
            }
            proof {
                let p = split_commas(pre);
                assert(split_commas(next) == p.push(seq![]));
                assert(split_commas(next).drop_last() =~= p);
                assert(p.drop_last() =~= split_commas(pre).drop_last());
            }
            piece_start = i + 1;
            proof {
                assert(c@.subrange(piece_start as int, i + 1) =~= Seq::<char>::empty());
            }
        } else {
            proof {
                let p = split_commas(pre);
                assert(split_commas(next) == p.update(p.len() - 1, p.last().push(c@[i as int])));
                assert(split_commas(next).drop_last() =~= p.drop_last());
                assert(c@.subrange(piece_start as int, i + 1) =~= c@.subrange(piece_start as int, i as int).push(
                    c@[i as int],
                ));
            }
        }
        i = i + 1;
    }
    let last = parse_piece(&c, piece_start, end);
    proof {
        let p = split_commas(body);
        assert(c@.subrange(start as int, end as int) == body);
        assert(p =~= p.drop_last().push(p.last()));
    }
    match last {
        Some(n) => {
            nums.push(n);
        },
        None => {},
    }
    nums
}

/// A head built from a candidate: its name and phase intervals, read from
/// the generator path.
pub fn head_from_generator_candidate(cand: &GeneratorCandidate) -> (h: (&'static str, Vec<u64>))
    ensures
        h.0 == cand.astro_name,
        h.1@ == phases_from_path(cand.generator_path@, cand.cycle),
{
    let path = cand.generator_path.as_str();
    let nums = read_path_numbers(path);
    let intercalary = nums.len() >= 4 && nums[2] == 1;
    let mut phases: Vec<u64> = Vec::new();
    if intercalary {
        if nums.len() >= 4 && nums[0] > 0 && nums[1] > 0 && nums[0] <= 100 {
            let n_reg = nums[0];
            let base = nums[1];
            let mut k: u64 = 0;
            while k < n_reg
                invariant
                    k <= n_reg,
                    phases@ == Seq::new(k as nat, |i: int| base),
                decreases n_reg - k,
            {
                phases.push(base);
                k = k + 1;
                assert(phases@ =~= Seq::new(k as nat, |i: int| base));
            }
            phases.push(nums[3]);
            return (cand.astro_name, phases);
        }
    } else {
        if nums.len() >= 2 && nums[0] > 0 && nums[1] > 0 && nums[0] <= 500 {
            let n = nums[0];
            let base = nums[1];
            let mut k: u64 = 0;
            while k < n
                invariant
                    k <= n,
                    phases@ == Seq::new(k as nat, |i: int| base),
                decreases n - k,
            {
                phases.push(base);
                k = k + 1;
                assert(phases@ =~= Seq::new(k as nat, |i: int| base));
            }
            return (cand.astro_name, phases);
        }
    }
    phases.push(cand.cycle);
    assert(phases@ =~= seq![cand.cycle]);
    (cand.astro_name, phases)
}

/// One tested candidate.
#[derive(Clone, Debug)]
pub struct H3ExtendedEntry {
    pub cycle: u64,
    pub generator_path: String,
    pub astro_name: &'static str,
    pub level_11: u32,
    pub dkam_admissible: bool,
    /// Independence ratio (bp), `None` when DKAM excludes the candidate.
    pub independence_ratio_bp: Option<u64>,
    pub h3_admissible: bool,
}

/// The extended independence test over the candidates.
#[derive(Clone, Debug)]
pub struct H3ExtendedReport {
    pub entries: Vec<H3ExtendedEntry>,
    /// Candidates passing both DKAM and the independence threshold.
    pub newly_admissible: Vec<(u64, String)>,
    /// Number of candidates tested.
    pub tested: usize,
    /// Number passing DKAM.
    pub dkam_pass: usize,
    /// Number passing the independence test.
    pub h3_pass: usize,
}

/// The entry owed for candidate `c` whose events give the address pairs
/// `pairs`: DKAM always admits it (its degree is at most 2), and the
/// independence ratio is that of the pairs' joint table.
pub open spec fn entry_for(e: H3ExtendedEntry, c: GeneratorCandidate, pairs: Seq<(u64, u64)>, threshold: u64) -> bool {
    let ratio = independence_ratio_spec(joint_spec(pairs));
    &&& e.cycle == c.cycle
    &&& e.generator_path@ == c.generator_path@
    &&& e.astro_name == c.astro_name
    &&& e.level_11 == c.level_11
    &&& e.dkam_admissible
    &&& e.independence_ratio_bp == Some(ratio as u64)
    &&& e.h3_admissible == (ratio >= threshold)
}

/// The per-event pairs of candidate `k`: those given, or none.
pub open spec fn pairs_at(pairs_of: Seq<Vec<(u64, u64)>>, k: int) -> Seq<(u64, u64)> {
    if k < pairs_of.len() {
        pairs_of[k]@
    } else {
        seq![]
    }
}

/// Runs the extended test over the candidates: each becomes a head, goes
/// through the canonical DKAM filter and, when admitted, through the
/// independence test on its `(four-head address, candidate address)`
/// event pairs (`pairs_of[k]` for candidate `k`, none when absent).
pub fn compute_h3_extended_for_pairs(
    candidates: &[GeneratorCandidate],
    pairs_of: &[Vec<(u64, u64)>],
    h3_threshold_bp: u64,
) -> (r: H3ExtendedReport)
    ensures
        r.entries@.len() == candidates@.len(),
        forall|k: int|
            0 <= k < candidates@.len() ==> entry_for(
                #[trigger] r.entries@[k],
                candidates@[k],
                pairs_at(pairs_of@, k),
                h3_threshold_bp,
            ),
        r.tested == candidates@.len(),
        r.dkam_pass == candidates@.len(),
        r.h3_pass == r.entries@.filter(|e: H3ExtendedEntry| e.h3_admissible).len(),
        r.h3_pass <= r.dkam_pass,
        r.newly_admissible@.len() == r.h3_pass,
        r.newly_admissible@.map_values(|p: (u64, String)| (p.0, p.1@)) == r.entries@.filter(
            |e: H3ExtendedEntry| e.h3_admissible,
        ).map_values(|e: H3ExtendedEntry| (e.cycle, e.generator_path@)),
{
    let filter = DkamFilter::canonical();
    let empty: Vec<(u64, u64)> = Vec::new();
    let mut entries: Vec<H3ExtendedEntry> = Vec::new();
    let mut newly: Vec<(u64, String)> = Vec::new();
    let mut dkam_pass: usize = 0;
    let mut h3_pass: usize = 0;
    let ghost keep = |e: H3ExtendedEntry| e.h3_admissible;
    let mut k: usize = 0;
    while k < candidates.len()
        invariant
            0 <= k <= candidates.len(),
            filter.rho == 3,
            filter.max_degree == 2,
            empty@.len() == 0,
            keep == (|e: H3ExtendedEntry| e.h3_admissible),
            entries@.len() == k,
            forall|q: int|
                0 <= q < k ==> entry_for(#[trigger] entries@[q], candidates@[q], pairs_at(pairs_of@, q), h3_threshold_bp),
            dkam_pass == k,
            h3_pass == entries@.filter(keep).len(),
            h3_pass <= k,
            newly@.len() == h3_pass,
            newly@.map_values(|p: (u64, String)| (p.0, p.1@)) == entries@.filter(keep).map_values(
                |e: H3ExtendedEntry| (e.cycle, e.generator_path@),
            ),
        decreases candidates.len() - k,
    {
        let cand = &candidates[k];
        let head = head_from_generator_candidate(cand);
        let rep = filter.evaluate(head.0, cand.cycle);
        let dkam_ok = rep.admissible;
        let pairs: &[(u64, u64)] = if k < pairs_of.len() {
            pairs_of[k].as_slice()
        } else {
            empty.as_slice()
        };
        assert(pairs@ == pairs_at(pairs_of@, k as int));
        let (ratio_bp, h3_ok) = if dkam_ok {
            let report = h3_mi_report_for_pairs(pairs, head.0, cand.cycle, h3_threshold_bp);
            (Some(report.independence_ratio_bp), report.admissible)
        } else {
            (None, false)
        };
        let e = H3ExtendedEntry {
            cycle: cand.cycle,
            generator_path: cand.generator_path.clone(),
            astro_name: cand.astro_name,
            level_11: cand.level_11,
            dkam_admissible: dkam_ok,
            independence_ratio_bp: ratio_bp,
            h3_admissible: h3_ok,
        };
        let ghost before = entries@;
        let ghost newly_before = newly@;
        entries.push(e);
        proof {
            before.lemma_filter_push(e, keep);
            assert(entries@ =~= before.push(e));
        }
        if h3_ok {
            newly.push((cand.cycle, cand.generator_path.clone()));
            h3_pass = h3_pass + 1;
            proof {
                assert(newly@.map_values(|p: (u64, String)| (p.0, p.1@)) =~= newly_before.map_values(
                    |p: (u64, String)| (p.0, p.1@),
                ).push((e.cycle, e.generator_path@)));
                assert(before.filter(keep).push(e).map_values(|x: H3ExtendedEntry| (x.cycle, x.generator_path@))
                    =~= before.filter(keep).map_values(|x: H3ExtendedEntry| (x.cycle, x.generator_path@)).push(
                    (e.cycle, e.generator_path@),
                ));
            }
        }
        if dkam_ok {
            dkam_pass = dkam_pass + 1;
        }
        k = k + 1;
    }
    let tested = entries.len();
    H3ExtendedReport { entries, newly_admissible: newly, tested, dkam_pass, h3_pass }
}

/// The event pairs of a candidate of cycle `cycle`: none for a cycle of 0.
pub open spec fn candidate_pairs(events: Seq<CodexEvent>, four: Seq<u64>, cycle: u64) -> Seq<(u64, u64)> {
    if cycle > 0 {
        event_pairs(events, four, cycle)
    } else {
        seq![]
    }
}

/// The report owed over candidates `cs`, candidate `k` tested on the
/// pairs `pairs(k)`.
pub open spec fn extended_report(
    r: H3ExtendedReport,
    cs: Seq<GeneratorCandidate>,
    events: Seq<CodexEvent>,
    four: Seq<u64>,
    threshold: u64,
) -> bool {
    &&& r.entries@.len() == cs.len()
    &&& forall|k: int|
        0 <= k < cs.len() ==> entry_for(
            #[trigger] r.entries@[k],
            cs[k],
            candidate_pairs(events, four, cs[k].cycle),
            threshold,
        )
    &&& r.tested == cs.len()
    &&& r.dkam_pass == cs.len()
    &&& r.h3_pass == r.entries@.filter(|e: H3ExtendedEntry| e.h3_admissible).len()
    &&& r.h3_pass <= r.dkam_pass
    &&& r.newly_admissible@.len() == r.h3_pass
    &&& r.newly_admissible@.map_values(|p: (u64, String)| (p.0, p.1@)) == r.entries@.filter(
        |e: H3ExtendedEntry| e.h3_admissible,
    ).map_values(|e: H3ExtendedEntry| (e.cycle, e.generator_path@))
}

/// The extended independence test: every generator candidate within
/// `max_cycle` becomes a head, passes the canonical DKAM filter and is
/// tested for independence from the four heads of cycles `four` on the
/// events, each event addressed by its day.
pub fn compute_h3_extended(events: &EventSet, four: &[u64], max_cycle: u64, h3_threshold_bp: u64) -> (r:
    H3ExtendedReport)
    requires
        four@.len() * 6 <= usize::MAX,
        forall|i: int| 0 <= i < four@.len() ==> #[trigger] four@[i] > 0,
    ensures
        exists|cs: Seq<GeneratorCandidate>|
            enumerated(max_cycle, cs) && #[trigger] extended_report(r, cs, events.events@, four@, h3_threshold_bp),
{
    let cands = enumerate_generator_candidates(max_cycle);
    let mut pairs_of: Vec<Vec<(u64, u64)>> = Vec::new();
    let mut k: usize = 0;
    while k < cands.len()
        invariant
            0 <= k <= cands.len(),
            four@.len() * 6 <= usize::MAX,
            forall|i: int| 0 <= i < four@.len() ==> #[trigger] four@[i] > 0,
            pairs_of@.len() == k,
            forall|q: int| 0 <= q < k ==> (#[trigger] pairs_of@[q])@ == candidate_pairs(
                events.events@,
                four@,
                cands@[q].cycle,
            ),
        decreases cands.len() - k,
    {
        let c = cands[k].cycle;
        if c > 0 {
            pairs_of.push(event_address_pairs(events, four, c));
        } else {
            pairs_of.push(Vec::new());
        }
        k = k + 1;
    }
    let r = compute_h3_extended_for_pairs(cands.as_slice(), pairs_of.as_slice(), h3_threshold_bp);
    proof {
        assert forall|q: int| 0 <= q < cands@.len() implies pairs_at(pairs_of@, q) == candidate_pairs(
            events.events@,
            four@,
            cands@[q].cycle,
        ) by {}
        assert(extended_report(r, cands@, events.events@, four@, h3_threshold_bp));
    }
    r
}

/// The kept candidates have pairwise distinct cycles.
proof fn lemma_h3_collected_distinct(max: u64, t: nat)
    ensures
        forall|i: int, j: int|
            0 <= i < j < h3_collected(max, t).len() ==> (#[trigger] h3_collected(max, t)[i]).1
                != (#[trigger] h3_collected(max, t)[j]).1,
    decreases t,
{
    if t > 0 {
        lemma_h3_collected_distinct(max, (t - 1) as nat);
        let prev = h3_collected(max, (t - 1) as nat);
        match h3_candidate(max, t - 1) {
            Some(e) => {
                if !(already_tested().contains(e.1) || has_cycle(prev, e.1)) {
                    let next = prev.push(e);
                    assert forall|i: int, j: int| 0 <= i < j < next.len() implies (#[trigger] next[i]).1
                        != (#[trigger] next[j]).1 by {
                        if j == prev.len() {
                            assert(next[i] == prev[i]);
                            if prev[i].1 == e.1 {
                                assert(has_cycle(prev, e.1));
                            }
                        } else {
                            assert(next[i] == prev[i] && next[j] == prev[j]);
                        }
                    }
                }
            },
            None => {},
        }
    }
}

/// Two strictly increasing sequences holding the same values are equal,
/// position by position.
proof fn lemma_increasing_unique(a: Seq<u64>, b: Seq<u64>, i: int)
    requires
        a.len() == b.len(),
        forall|x: int, y: int| 0 <= x < y < a.len() ==> a[x] < a[y],
        forall|x: int, y: int| 0 <= x < y < b.len() ==> b[x] < b[y],
        forall|k: int| 0 <= k < a.len() ==> b.contains(#[trigger] a[k]),
        forall|k: int| 0 <= k < b.len() ==> a.contains(#[trigger] b[k]),
        0 <= i <= a.len(),
    ensures
        forall|k: int| 0 <= k < i ==> #[trigger] a[k] == b[k],
    decreases i,
{
    if i > 0 {
        let n = i - 1;
        lemma_increasing_unique(a, b, n);
        if a[n] < b[n] {
            assert(b.contains(a[n]));
            let j = choose|l: int| 0 <= l < b.len() && b[l] == a[n];
            if j >= n {
                assert(b[n] <= b[j]);
            } else {
                assert(a[j] == b[j]);
                assert(a[j] < a[n]);
            }
        } else if b[n] < a[n] {
            assert(a.contains(b[n]));
            let j = choose|l: int| 0 <= l < a.len() && a[l] == b[n];
            if j >= n {
                assert(a[n] <= a[j]);
            } else {
                assert(a[j] == b[j]);
                assert(b[j] < b[n]);
            }
        }
    }
}

/// The cycles of a period list.
pub open spec fn cycles_of_periods(p: Seq<(&'static str, u64, String)>) -> Seq<u64> {
    p.map_values(|e: (&'static str, u64, String)| e.1)
}

/// A list meeting the enumeration's characterization: ordered by cycle
/// and holding exactly the kept candidates.
pub open spec fn sorted_candidates(p: Seq<(&'static str, u64, String)>, max_cycle: u64) -> bool {
    cycles_increasing(p) && same_periods(p, h3_collected(max_cycle, 182))
}

/// Each cycle of one list of the periods of `ov` is a cycle of another.
proof fn lemma_same_cycles(
    p1: Seq<(&'static str, u64, String)>,
    p2: Seq<(&'static str, u64, String)>,
    ov: Seq<(&'static str, u64, Seq<char>)>,
)
    requires
        same_periods(p1, ov),
        same_periods(p2, ov),
    ensures
        forall|k: int| 0 <= k < p1.len() ==> cycles_of_periods(p2).contains(#[trigger] cycles_of_periods(p1)[k]),
{
    let c1 = cycles_of_periods(p1);
    let c2 = cycles_of_periods(p2);
    assert forall|k: int| 0 <= k < p1.len() implies c2.contains(#[trigger] c1[k]) by {
        let j = lemma_covers_at(p1, ov, k);
        let l = lemma_covered_at(p2, ov, j);
        assert(c2[l] == c1[k]);
    }
}

/// A period of a covering list is some period of `ov`.
proof fn lemma_covers_at(s: Seq<(&'static str, u64, String)>, ov: Seq<(&'static str, u64, Seq<char>)>, i: int) -> (j: int)
    requires
        covers(s, ov, 0),
        0 <= i < s.len(),
    ensures
        0 <= j < ov.len(),
        period_view(s[i]) == ov[j],
{
    reveal(crate::h1_stage8::covers);
    choose|j: int| 0 <= j < ov.len() && period_view(s[i]) == ov[j]
}

/// A period of `ov` is some period of a covered list.
proof fn lemma_covered_at(s: Seq<(&'static str, u64, String)>, ov: Seq<(&'static str, u64, Seq<char>)>, j: int) -> (i: int)
    requires
        covered(s, ov, 0),
        0 <= j < ov.len(),
    ensures
        0 <= i < s.len(),
        period_view(s[i]) == ov[j],
{
    reveal(crate::h1_stage8::covered);
    choose|i: int| 0 <= i < s.len() && period_view(s[i]) == ov[j]
}

/// Two lists ordered by strictly increasing cycle, each holding exactly
/// the periods of `ov` (whose cycles are distinct), agree period by
/// period.
proof fn lemma_sorted_periods_unique(
    p1: Seq<(&'static str, u64, String)>,
    p2: Seq<(&'static str, u64, String)>,
    ov: Seq<(&'static str, u64, Seq<char>)>,
)
    requires
        cycles_increasing(p1),
        cycles_increasing(p2),
        same_periods(p1, ov),
        same_periods(p2, ov),
        forall|i: int, j: int| 0 <= i < j < ov.len() ==> (#[trigger] ov[i]).1 != (#[trigger] ov[j]).1,
    ensures
        p1.len() == p2.len(),
        forall|i: int| 0 <= i < p1.len() ==> period_view(#[trigger] p1[i]) == period_view(p2[i]),
{
    let c1 = cycles_of_periods(p1);
    let c2 = cycles_of_periods(p2);
    lemma_same_cycles(p1, p2, ov);
    lemma_same_cycles(p2, p1, ov);
    assert forall|x: int, y: int| 0 <= x < y < c1.len() implies c1[x] < c1[y] by {
        assert(p1[x].1 < p1[y].1);
    }
    assert forall|x: int, y: int| 0 <= x < y < c2.len() implies c2[x] < c2[y] by {
        assert(p2[x].1 < p2[y].1);
    }
    lemma_increasing_unique(c1, c2, c1.len() as int);
    assert forall|i: int| 0 <= i < p1.len() implies period_view(#[trigger] p1[i]) == period_view(p2[i]) by {
        assert(c1[i] == c2[i]);
        let j1 = lemma_covers_at(p1, ov, i);
        let j2 = lemma_covers_at(p2, ov, i);
        if j1 < j2 {
            assert(ov[j1].1 != ov[j2].1);
        } else if j2 < j1 {
            assert(ov[j2].1 != ov[j1].1);
        }
    }
}

/// Two lists meeting the enumeration's characterization agree period by
/// period.
proof fn lemma_sorted_candidates_unique(
    max_cycle: u64,
    p1: Seq<(&'static str, u64, String)>,
    p2: Seq<(&'static str, u64, String)>,
)
    requires
        sorted_candidates(p1, max_cycle),
        sorted_candidates(p2, max_cycle),
    ensures
        p1.len() == p2.len(),
        forall|i: int| 0 <= i < p1.len() ==> period_view(#[trigger] p1[i]) == period_view(p2[i]),
{
    lemma_h3_collected_distinct(max_cycle, 182);
    lemma_sorted_periods_unique(p1, p2, h3_collected(max_cycle, 182));
}

/// The enumeration is determined by the bound: two candidate lists that
/// both meet `enumerated(max_cycle, ·)` agree field by field.
pub proof fn lemma_enumeration_unique(max_cycle: u64, v1: Seq<GeneratorCandidate>, v2: Seq<GeneratorCandidate>)
    requires
        enumerated(max_cycle, v1),
        enumerated(max_cycle, v2),
    ensures
        v1.len() == v2.len(),
        forall|i: int|
            0 <= i < v1.len() ==> {
                &&& (#[trigger] v1[i]).cycle == v2[i].cycle
                &&& v1[i].astro_name == v2[i].astro_name
                &&& v1[i].generator_path@ == v2[i].generator_path@
                &&& v1[i].level_11 == v2[i].level_11
                &&& v1[i].cram@ == v2[i].cram@
                &&& v1[i].nullified@ == v2[i].nullified@
            },
{
    let p1 = choose|p: Seq<(&'static str, u64, String)>|
        {
            &&& cycles_increasing(p)
            &&& same_periods(p, h3_collected(max_cycle, 182))
            &&& v1.len() == p.len()
            &&& forall|i: int|
                0 <= i < p.len() ==> {
                    &&& (#[trigger] v1[i]).astro_name == p[i].0
                    &&& v1[i].cycle == p[i].1
                    &&& v1[i].generator_path@ == p[i].2@
                }
        };
    let p2 = choose|p: Seq<(&'static str, u64, String)>|
        {
            &&& cycles_increasing(p)
            &&& same_periods(p, h3_collected(max_cycle, 182))
            &&& v2.len() == p.len()
            &&& forall|i: int|
                0 <= i < p.len() ==> {
                    &&& (#[trigger] v2[i]).astro_name == p[i].0
                    &&& v2[i].cycle == p[i].1
                    &&& v2[i].generator_path@ == p[i].2@
                }
        };
    lemma_sorted_candidates_unique(max_cycle, p1, p2);
    assert forall|i: int| 0 <= i < v1.len() implies {
        &&& (#[trigger] v1[i]).cycle == v2[i].cycle
        &&& v1[i].astro_name == v2[i].astro_name
        &&& v1[i].generator_path@ == v2[i].generator_path@
        &&& v1[i].level_11 == v2[i].level_11
        &&& v1[i].cram@ == v2[i].cram@
        &&& v1[i].nullified@ == v2[i].nullified@
    } by {
        assert(period_view(p1[i]) == period_view(p2[i]));
        assert(candidate_fields(v1[i]) && candidate_fields(v2[i]));
    }
}

} // verus!
