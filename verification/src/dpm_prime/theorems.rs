//! The ten theorems of the stack, certified from the lemmas and direct
//! computation. The fourth is conditional: its arithmetic holds, its
//! covering-space morphism rests on infrastructure outside this library.

use vstd::prelude::*;
use crate::dpm_prime::{lemma_stack_values, TheoremResult, passes_with, lcm, lcm_spec};
use crate::dpm_prime::lemmas::{self, fail, fail_with, l1_claim, l5_claim, l6_claim, l8_claim,
    l9_claim, l10_claim};
use crate::engines::ramanujan::{gcd, gcd_spec};
use crate::h4_visual::wire::debug_list;
use crate::substrate::{BAKTUN, CALENDAR_PRIME, CALENDAR_ROUND, COUNT_819, ECLIPSE_CORRECTION,
    ECLIPSE_TABLE_DAYS, LONG_COUNT_13_BAKTUN, MARS_SYNODIC, MERCURY_SYNODIC, JUPITER_SYNODIC,
    RAMANUJAN_S_R, SATURN_SYNODIC, VENUS_SYNODIC};
use crate::text::{concat, decimal_string, decimal_text, owned};

verus! {

/// The four prime-power components of the Calendar Round.
pub open spec fn crt_components() -> Seq<u64> {
    seq![4u64, 5, 13, 73]
}

/// T1: the components are pairwise coprime and multiply to 18,980.
pub open spec fn t1_claim() -> bool {
    &&& l1_claim()
    &&& forall|i: int, j: int|
        0 <= i < j < 4 ==> gcd_spec(#[trigger] crt_components()[i] as nat, #[trigger] crt_components()[j] as nat)
            == 1
    &&& 4 * 5 * 13 * 73 == CALENDAR_ROUND
}

pub open spec fn t1_witness() -> Seq<char> {
    "CR = 18,980 = product of pairwise-coprime {4, 5, 13, 73}"@
}

/// T1: the Calendar Round as a CRT torus over `{4, 5, 13, 73}`.
pub fn t1_calendar_round_as_crt_torus() -> (r: TheoremResult)
    ensures
        t1_claim(),
        passes_with(r, t1_witness()),
{
    proof {
        lemma_stack_values();
        assert forall|i: int, j: int| 0 <= i < j < 4 implies gcd_spec(
            #[trigger] crt_components()[i] as nat,
            #[trigger] crt_components()[j] as nat,
        ) == 1 by {
            if i == 0 {
                if j == 1 {
                } else if j == 2 {
                } else {
                }
            } else if i == 1 {
                if j == 2 {
                } else {
                }
            } else {
            }
        }
    }
    let l1 = lemmas::l1_calendar_round();
    if !l1.is_pass() {
        return l1;
    }
    let components: [u64; 4] = [4, 5, 13, 73];
    assert(components@ == crt_components());
    let mut i: usize = 0;
    while i < 4
        invariant
            0 <= i <= 4,
            components@ == crt_components(),
            t1_claim(),
        decreases 4 - i,
    {
        let mut j: usize = i + 1;
        while j < 4
            invariant
                i < 4,
                i + 1 <= j <= 4,
                components@ == crt_components(),
                t1_claim(),
            decreases 4 - j,
        {
            if gcd(components[i], components[j]) != 1 {
                let a = concat("gcd(", decimal_string(components[i]).as_str());
                let b = concat(a.as_str(), ", ");
                let c = concat(b.as_str(), decimal_string(components[j]).as_str());
                return TheoremResult::Fail { reason: concat(c.as_str(), ") != 1") };
            }
            j = j + 1;
        }
        i = i + 1;
    }
    let mut conductor: u64 = 1;
    let mut k: usize = 0;
    while k < 4
        invariant
            0 <= k <= 4,
            components@ == crt_components(),
            conductor == (if k == 0 {
                1u64
            } else if k == 1 {
                4
            } else if k == 2 {
                20
            } else if k == 3 {
                260
            } else {
                18_980
            }),
        decreases 4 - k,
    {
        conductor = conductor * components[k];
        k = k + 1;
    }
    if conductor != CALENDAR_ROUND {
        return fail("conductor != 18,980");
    }
    TheoremResult::pass("CR = 18,980 = product of pairwise-coprime {4, 5, 13, 73}")
}

/// T2: among the multiples `65·m < 365`, exactly `260` has
/// `lcm(T, 365) = 18,980`, so it is the minimum.
pub open spec fn t2_claim() -> bool {
    forall|m: nat| 1 <= m <= 5 ==> (#[trigger] lcm_spec(65 * m, 365) == 18_980 <==> m == 4)
}

pub open spec fn t2_witness() -> Seq<char> {
    "260 is the unique minimum multiple of 65 < 365 with lcm·365 = 18,980"@
}

/// T2: `260` is the minimum CRT-calendar-complete cycle.
pub fn t2_tzolkin_minimum() -> (r: TheoremResult)
    ensures
        t2_claim(),
        passes_with(r, t2_witness()),
{
    proof {
        lemma_stack_values();
        assert(lcm_spec(65, 365) == 4_745 && lcm_spec(130, 365) == 9_490);
        assert(lcm_spec(195, 365) == 14_235 && lcm_spec(260, 365) == 18_980);
        assert(lcm_spec(325, 365) == 23_725);
        assert forall|m: nat| 1 <= m <= 5 implies (#[trigger] lcm_spec(65 * m, 365) == 18_980 <==> m
            == 4) by {
            if m == 1 {
                assert(65 * m == 65);
            } else if m == 2 {
                assert(65 * m == 130);
            } else if m == 3 {
                assert(65 * m == 195);
            } else if m == 4 {
                assert(65 * m == 260);
            } else {
                assert(65 * m == 325);
            }
        }
    }
    let mut candidates: Vec<u64> = Vec::new();
    let mut m: u64 = 1;
    while m <= 5
        invariant
            1 <= m <= 6,
            t2_claim(),
            candidates@ == (if m > 4 {
                seq![260u64]
            } else {
                Seq::<u64>::empty()
            }),
        decreases 6 - m,
    {
        let t = 65 * m;
        assert(lcm_spec(65 * (m as nat), 365) == 18_980 <==> m == 4);
        if lcm(t, 365) == 18_980 {
            candidates.push(t);
        }
        m = m + 1;
    }
    if candidates.len() == 0 {
        return fail("no T found");
    }
    let mut minimum = candidates[0];
    let mut i: usize = 1;
    while i < candidates.len()
        invariant
            candidates@ == seq![260u64],
            1 <= i,
            minimum == 260,
        decreases candidates.len() - i,
    {
        if candidates[i] < minimum {
            minimum = candidates[i];
        }
        i = i + 1;
    }
    if minimum != 260 {
        return fail_with("minimum is not 260: ", minimum);
    }
    TheoremResult::pass("260 is the unique minimum multiple of 65 < 365 with lcm·365 = 18,980")
}

/// `n` is divisible by 9, 7 and 13.
pub open spec fn three_tier(n: int) -> bool {
    n % 9 == 0 && n % 7 == 0 && n % 13 == 0
}

/// T3: 819 is the least positive `n` divisible by 9, 7 and 13, and
/// `lcm(lcm(9, 7), 13) = 819`.
pub open spec fn t3_claim() -> bool {
    &&& forall|n: int| 1 <= n < 819 ==> !#[trigger] three_tier(n)
    &&& three_tier(COUNT_819 as int)
    &&& lcm_spec(lcm_spec(9, 7), 13) == COUNT_819
}

pub open spec fn t3_witness() -> Seq<char> {
    "819 = lcm(9, 7, 13) = minimum n with 9|n ∧ 7|n ∧ 13|n (exhaustively excluded over 1..819)"@
}

/// A positive number divisible by 9, 7 and 13 is at least 819.
proof fn lemma_three_tier_bound(n: int)
    requires
        1 <= n,
    ensures
        three_tier(n) ==> n >= 819,
{
    if three_tier(n) {
        vstd::arithmetic::div_mod::lemma_fundamental_div_mod(n, 9);
        vstd::arithmetic::div_mod::lemma_fundamental_div_mod(n, 7);
        vstd::arithmetic::div_mod::lemma_fundamental_div_mod(n, 13);
        let a = n / 9;
        let b = n / 7;
        let d = n / 13;
        let c = 4 * b - 5 * a;
        assert(a == 7 * c);
        assert(n == 63 * c);
        assert(c == 13 * (6 * d - 29 * c));
        assert(n == 819 * (6 * d - 29 * c));
    }
}

/// T3: 819 is the three-tier product, minimal by exhaustive exclusion.
pub fn t3_819_three_tier() -> (r: TheoremResult)
    ensures
        t3_claim(),
        passes_with(r, t3_witness()),
{
    proof {
        assert forall|n: int| 1 <= n < 819 implies !#[trigger] three_tier(n) by {
            lemma_three_tier_bound(n);
        }
        lemma_stack_values();
        assert(lcm_spec(lcm_spec(9, 7), 13) == 819);
    }
    let l3 = lemmas::l3_three_tier_819();
    if !l3.is_pass() {
        return l3;
    }
    let mut n: u64 = 1;
    while n < COUNT_819
        invariant
            1 <= n <= COUNT_819,
            t3_claim(),
        decreases COUNT_819 - n,
    {
        if n % 9 == 0 && n % 7 == 0 && n % 13 == 0 {
            assert(three_tier(n as int));
            let a = concat("n = ", decimal_string(n).as_str());
            return TheoremResult::Fail {
                reason: concat(a.as_str(), " < 819 satisfies 9|n ∧ 7|n ∧ 13|n — minimality violated"),
            };
        }
        n = n + 1;
    }
    if !(COUNT_819 % 9 == 0 && COUNT_819 % 7 == 0 && COUNT_819 % 13 == 0) {
        return fail("819 should satisfy 9|n ∧ 7|n ∧ 13|n but does not");
    }
    let lcm_9_7_13 = lcm(lcm(9, 7), 13);
    if lcm_9_7_13 != COUNT_819 {
        return fail_with("lcm(9,7,13) != 819: ", lcm_9_7_13);
    }
    TheoremResult::pass(
        "819 = lcm(9, 7, 13) = minimum n with 9|n ∧ 7|n ∧ 13|n (exhaustively excluded over 1..819)",
    )
}

/// T4's arithmetic: the Long Count is `13` baktuns, and
/// `1,872,000 / 18,980` reduces by `gcd = 260` to `7200 / 73 = 98 + 46/73`.
pub open spec fn t4_claim() -> bool {
    &&& LONG_COUNT_13_BAKTUN == 13 * BAKTUN
    &&& gcd_spec(LONG_COUNT_13_BAKTUN as nat, CALENDAR_ROUND as nat) == 260
    &&& LONG_COUNT_13_BAKTUN / 260 == 7_200
    &&& CALENDAR_ROUND / 260 == 73
    &&& 7_200int % 73 == 46
    &&& 7_200int / 73 == 98
    &&& CALENDAR_ROUND * 98 + 260 * 46 == LONG_COUNT_13_BAKTUN
}

pub open spec fn t4_verified() -> Seq<char> {
    "1,872,000 = 13·Baktun; 1,872,000/18,980 = 7200/73 = 98 + 46/73; 73 ∤ 7200 (7200 mod 73 = 46), so the ratio is non-integral and Long Count is a fiber bundle over CR, not a simple multiple"@
}

pub open spec fn t4_pending() -> Seq<char> {
    "covering-space morphism Long Count → M_Fib requires FSM-PRIME infrastructure (Lean 4 / Coq) outside dccms"@
}

/// T4 is conditional, with the verified and pending texts.
pub open spec fn t4_outcome(r: TheoremResult) -> bool {
    r matches TheoremResult::Conditional { verified, pending } && verified@ == t4_verified() && pending@
        == t4_pending()
}

/// T4: the Long Count covers the Calendar Round (conditional).
pub fn t4_long_count_covers_calendar_round() -> (r: TheoremResult)
    ensures
        t4_claim(),
        t4_outcome(r),
{
    proof {
        lemma_stack_values();
        assert(gcd_spec(1_872_000, 18_980) == 260);
    }
    if LONG_COUNT_13_BAKTUN != 13 * BAKTUN {
        return fail("Long Count != 13·Baktun");
    }
    let num: u64 = LONG_COUNT_13_BAKTUN;
    let den: u64 = CALENDAR_ROUND;
    let g = gcd(num, den);
    let reduced_num = num / g;
    let reduced_den = den / g;
    if reduced_num != 7_200 || reduced_den != 73 {
        return fail("expected 7200/73 after gcd reduction");
    }
    let remainder = reduced_num % reduced_den;
    if remainder == 0 {
        return fail("expected 73 ∤ 7200, but 7200 mod 73 = 0");
    }
    if remainder != 46 {
        return fail_with("expected 7200 mod 73 = 46, got ", remainder);
    }
    let quotient = reduced_num / reduced_den;
    if quotient != 98 {
        return fail_with("expected ⌊7200/73⌋ = 98, got ", quotient);
    }
    let reconstructed = den * quotient + g * remainder;
    if reconstructed != num {
        return fail_with("CRT reconstruction failed: ", reconstructed);
    }
    TheoremResult::Conditional {
        verified: owned(
            "1,872,000 = 13·Baktun; 1,872,000/18,980 = 7200/73 = 98 + 46/73; 73 ∤ 7200 (7200 mod 73 = 46), so the ratio is non-integral and Long Count is a fiber bundle over CR, not a simple multiple",
        ),
        pending: owned(
            "covering-space morphism Long Count → M_Fib requires FSM-PRIME infrastructure (Lean 4 / Coq) outside dccms",
        ),
    }
}

/// T5: the first phase closes the 5-channel, the second the 3-channel,
/// and the two are coprime, so their lcm is their product.
pub open spec fn t5_claim() -> bool {
    &&& l5_claim()
    &&& ECLIPSE_TABLE_DAYS % 5 == 0
    &&& ECLIPSE_CORRECTION % 3 == 0
    &&& lcm_spec(ECLIPSE_TABLE_DAYS as nat, ECLIPSE_CORRECTION as nat) == ECLIPSE_TABLE_DAYS
        * ECLIPSE_CORRECTION
}

pub open spec fn t5_witness() -> Seq<char> {
    "Phase1 closes 5-channel (5|11960); Phase2 closes 3-channel (3|93); combined lcm = "@
        + decimal_text(1_112_280)
}

/// T5: the eclipse table as a two-phase lift.
pub fn t5_eclipse_two_phase_lift() -> (r: TheoremResult)
    ensures
        t5_claim(),
        passes_with(r, t5_witness()),
{
    proof {
        lemma_stack_values();
        assert(lcm_spec(11_960, 93) == 1_112_280);
    }
    let l5 = lemmas::l5_correction();
    if !l5.is_pass() {
        return l5;
    }
    if ECLIPSE_TABLE_DAYS % 5 != 0 {
        return fail("5 ∤ 11,960");
    }
    if ECLIPSE_CORRECTION % 3 != 0 {
        return fail("3 ∤ 93");
    }
    let combined = lcm(ECLIPSE_TABLE_DAYS, ECLIPSE_CORRECTION);
    if combined != ECLIPSE_TABLE_DAYS * ECLIPSE_CORRECTION {
        return fail("lcm != product (so not coprime?)");
    }
    let d = decimal_string(combined);
    TheoremResult::Pass {
        witness: concat(
            "Phase1 closes 5-channel (5|11960); Phase2 closes 3-channel (3|93); combined lcm = ",
            d.as_str(),
        ),
    }
}

/// T6: the shared factor 73 exceeds 11 and lies outside `S_R`.
pub open spec fn t6_claim() -> bool {
    &&& l6_claim()
    &&& CALENDAR_PRIME > 11
    &&& forall|k: int| 0 <= k < 3 ==> #[trigger] RAMANUJAN_S_R@[k] != CALENDAR_PRIME
}

pub open spec fn t6_witness() -> Seq<char> {
    "Venus-Sun convergence: gcd=73, lcm=2920, regime=Tier-1 turbulent"@
}

/// T6: Venus-Sun convergence through the shared factor 73.
pub fn t6_venus_sun_73() -> (r: TheoremResult)
    ensures
        t6_claim(),
        passes_with(r, t6_witness()),
{
    let l6 = lemmas::l6_venus_sun();
    if !l6.is_pass() {
        return l6;
    }
    if CALENDAR_PRIME <= 11 {
        return fail("73 should be > 11");
    }
    let mut k: usize = 0;
    while k < 3
        invariant
            0 <= k <= 3,
            t6_claim(),
        decreases 3 - k,
    {
        if RAMANUJAN_S_R[k] == CALENDAR_PRIME {
            return fail("73 should not be in S_R");
        }
        k = k + 1;
    }
    TheoremResult::pass("Venus-Sun convergence: gcd=73, lcm=2920, regime=Tier-1 turbulent")
}

/// The periods T7 checks, with their names.
pub open spec fn t7_periods() -> Seq<(u64, &'static str)> {
    seq![
        (MERCURY_SYNODIC, "T_Me"),
        (VENUS_SYNODIC, "T_V"),
        (MARS_SYNODIC, "T_Ma"),
        (JUPITER_SYNODIC, "T_J"),
        (SATURN_SYNODIC, "T_S"),
        (ECLIPSE_TABLE_DAYS, "T_E"),
        (CALENDAR_ROUND, "CR"),
        (260u64, "T_tz"),
        (COUNT_819, "T_819"),
        (365u64, "T_h"),
    ]
}

/// T7: 11 divides none of the astronomical and calendar periods.
pub open spec fn t7_claim() -> bool {
    forall|k: int| 0 <= k < 10 ==> (#[trigger] t7_periods()[k]).0 % 11 != 0
}

pub open spec fn t7_witness() -> Seq<char> {
    "11 ∤ {116, 584, 780, 399, 378, 11960, 18980, 260, 819, 365} (T_Me added v0.8.0)"@
}

/// T7: the prime 11 is astronomically absent.
pub fn t7_eleven_astronomically_absent() -> (r: TheoremResult)
    ensures
        t7_claim(),
        passes_with(r, t7_witness()),
{
    let periods: [(u64, &'static str); 10] = [
        (MERCURY_SYNODIC, "T_Me"),
        (VENUS_SYNODIC, "T_V"),
        (MARS_SYNODIC, "T_Ma"),
        (JUPITER_SYNODIC, "T_J"),
        (SATURN_SYNODIC, "T_S"),
        (ECLIPSE_TABLE_DAYS, "T_E"),
        (CALENDAR_ROUND, "CR"),
        (260u64, "T_tz"),
        (COUNT_819, "T_819"),
        (365u64, "T_h"),
    ];
    assert(periods@ == t7_periods());
    let mut k: usize = 0;
    while k < 10
        invariant
            0 <= k <= 10,
            periods@ == t7_periods(),
            forall|q: int| 0 <= q < k ==> (#[trigger] t7_periods()[q]).0 % 11 != 0,
        decreases 10 - k,
    {
        let (p, name) = periods[k];
        if p % 11 == 0 {
            let a = concat("11 | ", decimal_string(p).as_str());
            let b = concat(a.as_str(), " (");
            let c = concat(b.as_str(), name);
            return TheoremResult::Fail { reason: concat(c.as_str(), ")") };
        }
        k = k + 1;
    }
    TheoremResult::pass("11 ∤ {116, 584, 780, 399, 378, 11960, 18980, 260, 819, 365} (T_Me added v0.8.0)")
}

/// T8: the Saturn displacement is `2·11²`.
pub fn t8_saturn_shadow_power() -> (r: TheoremResult)
    ensures
        l8_claim(),
        passes_with(r, lemmas::l8_witness()),
{
    lemmas::l8_saturn_eleven_squared()
}

/// T9: the Mars displacement is one Tzolk'in.
pub fn t9_mars_closes_tzolkin() -> (r: TheoremResult)
    ensures
        l9_claim(),
        passes_with(r, lemmas::l9_witness()),
{
    lemmas::l9_mars_tzolkin()
}

/// `p` divides one of the Mars, Venus and Saturn displacements.
pub open spec fn carried(p: u64) -> bool {
    (ECLIPSE_TABLE_DAYS % MARS_SYNODIC) % p == 0 || (ECLIPSE_TABLE_DAYS % VENUS_SYNODIC) % p == 0
        || (ECLIPSE_TABLE_DAYS % SATURN_SYNODIC) % p == 0
}

/// The primes of `S_R` dividing one of the Mars, Venus and Saturn
/// displacements, in `S_R` order.
pub open spec fn displacement_primes() -> Seq<u64> {
    RAMANUJAN_S_R@.filter(|p: u64| carried(p))
}

/// T10: the displacements of Mars, Venus and Saturn together carry all
/// of `S_R = {5, 7, 11}`.
pub open spec fn t10_claim() -> bool {
    &&& l8_claim()
    &&& l9_claim()
    &&& l10_claim()
    &&& displacement_primes() == RAMANUJAN_S_R@
}

pub open spec fn t10_witness() -> Seq<char> {
    "Mars(5) ∪ Venus(5,7) ∪ Saturn(11²) = S_R = {5,7,11} (complete)"@
}

/// T10: the `S_R` distribution over the planetary displacements.
pub fn t10_s_r_distribution() -> (r: TheoremResult)
    ensures
        t10_claim(),
        passes_with(r, t10_witness()),
{
    let l8 = lemmas::l8_saturn_eleven_squared();
    let l9 = lemmas::l9_mars_tzolkin();
    let l10 = lemmas::l10_venus_five_seven();
    if !l8.is_pass() {
        return l8;
    }
    if !l9.is_pass() {
        return l9;
    }
    if !l10.is_pass() {
        return l10;
    }
    let delta_ma = ECLIPSE_TABLE_DAYS % MARS_SYNODIC;
    let delta_v = ECLIPSE_TABLE_DAYS % VENUS_SYNODIC;
    let delta_s = ECLIPSE_TABLE_DAYS % SATURN_SYNODIC;
    let ghost keep = |p: u64| carried(p);
    let mut union: Vec<u64> = Vec::new();
    let mut k: usize = 0;
    while k < 3
        invariant
            0 <= k <= 3,
            delta_ma == 260,
            delta_v == 280,
            delta_s == 242,
            keep == (|p: u64| carried(p)),
            union@ == RAMANUJAN_S_R@.subrange(0, k as int).filter(keep),
        decreases 3 - k,
    {
        let p = RAMANUJAN_S_R[k];
        let ghost before = union@;
        proof {
            assert(ECLIPSE_TABLE_DAYS % MARS_SYNODIC == 260 && ECLIPSE_TABLE_DAYS % VENUS_SYNODIC == 280
                && ECLIPSE_TABLE_DAYS % SATURN_SYNODIC == 242);
            assert(p == RAMANUJAN_S_R@[k as int]);
            assert(keep(p) == (delta_ma % p == 0 || delta_v % p == 0 || delta_s % p == 0));
            assert(RAMANUJAN_S_R@.subrange(0, k as int + 1) =~= RAMANUJAN_S_R@.subrange(0, k as int).push(p));
            RAMANUJAN_S_R@.subrange(0, k as int).lemma_filter_push(p, keep);
        }
        if delta_ma % p == 0 || delta_v % p == 0 || delta_s % p == 0 {
            union.push(p);
            assert(union@ == before.push(p));
        }
        assert(union@ == RAMANUJAN_S_R@.subrange(0, k as int + 1).filter(keep));
        k = k + 1;
    }
    proof {
        lemma_stack_values();
        assert(RAMANUJAN_S_R@.subrange(0, 3) =~= RAMANUJAN_S_R@);
        reveal_with_fuel(vstd::seq::Seq::filter, 4);
        assert(RAMANUJAN_S_R@ =~= seq![5u64, 7, 11]);
        assert(seq![5u64, 7, 11].drop_last() =~= seq![5u64, 7]);
        assert(seq![5u64, 7].drop_last() =~= seq![5u64]);
        assert(seq![5u64].drop_last() =~= Seq::<u64>::empty());
        assert(displacement_primes() =~= RAMANUJAN_S_R@);
    }
    let same = union.len() == 3 && union[0] == RAMANUJAN_S_R[0] && union[1] == RAMANUJAN_S_R[1]
        && union[2] == RAMANUJAN_S_R[2];
    if !same {
        let a = concat("S_R union ", debug_list(union.as_slice()).as_str());
        let b = concat(a.as_str(), " != ");
        let s_r: [u64; 3] = RAMANUJAN_S_R;
        return TheoremResult::Fail { reason: concat(b.as_str(), debug_list(&s_r).as_str()) };
    }
    TheoremResult::pass("Mars(5) ∪ Venus(5,7) ∪ Saturn(11²) = S_R = {5,7,11} (complete)")
}

} // verus!
