//! The ten lemmas of the stack, each a short integer identity.

use vstd::prelude::*;
use crate::dpm_prime::{lemma_stack_values, TheoremResult, passes_with, lcm, lcm_spec};
use crate::engines::ramanujan::{gcd, gcd_spec};
use crate::substrate::{COUNT_819, ECLIPSE_TABLE_DAYS, EPOCH_33_YEAR, ECLIPSE_CORRECTION,
    VENUS_SYNODIC, MARS_SYNODIC, JUPITER_SYNODIC, SATURN_SYNODIC, CALENDAR_PRIME, VENUS_HAAB_LCM};
use crate::text::{concat, decimal_string, decimal_text, owned};

verus! {

/// A failing result with the given reason.
pub(crate) fn fail(reason: &str) -> (r: TheoremResult)
    ensures
        r matches TheoremResult::Fail { reason: t } && t@ == reason@,
{
    TheoremResult::Fail { reason: owned(reason) }
}

/// A failing result whose reason is `prefix` followed by `n` in decimal.
pub(crate) fn fail_with(prefix: &str, n: u64) -> (r: TheoremResult)
    ensures
        r matches TheoremResult::Fail { reason: t } && t@ == prefix@ + decimal_text(n as nat),
{
    let d = decimal_string(n);
    TheoremResult::Fail { reason: concat(prefix, d.as_str()) }
}

/// L1: `lcm(260, 365) = 18,980 = 2²·5·13·73` and `gcd(260, 365) = 5`.
pub open spec fn l1_claim() -> bool {
    &&& lcm_spec(260, 365) == 18_980
    &&& 18_980 == 4 * 5 * 13 * 73
    &&& gcd_spec(260, 365) == 5
}

pub open spec fn l1_witness() -> Seq<char> {
    "18,980 = 2²·5·13·73; gcd(260,365)=5"@
}

/// Certifies the Calendar Round factorization.
pub fn l1_calendar_round() -> (r: TheoremResult)
    ensures
        l1_claim(),
        passes_with(r, l1_witness()),
{
    proof {
        lemma_stack_values();
        assert(l1_claim());
    }
    let cr = lcm(260, 365);
    if cr != 18_980 {
        return fail_with("lcm(260,365) = ", cr);
    }
    if cr != 4 * 5 * 13 * 73 {
        return fail("factorization");
    }
    if gcd(260, 365) != 5 {
        return fail("gcd");
    }
    TheoremResult::pass("18,980 = 2²·5·13·73; gcd(260,365)=5")
}

pub open spec fn l2_witness() -> Seq<char> {
    "260 = 4·5·13"@
}

/// L2: `260 = 2²·5·13`.
pub fn l2_tzolkin() -> (r: TheoremResult)
    ensures
        260 == 4 * 5 * 13,
        passes_with(r, l2_witness()),
{
    TheoremResult::pass("260 = 4·5·13")
}

/// L3: `819 = 3²·7·13`.
pub open spec fn l3_claim() -> bool {
    COUNT_819 == 9 * 7 * 13 && COUNT_819 == 3 * 3 * 7 * 13
}

pub open spec fn l3_witness() -> Seq<char> {
    "819 = 3²·7·13 (stability_floor² · last_S_R · boundary)"@
}

/// Certifies the three-tier product of the 819-day count.
pub fn l3_three_tier_819() -> (r: TheoremResult)
    ensures
        l3_claim(),
        passes_with(r, l3_witness()),
{
    if COUNT_819 != 9 * 7 * 13 {
        return fail("819");
    }
    if COUNT_819 != 3 * 3 * 7 * 13 {
        return fail("tier");
    }
    TheoremResult::pass("819 = 3²·7·13 (stability_floor² · last_S_R · boundary)")
}

/// L4: `11,960 = 46·260`.
pub open spec fn l4_claim() -> bool {
    ECLIPSE_TABLE_DAYS % 260 == 0 && ECLIPSE_TABLE_DAYS == 46 * 260
}

pub open spec fn l4_witness() -> Seq<char> {
    "11,960 = 46·260 (Tzolk'in-aligned)"@
}

/// Certifies that the eclipse table is a whole number of Tzolk'in.
pub fn l4_eclipse_tzolkin() -> (r: TheoremResult)
    ensures
        l4_claim(),
        passes_with(r, l4_witness()),
{
    if ECLIPSE_TABLE_DAYS % 260 != 0 {
        return fail("not divisible");
    }
    if ECLIPSE_TABLE_DAYS != 46 * 260 {
        return fail("not 46·260");
    }
    TheoremResult::pass("11,960 = 46·260 (Tzolk'in-aligned)")
}

/// L5: the 33-year correction `12,053 − 11,960 = 93 = 3·31` is coprime
/// to the table.
pub open spec fn l5_claim() -> bool {
    &&& EPOCH_33_YEAR - ECLIPSE_TABLE_DAYS == ECLIPSE_CORRECTION
    &&& ECLIPSE_CORRECTION == 3 * 31
    &&& gcd_spec(ECLIPSE_TABLE_DAYS as nat, ECLIPSE_CORRECTION as nat) == 1
}

pub open spec fn l5_witness() -> Seq<char> {
    "93 = 3·31, gcd(11960,93) = 1 (coprime two-phase lift)"@
}

/// Certifies the 33-year correction.
pub fn l5_correction() -> (r: TheoremResult)
    ensures
        l5_claim(),
        passes_with(r, l5_witness()),
{
    proof {
        lemma_stack_values();
        assert(gcd_spec(11_960, 93) == 1);
    }
    let t_c = EPOCH_33_YEAR - ECLIPSE_TABLE_DAYS;
    if t_c != ECLIPSE_CORRECTION {
        return fail("T_C");
    }
    if t_c != 3 * 31 {
        return fail("93=3·31");
    }
    if gcd(ECLIPSE_TABLE_DAYS, t_c) != 1 {
        return fail("not coprime");
    }
    TheoremResult::pass("93 = 3·31, gcd(11960,93) = 1 (coprime two-phase lift)")
}

/// L6: `gcd(584, 365) = 73` and `lcm(584, 365) = 2920 = 8·5·73`.
pub open spec fn l6_claim() -> bool {
    &&& gcd_spec(VENUS_SYNODIC as nat, 365) == CALENDAR_PRIME
    &&& lcm_spec(VENUS_SYNODIC as nat, 365) == VENUS_HAAB_LCM
    &&& VENUS_HAAB_LCM == 8 * 5 * 73
}

pub open spec fn l6_witness() -> Seq<char> {
    "gcd(584,365)=73; lcm=2920=8·5·73"@
}

/// Certifies the factor Venus and the Haab share.
pub fn l6_venus_sun() -> (r: TheoremResult)
    ensures
        l6_claim(),
        passes_with(r, l6_witness()),
{
    proof {
        lemma_stack_values();
        assert(gcd_spec(584, 365) == 73 && lcm_spec(584, 365) == 2_920);
    }
    if gcd(VENUS_SYNODIC, 365) != CALENDAR_PRIME {
        return fail("gcd != 73");
    }
    if lcm(VENUS_SYNODIC, 365) != VENUS_HAAB_LCM {
        return fail("lcm != 2920");
    }
    if VENUS_HAAB_LCM != 8 * 5 * 73 {
        return fail("factorization");
    }
    TheoremResult::pass("gcd(584,365)=73; lcm=2920=8·5·73")
}

/// The standard synodic periods of Venus, Mars, Jupiter and Saturn.
pub open spec fn synodic_periods() -> Seq<u64> {
    seq![VENUS_SYNODIC, MARS_SYNODIC, JUPITER_SYNODIC, SATURN_SYNODIC]
}

/// L7: 11 divides none of the standard synodic periods.
pub open spec fn l7_claim() -> bool {
    forall|k: int| 0 <= k < 4 ==> #[trigger] synodic_periods()[k] % 11 != 0
}

pub open spec fn l7_witness() -> Seq<char> {
    "11 ∤ {584, 780, 399, 378}"@
}

/// Certifies that no synodic period carries the prime 11.
pub fn l7_no_synodic_carries_11() -> (r: TheoremResult)
    ensures
        l7_claim(),
        passes_with(r, l7_witness()),
{
    let periods: [u64; 4] = [VENUS_SYNODIC, MARS_SYNODIC, JUPITER_SYNODIC, SATURN_SYNODIC];
    assert(periods@ == synodic_periods());
    let mut i: usize = 0;
    while i < 4
        invariant
            0 <= i <= 4,
            periods@ == synodic_periods(),
        decreases 4 - i,
    {
        let p = periods[i];
        if p % 11 == 0 {
            return fail_with("11 | ", p);
        }
        i = i + 1;
    }
    TheoremResult::pass("11 ∤ {584, 780, 399, 378}")
}

/// L8: the Saturn displacement `11,960 mod 378 = 242 = 2·11²`.
pub open spec fn l8_claim() -> bool {
    &&& ECLIPSE_TABLE_DAYS % SATURN_SYNODIC == 242
    &&& 242 == 2 * 121
    &&& 242int % 121 == 0
}

pub open spec fn l8_witness() -> Seq<char> {
    "Δ_S = 242 = 2·11²"@
}

/// Certifies the Saturn displacement.
pub fn l8_saturn_eleven_squared() -> (r: TheoremResult)
    ensures
        l8_claim(),
        passes_with(r, l8_witness()),
{
    let delta = ECLIPSE_TABLE_DAYS % SATURN_SYNODIC;
    if delta != 242 {
        return fail_with("Δ_S = ", delta);
    }
    if delta != 2 * 121 {
        return fail("242 != 2·121");
    }
    if delta % (11 * 11) != 0 {
        return fail("11² ∤ 242");
    }
    TheoremResult::pass("Δ_S = 242 = 2·11²")
}

/// L9: the Mars displacement `11,960 mod 780 = 260`, one Tzolk'in.
pub open spec fn l9_claim() -> bool {
    ECLIPSE_TABLE_DAYS % MARS_SYNODIC == 260
}

pub open spec fn l9_witness() -> Seq<char> {
    "Δ_Ma = 260 = T_tz"@
}

/// Certifies the Mars displacement.
pub fn l9_mars_tzolkin() -> (r: TheoremResult)
    ensures
        l9_claim(),
        passes_with(r, l9_witness()),
{
    let delta = ECLIPSE_TABLE_DAYS % MARS_SYNODIC;
    if delta != 260 {
        return fail_with("Δ_Ma = ", delta);
    }
    TheoremResult::pass("Δ_Ma = 260 = T_tz")
}

/// L10: the Venus displacement `11,960 mod 584 = 280 = 2³·5·7`.
pub open spec fn l10_claim() -> bool {
    ECLIPSE_TABLE_DAYS % VENUS_SYNODIC == 280 && 280 == 8 * 5 * 7
}

pub open spec fn l10_witness() -> Seq<char> {
    "Δ_V = 280 = 2³·5·7 (carries 5 and 7)"@
}

/// Certifies the Venus displacement.
pub fn l10_venus_five_seven() -> (r: TheoremResult)
    ensures
        l10_claim(),
        passes_with(r, l10_witness()),
{
    let delta = ECLIPSE_TABLE_DAYS % VENUS_SYNODIC;
    if delta != 280 {
        return fail_with("Δ_V = ", delta);
    }
    if delta != 8 * 5 * 7 {
        return fail("280 != 8·5·7");
    }
    TheoremResult::pass("Δ_V = 280 = 2³·5·7 (carries 5 and 7)")
}

} // verus!
