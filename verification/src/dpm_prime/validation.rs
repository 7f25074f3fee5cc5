//! The validation identities V1–V14 and the strict companion of V14, each
//! a boolean computed by direct arithmetic and proved to hold.

use vstd::prelude::*;
use crate::dpm_prime::{lemma_stack_values, lcm, lcm_spec};
use crate::engines::ramanujan::{gcd, gcd_spec};
use crate::substrate::{CALENDAR_ROUND, COUNT_819, ECLIPSE_CORRECTION, ECLIPSE_TABLE_DAYS,
    MARS_SYNODIC, RAMANUJAN_S_R, SATURN_SYNODIC, VENUS_SYNODIC};

verus! {

/// V1: `gcd(260, 365) = 5`.
pub fn v1() -> (b: bool)
    ensures
        b == (gcd_spec(260, 365) == 5),
        b,
{
    proof {
        lemma_stack_values();
        assert(gcd_spec(260, 365) == 5);
    }
    gcd(260, 365) == 5
}

/// V2: `lcm(260, 365) = 18,980 = 4·5·13·73`.
pub fn v2() -> (b: bool)
    ensures
        b == (lcm_spec(260, 365) == 18_980 && 18_980 == 4 * 5 * 13 * 73),
        b,
{
    proof {
        lemma_stack_values();
        assert(lcm_spec(260, 365) == 18_980);
    }
    lcm(260, 365) == 18_980 && 18_980u64 == 4 * 5 * 13 * 73
}

/// V3: `819 = 9·91 = 9·7·13 = 3·3·7·13`.
pub fn v3() -> (b: bool)
    ensures
        b == (COUNT_819 == 9 * 91 && COUNT_819 == 9 * 7 * 13 && COUNT_819 == 3 * 3 * 7 * 13),
        b,
{
    COUNT_819 == 9 * 91 && COUNT_819 == 9 * 7 * 13 && COUNT_819 == 3 * 3 * 7 * 13
}

/// V4: `11,960 = 46·260`.
pub fn v4() -> (b: bool)
    ensures
        b == (ECLIPSE_TABLE_DAYS == 46 * 260 && ECLIPSE_TABLE_DAYS % 260 == 0),
        b,
{
    ECLIPSE_TABLE_DAYS == 46 * 260 && ECLIPSE_TABLE_DAYS % 260 == 0
}

/// V5: `11,960 mod 780 = 260`.
pub fn v5() -> (b: bool)
    ensures
        b == (ECLIPSE_TABLE_DAYS % MARS_SYNODIC == 260),
        b,
{
    ECLIPSE_TABLE_DAYS % MARS_SYNODIC == 260
}

/// V6: `11,960 mod 584 = 280 = 8·5·7`.
pub fn v6() -> (b: bool)
    ensures
        b == (ECLIPSE_TABLE_DAYS % VENUS_SYNODIC == 280 && 280 == 8 * 5 * 7),
        b,
{
    ECLIPSE_TABLE_DAYS % VENUS_SYNODIC == 280 && 280u64 == 8 * 5 * 7
}

/// V7: `11,960 mod 378 = 242 = 2·121 = 2·11·11`.
pub fn v7() -> (b: bool)
    ensures
        b == (ECLIPSE_TABLE_DAYS % SATURN_SYNODIC == 242 && 242 == 2 * 121 && 242 == 2 * 11 * 11),
        b,
{
    ECLIPSE_TABLE_DAYS % SATURN_SYNODIC == 242 && 242u64 == 2 * 121 && 242u64 == 2 * 11 * 11
}

/// V8: `gcd(584, 365) = 73`.
pub fn v8() -> (b: bool)
    ensures
        b == (gcd_spec(VENUS_SYNODIC as nat, 365) == 73),
        b,
{
    proof {
        lemma_stack_values();
        assert(gcd_spec(584, 365) == 73);
    }
    gcd(VENUS_SYNODIC, 365) == 73
}

/// V9: `lcm(584, 365) = 2,920 = 8·5·73`.
pub fn v9() -> (b: bool)
    ensures
        b == (lcm_spec(VENUS_SYNODIC as nat, 365) == 2_920 && 2_920 == 8 * 5 * 73),
        b,
{
    proof {
        lemma_stack_values();
        assert(lcm_spec(584, 365) == 2_920);
    }
    lcm(VENUS_SYNODIC, 365) == 2_920 && 2_920u64 == 8 * 5 * 73
}

/// V10: 11 divides none of 260, 365, 584, 780, 399, 378.
pub fn v10() -> (b: bool)
    ensures
        b == (260int % 11 != 0 && 365int % 11 != 0 && 584int % 11 != 0 && 780int % 11 != 0 && 399int % 11
            != 0 && 378int % 11 != 0),
        b,
{
    260u64 % 11 != 0 && 365u64 % 11 != 0 && 584u64 % 11 != 0 && 780u64 % 11 != 0 && 399u64 % 11 != 0
        && 378u64 % 11 != 0
}

/// V11: 11 divides none of 11,960, 18,980 and 819.
pub fn v11() -> (b: bool)
    ensures
        b == (ECLIPSE_TABLE_DAYS % 11 != 0 && CALENDAR_ROUND % 11 != 0 && COUNT_819 % 11 != 0),
        b,
{
    ECLIPSE_TABLE_DAYS % 11 != 0 && CALENDAR_ROUND % 11 != 0 && COUNT_819 % 11 != 0
}

/// V12: `93 = 3·31` and `gcd(11,960, 93) = 1`.
pub fn v12() -> (b: bool)
    ensures
        b == (ECLIPSE_CORRECTION == 3 * 31 && gcd_spec(ECLIPSE_TABLE_DAYS as nat, ECLIPSE_CORRECTION as nat)
            == 1),
        b,
{
    proof {
        lemma_stack_values();
        assert(gcd_spec(11_960, 93) == 1);
    }
    ECLIPSE_CORRECTION == 3 * 31 && gcd(ECLIPSE_TABLE_DAYS, ECLIPSE_CORRECTION) == 1
}

/// V13: `5 | 280`, `7 | 280`, `11 | 242` and `11² | 242`.
pub fn v13() -> (b: bool)
    ensures
        b == (280int % 5 == 0 && 280int % 7 == 0 && 242int % 11 == 0 && 242int % 121 == 0),
        b,
{
    280u64 % 5 == 0 && 280u64 % 7 == 0 && 242u64 % 11 == 0 && 242u64 % (11 * 11) == 0
}

/// The V14 condition: `5 | T`, `13 | T` and `4 | lcm(T, 365)`.
pub open spec fn v14_pred(t: int) -> bool {
    t % 5 == 0 && t % 13 == 0 && lcm_spec(t as nat, 365) % 4 == 0
}

/// The V14-strict condition: `T` has a prime of `S_R`, `13 | T` and
/// `lcm(T, 365) = 18,980`.
pub open spec fn v14_strict_pred(t: int) -> bool {
    &&& (t % 5 == 0 || t % 7 == 0 || t % 11 == 0)
    &&& t % 13 == 0
    &&& lcm_spec(t as nat, 365) == 18_980
}

/// 260 is the least positive `T` with the V14 condition.
pub open spec fn v14_least_is_260() -> bool {
    v14_pred(260) && forall|t: int| 1 <= t < 260 ==> !#[trigger] v14_pred(t)
}

/// 260 is the least positive `T` with the V14-strict condition.
pub open spec fn v14_strict_least_is_260() -> bool {
    v14_strict_pred(260) && forall|t: int| 1 <= t < 260 ==> !#[trigger] v14_strict_pred(t)
}

/// Below 260, a multiple of 13 with 5, 7 or 11 among its factors is one
/// of 65, 91, 130, 143, 182, 195.
proof fn lemma_small_multiples(t: int)
    requires
        1 <= t < 260,
        t % 13 == 0,
        t % 5 == 0 || t % 7 == 0 || t % 11 == 0,
    ensures
        t == 65 || t == 91 || t == 130 || t == 143 || t == 182 || t == 195,
{
    vstd::arithmetic::div_mod::lemma_fundamental_div_mod(t, 13);
    vstd::arithmetic::div_mod::lemma_fundamental_div_mod(t, 5);
    vstd::arithmetic::div_mod::lemma_fundamental_div_mod(t, 7);
    vstd::arithmetic::div_mod::lemma_fundamental_div_mod(t, 11);
}

proof fn lemma_v14_minimum()
    ensures
        v14_least_is_260(),
        v14_strict_least_is_260(),
{
    lemma_stack_values();
    assert(lcm_spec(260, 365) == 18_980);
    assert(lcm_spec(65, 365) == 4_745 && lcm_spec(130, 365) == 9_490 && lcm_spec(195, 365) == 14_235);
    assert(lcm_spec(91, 365) == 33_215 && lcm_spec(143, 365) == 52_195 && lcm_spec(182, 365) == 66_430);
    assert forall|t: int| 1 <= t < 260 implies !#[trigger] v14_pred(t) by {
        if t % 5 == 0 && t % 13 == 0 {
            lemma_small_multiples(t);
        }
    }
    assert forall|t: int| 1 <= t < 260 implies !#[trigger] v14_strict_pred(t) by {
        if (t % 5 == 0 || t % 7 == 0 || t % 11 == 0) && t % 13 == 0 {
            lemma_small_multiples(t);
        }
    }
}

/// The minimum so far, folded with `t`.
fn fold_min(min: Option<u64>, t: u64) -> (r: Option<u64>)
    ensures
        r == (match min {
            Some(m) => Some(if m < t { m } else { t }),
            None => Some(t),
        }),
{
    match min {
        Some(m) => Some(if m < t { m } else { t }),
        None => Some(t),
    }
}

/// V14: the least `T < 365` with `5 | T`, `13 | T` and
/// `4 | lcm(T, 365)` is 260.
pub fn v14() -> (b: bool)
    ensures
        v14_least_is_260(),
        b,
{
    proof {
        lemma_v14_minimum();
    }
    let mut min: Option<u64> = None;
    let mut t: u64 = 1;
    while t < 365
        invariant
            1 <= t <= 365,
            v14_least_is_260(),
            min == (if t > 260 {
                Some(260u64)
            } else {
                None::<u64>
            }),
        decreases 365 - t,
    {
        assert(t < 260 ==> !v14_pred(t as int));
        if t % 5 == 0 && t % 13 == 0 && lcm(t, 365) % 4 == 0 {
            min = fold_min(min, t);
        }
        t = t + 1;
    }
    min == Some(260u64)
}

/// V14-strict: the least `T < 365` with a prime of `S_R`, `13 | T` and
/// `lcm(T, 365) = 18,980` is 260.
pub fn v14_strict() -> (b: bool)
    ensures
        v14_strict_least_is_260(),
        b,
{
    proof {
        lemma_v14_minimum();
    }
    let mut min: Option<u64> = None;
    let mut t: u64 = 1;
    while t < 365
        invariant
            1 <= t <= 365,
            v14_strict_least_is_260(),
            min == (if t > 260 {
                Some(260u64)
            } else {
                None::<u64>
            }),
        decreases 365 - t,
    {
        assert(t < 260 ==> !v14_strict_pred(t as int));
        let mut has_s_r = false;
        let mut k: usize = 0;
        while k < 3
            invariant
                0 <= k <= 3,
                has_s_r == exists|q: int| 0 <= q < k && t % #[trigger] RAMANUJAN_S_R@[q] == 0,
            decreases 3 - k,
        {
            if t % RAMANUJAN_S_R[k] == 0 {
                has_s_r = true;
            }
            k = k + 1;
        }
        assert(has_s_r == (t % 5 == 0 || t % 7 == 0 || t % 11 == 0)) by {
            if t % 5 == 0 {
                assert(t % RAMANUJAN_S_R@[0] == 0);
            }
            if t % 7 == 0 {
                assert(t % RAMANUJAN_S_R@[1] == 0);
            }
            if t % 11 == 0 {
                assert(t % RAMANUJAN_S_R@[2] == 0);
            }
        }
        if has_s_r && t % 13 == 0 && lcm(t, 365) == 18_980 {
            min = fold_min(min, t);
        }
        t = t + 1;
    }
    min == Some(260u64)
}

/// The fourteen published identities together.
pub fn all() -> (r: [bool; 14])
    ensures
        forall|k: int| 0 <= k < 14 ==> #[trigger] r@[k],
{
    [v1(), v2(), v3(), v4(), v5(), v6(), v7(), v8(), v9(), v10(), v11(), v12(), v13(), v14()]
}

/// V14 beside its strict companion: `(v14, v14_strict)`.
pub fn v14_full_alignment() -> (r: (bool, bool))
    ensures
        r.0 && r.1,
{
    (v14(), v14_strict())
}

} // verus!
