//! Integer information measures in nat-basis-points (natural log × 10⁴):
//! a fixed-point natural logarithm, the entropy of a count histogram,
//! and the mutual information of a joint count table.

use vstd::prelude::*;
use vstd::arithmetic::power::pow;
use vstd::arithmetic::power2::pow2;
use crate::atlas::{ConfigAtlas, day_address};
use crate::events::{CodexEvent, EventSet};

verus! {

/// `ln 2` in nat-basis-points.
pub const LN2_NBP: i64 = 6931;

/// `⌊log₂ x⌋` for `x ≥ 1`.
pub open spec fn log2_floor(x: nat) -> nat
    decreases x,
{
    if x < 2 {
        0
    } else {
        1 + log2_floor(x / 2)
    }
}

/// Truncating integer division, as Rust divides signed integers.
pub open spec fn trunc_div(a: int, b: int) -> int {
    if a >= 0 {
        a / b
    } else {
        -((-a) / b)
    }
}

/// `(-1)^(i+1)`.
pub open spec fn alt_sign(i: nat) -> int {
    if i % 2 == 1 {
        1
    } else {
        -1
    }
}

/// Term `i` of the series `ln(1 + u/d) ≈ Σ (-1)^(i+1) u^i / (i·d^i)`,
/// scaled by 10⁴ and truncated.
pub open spec fn ln_term(u: nat, d: nat, i: nat) -> int {
    alt_sign(i) * ((10000 * pow(u as int, i)) / (i * pow(d as int, i)))
}

/// The series from term `i` on: at most twelve terms, stopping after the
/// first term `i` with `d^(i+1) > 2^100`.
pub open spec fn ln_series(u: nat, d: nat, i: nat) -> int
    decreases 13 - i,
{
    if i > 12 || i == 0 {
        0
    } else if pow(d as int, i + 1) > 0x10_0000_0000_0000_0000_0000_0000 {
        ln_term(u, d, i)
    } else {
        ln_term(u, d, i) + ln_series(u, d, i + 1)
    }
}

/// The intermediate products of the series from term `i` on stay within
/// `i128`.
pub open spec fn ln_series_fits(u: nat, d: nat, i: nat) -> bool
    decreases 13 - i,
{
    if i > 12 || i == 0 {
        true
    } else {
        &&& 10000 * pow(u as int, i + 1) <= i128::MAX
        &&& pow(d as int, i + 1) <= i128::MAX
        &&& i * pow(d as int, i) <= i128::MAX
        &&& (pow(d as int, i + 1) > 0x10_0000_0000_0000_0000_0000_0000 || ln_series_fits(u, d, i + 1))
    }
}

/// Bits dropped from `x` before the series: none up to `⌊log₂ x⌋ = 13`,
/// so that the remainder's denominator is at most `2¹³`.
pub open spec fn ln_shift(k: nat) -> nat {
    if k > 13 {
        (k - 13) as nat
    } else {
        0
    }
}

/// The fixed-point logarithm of `x ≥ 2`: `k·6931` for `k = ⌊log₂ x⌋` plus
/// the series for the remainder `x / 2^k ∈ [1, 2)`, taken on the whole
/// remainder `(x − 2^k) / 2^k` wherever its products stay within `i128`,
/// and otherwise on `x` without its `ln_shift(k)` lowest bits.
pub open spec fn ln_value(x: nat) -> int {
    let k = log2_floor(x);
    let d = pow2(k);
    if ln_series_fits((x - d) as nat, d, 1) {
        k * 6931 + ln_series((x - d) as nat, d, 1)
    } else {
        let s = ln_shift(k);
        let dr = pow2((k - s) as nat);
        k * 6931 + ln_series((x / pow2(s) - dr) as nat, dr, 1)
    }
}

/// The value `ln_nbp` computes: `i64::MIN` at 0, 0 at 1, else `ln_value`.
pub open spec fn ln_spec(x: nat) -> int {
    if x == 0 {
        i64::MIN as int
    } else if x == 1 {
        0
    } else {
        ln_value(x)
    }
}


proof fn lemma_log2_floor(x: nat)
    requires
        x >= 1,
    ensures
        pow2(log2_floor(x)) <= x < pow2(log2_floor(x) + 1),
        x >= 2 ==> log2_floor(x) == 1 + log2_floor(x / 2),
        x < 2 ==> log2_floor(x) == 0,
        x >= 2 ==> log2_floor(x) >= 1,
    decreases x,
{
    vstd::arithmetic::power2::lemma_pow2_unfold(log2_floor(x) + 1);
    if x < 2 {
        vstd::arithmetic::power2::lemma2_to64();
    } else {
        lemma_log2_floor(x / 2);
        vstd::arithmetic::power2::lemma_pow2_unfold(log2_floor(x));
        vstd::arithmetic::power2::lemma_pow2_unfold(log2_floor(x / 2) + 1);
    }
}

proof fn lemma_log2_floor_u64(x: nat)
    requires
        1 <= x <= u64::MAX,
    ensures
        log2_floor(x) < 64,
{
    lemma_log2_floor(x);
    vstd::arithmetic::power2::lemma2_to64_rest();
    if log2_floor(x) > 64 {
        vstd::arithmetic::power2::lemma_pow2_strictly_increases(64, log2_floor(x));
    }
}

/// The natural logarithm of `x` in nat-basis-points (`ln x · 10⁴`):
/// `i64::MIN` for 0, 0 for 1, otherwise `ln_value(x)`.
pub fn ln_nbp(x: u64) -> (r: i64)
    ensures
        r == ln_spec(x as nat),
        x >= 1 ==> -120000 <= r <= 63 * 6931 + 120000,
{
    if x == 0 {
        return i64::MIN;
    }
    if x == 1 {
        return 0;
    }
    let mut k: i64 = 0;
    let mut y = x;
    proof {
        lemma_log2_floor_u64(x as nat);
    }
    while y >= 2
        invariant
            1 <= y <= x,
            0 <= k,
            log2_floor(x as nat) < 64,
            log2_floor(x as nat) == k + log2_floor(y as nat),
        decreases y,
    {
        proof {
            lemma_log2_floor(y as nat);
        }
        y = y / 2;
        k = k + 1;
    }
    proof {
        lemma_log2_floor(y as nat);
    }
    proof {
        lemma_log2_floor(x as nat);
        vstd::bits::lemma_u64_pow2_no_overflow(k as nat);
        vstd::bits::lemma_u64_shl_is_mul(1, k as u64);
        vstd::arithmetic::power2::lemma_pow2_unfold(k as nat + 1);
        vstd::arithmetic::power2::lemma_pow2_pos(k as nat);
    }
    let full_den: u64 = 1u64 << (k as u64);
    assert(k == log2_floor(x as nat));
    assert(full_den == pow2(k as nat));
    let full = ln_series_checked((x - full_den) as i128, full_den as i128);
    match full {
        Some(rem) => {
            return k * LN2_NBP + rem;
        },
        None => {},
    }
    let s: i64 = if k > 13 { k - 13 } else { 0 };
    let kk: i64 = k - s;
    proof {
        vstd::bits::lemma_u64_pow2_no_overflow(kk as nat);
        vstd::bits::lemma_u64_shl_is_mul(1, kk as u64);
        vstd::bits::lemma_u64_shr_is_div(x, s as u64);
        lemma_pow2_split(x as nat, k as nat, s as nat);
    }
    let xr: u64 = x >> (s as u64);
    let two_k: u64 = 1u64 << (kk as u64);
    let ghost u = (xr - two_k) as nat;
    let ghost d = two_k as nat;
    proof {
        vstd::arithmetic::power2::lemma2_to64();
        if kk < 13 {
            vstd::arithmetic::power2::lemma_pow2_strictly_increases(kk as nat, 13);
        }
        vstd::arithmetic::power2::lemma_pow2_pos(kk as nat);
        vstd::arithmetic::power::lemma_pow1(d as int);
        lemma_series_fits_pow2(u, d, 1);
    }
    assert(!ln_series_fits((x - full_den) as nat, full_den as nat, 1));
    assert(two_k == pow2((k - ln_shift(k as nat)) as nat));
    assert(xr == (x as nat) / pow2(ln_shift(k as nat)));
    let reduced = ln_series_checked((xr - two_k) as i128, two_k as i128);
    match reduced {
        Some(rem) => k * LN2_NBP + rem,
        None => 0,
    }
}

/// The series `ln_series(u, d, 1)` computed as the fixed-point logarithm
/// computes it, `None` as soon as a product would leave `i128`.
fn ln_series_checked(u_num: i128, u_den: i128) -> (r: Option<i64>)
    requires
        0 <= u_num < u_den,
        2 <= u_den <= u64::MAX,
    ensures
        ln_series_fits(u_num as nat, u_den as nat, 1) ==> (r matches Some(v) && v == ln_series(
            u_num as nat,
            u_den as nat,
            1,
        )),
        !ln_series_fits(u_num as nat, u_den as nat, 1) ==> r is None,
        r matches Some(v) ==> -120000 <= v <= 120000,
{
    let ghost u = u_num as nat;
    let ghost d = u_den as nat;
    let mut ln_rem_nbp: i64 = 0;
    let mut term_num: i128 = u_num * 10000;
    let mut term_den: i128 = u_den;
    let mut sign: i64 = 1;
    let mut i: i64 = 1;
    proof {
        vstd::arithmetic::power::lemma_pow1(u as int);
        vstd::arithmetic::power::lemma_pow1(d as int);
    }
    while i <= 12
        invariant_except_break
            1 <= i <= 13,
            u < d,
            d >= 2,
            u_num == u,
            u_den == d,
            term_num == 10000 * pow(u as int, i as nat),
            term_den == pow(d as int, i as nat),
            sign == alt_sign(i as nat),
            ln_series_fits(u, d, 1) == ln_series_fits(u, d, i as nat),
            ln_rem_nbp + ln_series(u, d, i as nat) == ln_series(u, d, 1),
            -10000 * (i - 1) <= ln_rem_nbp <= 10000 * (i - 1),
        ensures
            ln_series_fits(u, d, 1),
            ln_rem_nbp == ln_series(u, d, 1),
            -120000 <= ln_rem_nbp <= 120000,
        decreases 13 - i,
    {
        proof {
            vstd::arithmetic::power::lemma_pow_positive(d as int, i as nat);
            lemma_term_bounded(u, d, i as nat);
            vstd::arithmetic::power::lemma_pow_adds(u as int, i as nat, 1);
            vstd::arithmetic::power::lemma_pow_adds(d as int, i as nat, 1);
            vstd::arithmetic::power::lemma_pow1(u as int);
            vstd::arithmetic::power::lemma_pow1(d as int);
            assert(pow(u as int, i as nat + 1) == pow(u as int, i as nat) * u);
            assert(10000 * pow(u as int, i as nat + 1) == term_num * u_num) by (nonlinear_arith)
                requires
                    term_num == 10000 * pow(u as int, i as nat),
                    pow(u as int, i as nat + 1) == pow(u as int, i as nat) * u,
                    u_num == u,
            ;
            assert(pow(d as int, i as nat + 1) == term_den * u_den);
        }
        let den_i: i128 = match (i as i128).checked_mul(term_den) {
            Some(v) => v,
            None => {
                return None;
            },
        };
        let q: i128 = term_num / den_i;
        assert(q == (10000 * pow(u as int, i as nat)) / (i * pow(d as int, i as nat)));
        let contribution = q as i64;
        let next_num: i128 = match term_num.checked_mul(u_num) {
            Some(v) => v,
            None => {
                return None;
            },
        };
        let next_den: i128 = match term_den.checked_mul(u_den) {
            Some(v) => v,
            None => {
                return None;
            },
        };
        ln_rem_nbp = ln_rem_nbp + sign * contribution;
        term_num = next_num;
        term_den = next_den;
        if term_den > 0x10_0000_0000_0000_0000_0000_0000i128 {
            break;
        }
        sign = -sign;
        i = i + 1;
    }
    Some(ln_rem_nbp)
}

/// A series term is at most 10⁴ in size, since `u < d`.
proof fn lemma_term_bounded(u: nat, d: nat, i: nat)
    requires
        u < d,
        i >= 1,
    ensures
        0 <= (10000 * pow(u as int, i)) / (i * pow(d as int, i)) <= 10000,
        -10000 <= ln_term(u, d, i) <= 10000,
        0 <= 10000 * pow(u as int, i),
        0 < i * pow(d as int, i),
{
    vstd::arithmetic::power::lemma_pow_positive(d as int, i);
    lemma_pow_base_monotone(u, d, i);
    let a = 10000 * pow(u as int, i);
    let b = i * pow(d as int, i);
    assert(0 <= a <= 10000 * b) by (nonlinear_arith)
        requires
            a == 10000 * pow(u as int, i),
            b == i * pow(d as int, i),
            0 <= pow(u as int, i) <= pow(d as int, i),
            i >= 1,
    ;
    assert(b > 0) by (nonlinear_arith)
        requires
            b == i * pow(d as int, i),
            pow(d as int, i) > 0,
            i >= 1,
    ;
    vstd::arithmetic::div_mod::lemma_div_is_ordered(a, 10000 * b, b);
    vstd::arithmetic::div_mod::lemma_div_by_multiple(10000, b);
    assert(10000 * b == b * 10000) by (nonlinear_arith);
    vstd::arithmetic::div_mod::lemma_div_pos_is_pos(a, b);
}

/// Powers are monotone in a nonnegative base.
proof fn lemma_pow_base_monotone(u: nat, d: nat, i: nat)
    requires
        u <= d,
    ensures
        0 <= pow(u as int, i) <= pow(d as int, i),
    decreases i,
{
    reveal(pow);
    if i > 0 {
        lemma_pow_base_monotone(u, d, (i - 1) as nat);
        let a = pow(u as int, (i - 1) as nat);
        let b = pow(d as int, (i - 1) as nat);
        assert(0 <= u * a <= d * b) by (nonlinear_arith)
            requires
                0 <= a <= b,
                u <= d,
        ;
    }
}

/// Sum of a count sequence.
pub open spec fn count_sum(c: Seq<u64>) -> nat
    decreases c.len(),
{
    if c.len() == 0 {
        0
    } else {
        count_sum(c.drop_last()) + (c.last() as nat)
    }
}

/// `Σ c·ln(c)` over the non-zero counts, in nat-basis-points.
pub open spec fn weighted_ln(c: Seq<u64>) -> int
    decreases c.len(),
{
    if c.len() == 0 {
        0
    } else {
        weighted_ln(c.drop_last()) + if c.last() > 0 {
            c.last() * ln_spec(c.last() as nat)
        } else {
            0
        }
    }
}

/// Entropy of a count histogram in nat-basis-points:
/// `ln T − (Σ c·ln c) / T` for total `T`, truncated and floored at 0;
/// 0 for an empty histogram.
pub open spec fn entropy_spec(c: Seq<u64>) -> int {
    let t = count_sum(c);
    if t == 0 {
        0
    } else {
        let h = ln_spec(t) - trunc_div(weighted_ln(c), t as int);
        if h > 0 {
            h
        } else {
            0
        }
    }
}

/// The counts and their total are in range for `entropy_nbp`.
pub open spec fn entropy_fits(c: Seq<u64>) -> bool {
    count_sum(c) <= u64::MAX
}

proof fn lemma_count_sum_prefix(c: Seq<u64>, i: int)
    requires
        0 <= i <= c.len(),
    ensures
        count_sum(c.subrange(0, i)) <= count_sum(c),
    decreases c.len() - i,
{
    if i < c.len() {
        lemma_count_sum_prefix(c, i + 1);
        assert(c.subrange(0, i + 1).drop_last() =~= c.subrange(0, i));
    } else {
        assert(c.subrange(0, i) =~= c);
    }
}

/// Entropy `H = ln T − (Σ c·ln c)/T` of a count histogram, in
/// nat-basis-points, floored at 0.
pub fn entropy_nbp(counts: &[u64]) -> (h: i64)
    requires
        entropy_fits(counts@),
    ensures
        h == entropy_spec(counts@),
        0 <= h <= 63 * 6931 + 240000,
        single_class(counts@) ==> h == 0,
{
    proof {
        if single_class(counts@) {
            lemma_entropy_single_class(counts@);
        }
    }
    let mut total: u64 = 0;
    let mut i: usize = 0;
    while i < counts.len()
        invariant
            0 <= i <= counts.len(),
            count_sum(counts@) <= u64::MAX,
            total == count_sum(counts@.subrange(0, i as int)),
        decreases counts.len() - i,
    {
        proof {
            assert(counts@.subrange(0, i as int + 1).drop_last() =~= counts@.subrange(0, i as int));
            lemma_count_sum_prefix(counts@, i as int + 1);
        }
        total = total + counts[i];
        i = i + 1;
    }
    assert(counts@.subrange(0, counts.len() as int) =~= counts@);
    if total == 0 {
        return 0;
    }
    let ln_t = ln_nbp(total) as i128;
    let mut weighted: i128 = 0;
    let mut j: usize = 0;
    while j < counts.len()
        invariant
            0 <= j <= counts.len(),
            total == count_sum(counts@),
            total >= 1,
            weighted == weighted_ln(counts@.subrange(0, j as int)),
            -(120000 * count_sum(counts@.subrange(0, j as int))) <= weighted <= 556653 * count_sum(
                counts@.subrange(0, j as int),
            ),
        decreases counts.len() - j,
    {
        let c = counts[j];
        proof {
            assert(counts@.subrange(0, j as int + 1).drop_last() =~= counts@.subrange(0, j as int));
            lemma_count_sum_prefix(counts@, j as int + 1);
        }
        if c > 0 {
            let l = ln_nbp(c);
            proof {
                assert(-(120000 * (c as int)) <= c * l <= 556653 * c) by (nonlinear_arith)
                    requires
                        -120000 <= l <= 556653,
                        c >= 1,
                ;
                assert(556653 * count_sum(counts@.subrange(0, j as int + 1)) <= 556653 * 0xffff_ffff_ffff_ffffu64)
                    by (nonlinear_arith)
                    requires
                        count_sum(counts@.subrange(0, j as int + 1)) <= 0xffff_ffff_ffff_ffffu64,
                ;
            }
            weighted = weighted + (c as i128) * (l as i128);
        }
        j = j + 1;
    }
    assert(counts@.subrange(0, counts.len() as int) =~= counts@);
    proof {
        assert(-(120000 * (total as int)) <= weighted <= 556653 * total);
        let q = trunc_div(weighted as int, total as int);
        assert(-120000 <= q <= 556653) by {
            if weighted >= 0 {
                vstd::arithmetic::div_mod::lemma_div_is_ordered(weighted as int, 556653 * total, total as int);
                vstd::arithmetic::div_mod::lemma_div_by_multiple(556653, total as int);
                assert(556653 * total == total * 556653) by (nonlinear_arith);
                vstd::arithmetic::div_mod::lemma_div_pos_is_pos(weighted as int, total as int);
            } else {
                vstd::arithmetic::div_mod::lemma_div_is_ordered(-weighted, 120000 * total, total as int);
                vstd::arithmetic::div_mod::lemma_div_by_multiple(120000, total as int);
                assert(120000 * total == total * 120000) by (nonlinear_arith);
                vstd::arithmetic::div_mod::lemma_div_pos_is_pos(-weighted, total as int);
            }
        }
    }
    let h_scaled: i128 = ln_t - weighted / (total as i128);
    if h_scaled > 0 {
        h_scaled as i64
    } else {
        0
    }
}

/// `x / 2^s` keeps the leading power: for `2^k ≤ x < 2^(k+1)` and
/// `s ≤ k`, `2^(k−s) ≤ x / 2^s < 2^(k−s+1)`.
proof fn lemma_pow2_split(x: nat, k: nat, s: nat)
    requires
        s <= k,
        pow2(k) <= x < pow2(k + 1),
    ensures
        pow2((k - s) as nat) <= x / pow2(s) < pow2((k - s) as nat + 1),
{
    let a = pow2((k - s) as nat);
    let p = pow2(s);
    vstd::arithmetic::power2::lemma_pow2_adds((k - s) as nat, s);
    vstd::arithmetic::power2::lemma_pow2_adds((k - s) as nat + 1, s);
    vstd::arithmetic::power2::lemma_pow2_pos(s);
    vstd::arithmetic::power2::lemma_pow2_unfold((k - s) as nat + 1);
    vstd::arithmetic::div_mod::lemma_fundamental_div_mod(x as int, p as int);
    vstd::arithmetic::div_mod::lemma_mod_bound(x as int, p as int);
    let q = x / p;
    let r = x % p;
    assert(a <= q && q < 2 * a) by (nonlinear_arith)
        requires
            a * p <= x,
            x < (2 * a) * p,
            x == p * q + r,
            0 <= r < p,
            p > 0,
    ;
}

/// A power-of-two denominator up to `2¹³` keeps every series product
/// within `i128` from any term it reaches.
proof fn lemma_series_fits_pow2(u: nat, d: nat, i: nat)
    requires
        u < d,
        2 <= d <= 8192,
        i >= 1,
        pow(d as int, i) <= 0x10_0000_0000_0000_0000_0000_0000,
    ensures
        ln_series_fits(u, d, i),
    decreases 13 - i,
{
    if i <= 12 {
        vstd::arithmetic::power::lemma_pow_adds(d as int, i, 1);
        vstd::arithmetic::power::lemma_pow1(d as int);
        lemma_pow_base_monotone(u, d, i + 1);
        let p = pow(d as int, i);
        vstd::arithmetic::power::lemma_pow_positive(d as int, i);
        assert(p * d <= 0x10_0000_0000_0000_0000_0000_0000 * 8192) by (nonlinear_arith)
            requires
                0 < p <= 0x10_0000_0000_0000_0000_0000_0000,
                d <= 8192,
        ;
        assert(i * p <= 12 * 0x10_0000_0000_0000_0000_0000_0000) by (nonlinear_arith)
            requires
                0 < p <= 0x10_0000_0000_0000_0000_0000_0000,
                1 <= i <= 12,
        ;
        if pow(d as int, i + 1) <= 0x10_0000_0000_0000_0000_0000_0000 {
            lemma_series_fits_pow2(u, d, i + 1);
        }
    }
}

/// Adds `c` to the marginal entry of `key`, appending the key when new.
pub open spec fn marginal_add(m: Seq<(u64, u64)>, key: u64, c: u64) -> Seq<(u64, u64)> {
    if exists|i: int| 0 <= i < m.len() && (#[trigger] m[i]).0 == key {
        let i = choose|i: int| 0 <= i < m.len() && (#[trigger] m[i]).0 == key;
        m.update(i, (key, (m[i].1 + c) as u64))
    } else {
        m.push((key, c))
    }
}

/// The marginal of a joint table on one coordinate (`first` selects x,
/// otherwise y): the distinct keys in order of first occurrence, each
/// with the sum of its counts.
pub open spec fn marginal_spec(joint: Seq<((u64, u64), u64)>, first: bool) -> Seq<(u64, u64)>
    decreases joint.len(),
{
    if joint.len() == 0 {
        seq![]
    } else {
        let (k, c) = joint.last();
        marginal_add(marginal_spec(joint.drop_last(), first), if first { k.0 } else { k.1 }, c)
    }
}

/// The counts of a table, in order.
pub open spec fn counts_of<K>(t: Seq<(K, u64)>) -> Seq<u64> {
    t.map_values(|e: (K, u64)| e.1)
}

/// Keys of a marginal are distinct.
pub open spec fn distinct_keys(m: Seq<(u64, u64)>) -> bool {
    forall|i: int, j: int| 0 <= i < j < m.len() ==> (#[trigger] m[i]).0 != (#[trigger] m[j]).0
}

/// Mutual information `H(X) + H(Y) − H(X, Y)`, floored at 0.
pub open spec fn mutual_information_spec(joint: Seq<((u64, u64), u64)>) -> int {
    let hx = entropy_spec(counts_of(marginal_spec(joint, true)));
    let hy = entropy_spec(counts_of(marginal_spec(joint, false)));
    let hxy = entropy_spec(counts_of(joint));
    if hx + hy - hxy > 0 {
        hx + hy - hxy
    } else {
        0
    }
}

/// Sum of the counts of a joint table.
pub open spec fn joint_total(joint: Seq<((u64, u64), u64)>) -> nat {
    count_sum(counts_of(joint))
}

/// The joint table and both marginals are in range for the entropy
/// computations.
pub open spec fn joint_fits(joint: Seq<((u64, u64), u64)>) -> bool {
    &&& entropy_fits(counts_of(joint))
    &&& entropy_fits(counts_of(marginal_spec(joint, true)))
    &&& entropy_fits(counts_of(marginal_spec(joint, false)))
}

/// The counts of a marginal add up to those of the joint table.
proof fn lemma_marginal_total(joint: Seq<((u64, u64), u64)>, first: bool)
    requires
        joint_total(joint) <= u64::MAX,
    ensures
        count_sum(counts_of(marginal_spec(joint, first))) == joint_total(joint),
        distinct_keys(marginal_spec(joint, first)),
    decreases joint.len(),
{
    if joint.len() > 0 {
        let p = joint.drop_last();
        assert(counts_of(joint).drop_last() =~= counts_of(p));
        lemma_count_sum_nonneg_prefix(counts_of(joint));
        lemma_marginal_total(p, first);
        let m = marginal_spec(p, first);
        let (k, c) = joint.last();
        let key = if first { k.0 } else { k.1 };
        if exists|i: int| 0 <= i < m.len() && (#[trigger] m[i]).0 == key {
            let i = choose|i: int| 0 <= i < m.len() && (#[trigger] m[i]).0 == key;
            lemma_count_sum_update(counts_of(m), i, (m[i].1 + c) as u64);
            lemma_count_sum_ge_elem(counts_of(m), i);
            assert(counts_of(m.update(i, (key, (m[i].1 + c) as u64))) =~= counts_of(m).update(
                i,
                (m[i].1 + c) as u64,
            ));
        } else {
            assert(counts_of(m.push((key, c))) =~= counts_of(m).push(c));
            assert(counts_of(m).push(c).drop_last() =~= counts_of(m));
        }
    }
}

proof fn lemma_count_sum_nonneg_prefix(c: Seq<u64>)
    requires
        c.len() > 0,
    ensures
        count_sum(c) == count_sum(c.drop_last()) + c.last(),
{
}

/// Replacing one count changes the sum by the difference.
proof fn lemma_count_sum_update(c: Seq<u64>, i: int, v: u64)
    requires
        0 <= i < c.len(),
    ensures
        count_sum(c.update(i, v)) == count_sum(c) - c[i] + v,
    decreases c.len(),
{
    if i < c.len() - 1 {
        assert(c.update(i, v).drop_last() =~= c.drop_last().update(i, v));
        lemma_count_sum_update(c.drop_last(), i, v);
    } else {
        assert(c.update(i, v).drop_last() =~= c.drop_last());
    }
}

/// Each count is at most the sum.
pub proof fn lemma_count_sum_ge_elem(c: Seq<u64>, i: int)
    requires
        0 <= i < c.len(),
    ensures
        c[i] <= count_sum(c),
    decreases c.len(),
{
    if i < c.len() - 1 {
        lemma_count_sum_ge_elem(c.drop_last(), i);
    }
}

/// Marginal of a joint table on the first (`first`) or second coordinate.
fn marginal(joint: &[((u64, u64), u64)], first: bool) -> (m: Vec<(u64, u64)>)
    requires
        joint_total(joint@) <= u64::MAX,
    ensures
        m@ == marginal_spec(joint@, first),
{
    let mut m: Vec<(u64, u64)> = Vec::new();
    let mut i: usize = 0;
    while i < joint.len()
        invariant
            0 <= i <= joint.len(),
            joint_total(joint@) <= u64::MAX,
            m@ == marginal_spec(joint@.subrange(0, i as int), first),
        decreases joint.len() - i,
    {
        let ghost pre = joint@.subrange(0, i as int);
        let ghost post = joint@.subrange(0, i as int + 1);
        proof {
            assert(post.drop_last() =~= pre);
            lemma_count_sum_prefix(counts_of(joint@), i as int + 1);
            assert(counts_of(joint@).subrange(0, i as int + 1) =~= counts_of(post));
            lemma_marginal_total(post, first);
        }
        let (k, c) = joint[i];
        let key = if first { k.0 } else { k.1 };
        let mut found: usize = m.len();
        let mut j: usize = 0;
        while j < m.len()
            invariant
                0 <= j <= m.len(),
                found == m.len() || (found < j && m@[found as int].0 == key),
                found == m.len() ==> forall|q: int| 0 <= q < j ==> (#[trigger] m@[q]).0 != key,
            decreases m.len() - j,
        {
            if found == m.len() && m[j].0 == key {
                found = j;
            }
            j = j + 1;
        }
        proof {
            lemma_count_sum_prefix(counts_of(joint@), i as int);
            assert(counts_of(joint@).subrange(0, i as int) =~= counts_of(pre));
            lemma_marginal_total(pre, first);
            assert(counts_of(post).drop_last() =~= counts_of(pre));
            assert(counts_of(post).last() == c);
        }
        if found < m.len() {
            proof {
                let mm = marginal_spec(pre, first);
                let w = choose|w: int| 0 <= w < mm.len() && (#[trigger] mm[w]).0 == key;
                assert(w == found as int) by {
                    if w != found as int {
                        assert(distinct_keys(mm));
                    }
                }
                lemma_count_sum_ge_elem(counts_of(mm), found as int);
                assert(counts_of(mm)[found as int] == mm[found as int].1);
                assert(count_sum(counts_of(pre)) + c == count_sum(counts_of(post)));
            }
            let old_c = m[found].1;
            m.set(found, (key, old_c + c));
        } else {
            m.push((key, c));
        }
        i = i + 1;
    }
    assert(joint@.subrange(0, joint.len() as int) =~= joint@);
    m
}

/// The counts of a table, as a vector.
pub(crate) fn counts_vec<K: Copy>(t: &[(K, u64)]) -> (v: Vec<u64>)
    ensures
        v@ == counts_of(t@),
{
    let mut v: Vec<u64> = Vec::new();
    let mut i: usize = 0;
    while i < t.len()
        invariant
            0 <= i <= t.len(),
            v@ == counts_of(t@.subrange(0, i as int)),
        decreases t.len() - i,
    {
        v.push(t[i].1);
        i = i + 1;
        assert(v@ =~= counts_of(t@.subrange(0, i as int)));
    }
    assert(t@.subrange(0, t.len() as int) =~= t@);
    v
}

/// Joint entropy `H(X, Y)` of a joint count table.
pub fn joint_entropy_nbp(joint: &[((u64, u64), u64)]) -> (h: i64)
    requires
        entropy_fits(counts_of(joint@)),
    ensures
        h == entropy_spec(counts_of(joint@)),
        0 <= h <= 63 * 6931 + 240000,
{
    let counts = counts_vec(joint);
    entropy_nbp(counts.as_slice())
}

/// Marginal counts over X: distinct x in order of first occurrence.
pub fn marginal_x(joint: &[((u64, u64), u64)]) -> (m: Vec<(u64, u64)>)
    requires
        joint_total(joint@) <= u64::MAX,
    ensures
        m@ == marginal_spec(joint@, true),
{
    marginal(joint, true)
}

/// Marginal counts over Y: distinct y in order of first occurrence.
pub fn marginal_y(joint: &[((u64, u64), u64)]) -> (m: Vec<(u64, u64)>)
    requires
        joint_total(joint@) <= u64::MAX,
    ensures
        m@ == marginal_spec(joint@, false),
{
    marginal(joint, false)
}

/// A joint table whose counts add up within `u64` is in range for the
/// entropy computations: its marginals add up to the same total.
pub proof fn lemma_joint_fits(joint: Seq<((u64, u64), u64)>)
    requires
        joint_total(joint) <= u64::MAX,
    ensures
        joint_fits(joint),
{
    lemma_marginal_total(joint, true);
    lemma_marginal_total(joint, false);
}

/// The joint table of any list of pairs is in range.
pub proof fn lemma_pairs_fit(pairs: Seq<(u64, u64)>)
    requires
        pairs.len() <= u64::MAX,
    ensures
        joint_fits(joint_spec(pairs)),
{
    lemma_joint_spec(pairs);
    lemma_joint_fits(joint_spec(pairs));
}

/// Mutual information `I(X; Y) = H(X) + H(Y) − H(X, Y)`, floored at 0.
pub fn mutual_information_nbp(joint: &[((u64, u64), u64)]) -> (i: i64)
    requires
        joint_total(joint@) <= u64::MAX,
    ensures
        i == mutual_information_spec(joint@),
        i >= 0,
{
    proof {
        lemma_joint_fits(joint@);
    }
    let mx = marginal_x(joint);
    let my = marginal_y(joint);
    let hx = entropy_nbp(counts_vec(mx.as_slice()).as_slice());
    let hy = entropy_nbp(counts_vec(my.as_slice()).as_slice());
    let hxy = joint_entropy_nbp(joint);
    let d = hx + hy - hxy;
    if d > 0 {
        d
    } else {
        0
    }
}

/// Adds one occurrence of `key` to a joint table.
pub open spec fn joint_add(m: Seq<((u64, u64), u64)>, key: (u64, u64)) -> Seq<((u64, u64), u64)> {
    if exists|i: int| 0 <= i < m.len() && (#[trigger] m[i]).0 == key {
        let i = choose|i: int| 0 <= i < m.len() && (#[trigger] m[i]).0 == key;
        m.update(i, (key, (m[i].1 + 1) as u64))
    } else {
        m.push((key, 1u64))
    }
}

/// The joint count table of a pair sequence: distinct pairs in order of
/// first occurrence, each with its number of occurrences.
pub open spec fn joint_spec(pairs: Seq<(u64, u64)>) -> Seq<((u64, u64), u64)>
    decreases pairs.len(),
{
    if pairs.len() == 0 {
        seq![]
    } else {
        joint_add(joint_spec(pairs.drop_last()), pairs.last())
    }
}

/// A joint table has distinct keys and as many counted occurrences as
/// pairs.
pub proof fn lemma_joint_spec(pairs: Seq<(u64, u64)>)
    requires
        pairs.len() <= u64::MAX,
    ensures
        forall|i: int, j: int|
            0 <= i < j < joint_spec(pairs).len() ==> (#[trigger] joint_spec(pairs)[i]).0
                != (#[trigger] joint_spec(pairs)[j]).0,
        joint_total(joint_spec(pairs)) == pairs.len(),
    decreases pairs.len(),
{
    if pairs.len() > 0 {
        lemma_joint_spec(pairs.drop_last());
        let m = joint_spec(pairs.drop_last());
        let key = pairs.last();
        if exists|i: int| 0 <= i < m.len() && (#[trigger] m[i]).0 == key {
            let i = choose|i: int| 0 <= i < m.len() && (#[trigger] m[i]).0 == key;
            lemma_count_sum_ge_elem(counts_of(m), i);
            assert(counts_of(m)[i] == m[i].1);
            lemma_count_sum_update(counts_of(m), i, (m[i].1 + 1) as u64);
            assert(counts_of(m.update(i, (key, (m[i].1 + 1) as u64))) =~= counts_of(m).update(
                i,
                (m[i].1 + 1) as u64,
            ));
            let n = m.update(i, (key, (m[i].1 + 1) as u64));
            assert(joint_spec(pairs) == n);
            assert forall|a: int, b: int| 0 <= a < b < n.len() implies (#[trigger] n[a]).0 != (
            #[trigger] n[b]).0 by {
                assert(m[a].0 != m[b].0);
            }
        } else {
            assert(counts_of(m.push((key, 1u64))) =~= counts_of(m).push(1u64));
            assert(counts_of(m).push(1u64).drop_last() =~= counts_of(m));
            let n = m.push((key, 1u64));
            assert(joint_spec(pairs) == n);
            assert forall|a: int, b: int| 0 <= a < b < n.len() implies (#[trigger] n[a]).0 != (
            #[trigger] n[b]).0 by {
                if b < m.len() {
                    assert(m[a].0 != m[b].0);
                }
            }
        }
    }
}

/// The joint table counts every pair: a pair `k` has an entry exactly
/// when it occurs among the pairs, and that entry holds the number of its
/// occurrences.
pub proof fn lemma_joint_counts_occurrences(pairs: Seq<(u64, u64)>, k: (u64, u64))
    requires
        pairs.len() <= u64::MAX,
    ensures
        (exists|i: int| 0 <= i < joint_spec(pairs).len() && (#[trigger] joint_spec(pairs)[i]).0
            == k) <==> pairs.to_multiset().count(k) > 0,
        forall|i: int|
            0 <= i < joint_spec(pairs).len() && (#[trigger] joint_spec(pairs)[i]).0 == k
                ==> joint_spec(pairs)[i].1 == pairs.to_multiset().count(k),
    decreases pairs.len(),
{
    broadcast use vstd::multiset::group_multiset_axioms;
    if pairs.len() == 0 {
        vstd::seq_lib::to_multiset_contains(pairs, k);
        assert(!pairs.contains(k));
    } else {
        let dl = pairs.drop_last();
        let key = pairs.last();
        lemma_joint_counts_occurrences(dl, k);
        lemma_joint_spec(dl);
        lemma_joint_spec(pairs);
        assert(pairs =~= dl.push(key));
        vstd::seq_lib::to_multiset_build(dl, key);
        assert(pairs.to_multiset().count(k) == dl.to_multiset().count(k) + if k == key {
            1int
        } else {
            0int
        });
        let m = joint_spec(dl);
        let n = joint_spec(pairs);
        if exists|i: int| 0 <= i < m.len() && (#[trigger] m[i]).0 == key {
            let i = choose|i: int| 0 <= i < m.len() && (#[trigger] m[i]).0 == key;
            lemma_count_sum_ge_elem(counts_of(m), i);
            assert(counts_of(m)[i] == m[i].1);
            assert(n == m.update(i, (key, (m[i].1 + 1) as u64)));
            if k == key {
                lemma_joint_counts_occurrences(dl, key);
                assert(n[i].0 == k);
                assert forall|a: int| 0 <= a < n.len() && (#[trigger] n[a]).0 == k implies n[a].1
                    == pairs.to_multiset().count(k) by {
                    if a != i {
                        assert(n[a].0 != n[i].0);
                    }
                }
            } else {
                assert forall|a: int| 0 <= a < n.len() && (#[trigger] n[a]).0 == k implies n[a].1
                    == pairs.to_multiset().count(k) by {
                    assert(a != i);
                    assert(m[a] == n[a]);
                }
                if exists|a: int| 0 <= a < m.len() && (#[trigger] m[a]).0 == k {
                    let a = choose|a: int| 0 <= a < m.len() && (#[trigger] m[a]).0 == k;
                    assert(n[a].0 == k);
                }
                if exists|a: int| 0 <= a < n.len() && (#[trigger] n[a]).0 == k {
                    let a = choose|a: int| 0 <= a < n.len() && (#[trigger] n[a]).0 == k;
                    assert(m[a].0 == k);
                }
            }
        } else {
            assert(n == m.push((key, 1u64)));
            if k == key {
                assert(n[m.len() as int].0 == k);
                assert(dl.to_multiset().count(k) == 0);
                assert forall|a: int| 0 <= a < n.len() && (#[trigger] n[a]).0 == k implies n[a].1
                    == pairs.to_multiset().count(k) by {
                    if a < m.len() {
                        assert(m[a].0 == k);
                    }
                }
            } else {
                assert forall|a: int| 0 <= a < n.len() && (#[trigger] n[a]).0 == k implies n[a].1
                    == pairs.to_multiset().count(k) by {
                    assert(a < m.len());
                    assert(m[a] == n[a]);
                }
                if exists|a: int| 0 <= a < m.len() && (#[trigger] m[a]).0 == k {
                    let a = choose|a: int| 0 <= a < m.len() && (#[trigger] m[a]).0 == k;
                    assert(n[a].0 == k);
                }
                if exists|a: int| 0 <= a < n.len() && (#[trigger] n[a]).0 == k {
                    let a = choose|a: int| 0 <= a < n.len() && (#[trigger] n[a]).0 == k;
                    assert(a < m.len());
                    assert(m[a].0 == k);
                }
            }
        }
    }
}

/// The joint distribution of `(four-head address, candidate address)`
/// pairs over the events, one pair per event.
pub fn build_joint_distribution(pairs: &[(u64, u64)]) -> (joint: Vec<((u64, u64), u64)>)
    ensures
        joint@ == joint_spec(pairs@),
        forall|k: (u64, u64)|
            (exists|i: int| 0 <= i < joint@.len() && (#[trigger] joint@[i]).0 == k) <==> (
            #[trigger] pairs@.to_multiset().count(k)) > 0,
        forall|i: int|
            0 <= i < joint@.len() ==> (#[trigger] joint@[i]).1 == pairs@.to_multiset().count(
                joint@[i].0,
            ),
{
    let mut joint: Vec<((u64, u64), u64)> = Vec::new();
    let mut i: usize = 0;
    while i < pairs.len()
        invariant
            0 <= i <= pairs.len(),
            joint@ == joint_spec(pairs@.subrange(0, i as int)),
        decreases pairs.len() - i,
    {
        let key = pairs[i];
        let ghost pre = pairs@.subrange(0, i as int);
        proof {
            assert(pairs@.subrange(0, i as int + 1).drop_last() =~= pre);
            lemma_joint_spec(pre);
        }
        let mut found: usize = joint.len();
        let mut j: usize = 0;
        while j < joint.len()
            invariant
                0 <= j <= joint.len(),
                found == joint.len() || (found < j && joint@[found as int].0 == key),
                found == joint.len() ==> forall|q: int| 0 <= q < j ==> (#[trigger] joint@[q]).0 != key,
            decreases joint.len() - j,
        {
            if found == joint.len() && joint[j].0.0 == key.0 && joint[j].0.1 == key.1 {
                found = j;
            }
            j = j + 1;
        }
        if found < joint.len() {
            proof {
                let w = choose|w: int| 0 <= w < joint@.len() && (#[trigger] joint@[w]).0 == key;
                assert(w == found as int) by {
                    if w != found as int {
                        assert(joint@[w].0 != joint@[found as int].0);
                    }
                }
                lemma_count_sum_ge_elem(counts_of(joint@), found as int);
                assert(counts_of(joint@)[found as int] == joint@[found as int].1);
                assert(joint_total(joint@) == i);
            }
            let old_c = joint[found].1;
            joint.set(found, (key, old_c + 1));
        } else {
            joint.push((key, 1));
        }
        i = i + 1;
    }
    assert(pairs@.subrange(0, pairs.len() as int) =~= pairs@);
    proof {
        assert forall|k: (u64, u64)|
            (exists|i: int| 0 <= i < joint@.len() && (#[trigger] joint@[i]).0 == k) <==> (
            #[trigger] pairs@.to_multiset().count(k)) > 0 by {
            lemma_joint_counts_occurrences(pairs@, k);
        }
        assert forall|i: int| 0 <= i < joint@.len() implies (#[trigger] joint@[i]).1
            == pairs@.to_multiset().count(joint@[i].0) by {
            lemma_joint_counts_occurrences(pairs@, joint@[i].0);
        }
    }
    joint
}

/// Mutual-information report of one candidate head.
#[derive(Clone, Debug)]
pub struct H3MIReport {
    pub candidate_name: String,
    pub candidate_cycle: u64,
    /// Joint entropy `H(four-head, candidate)`.
    pub joint_entropy_nbp: i64,
    /// Marginal entropy of the four-head address.
    pub four_head_entropy_nbp: i64,
    /// Marginal entropy of the candidate address.
    pub candidate_entropy_nbp: i64,
    /// Mutual information.
    pub mutual_information_nbp: i64,
    /// Candidate entropy not explained by the four heads, `H(c) − I`.
    pub independent_information_nbp: i64,
    /// Independent share of the candidate entropy, basis points.
    pub independence_ratio_bp: u64,
    /// The ratio reaches the threshold.
    pub admissible: bool,
}

/// Independent share (bp) of the candidate entropy of a joint table:
/// `(H(c) − I)·10000 / H(c)`, 0 when `H(c)` is 0.
pub open spec fn independence_ratio_spec(joint: Seq<((u64, u64), u64)>) -> int {
    let hx = entropy_spec(counts_of(marginal_spec(joint, true)));
    let hy = entropy_spec(counts_of(marginal_spec(joint, false)));
    let hxy = entropy_spec(counts_of(joint));
    let mi = if hx + hy - hxy > 0 { hx + hy - hxy } else { 0 };
    let ind = if hy - mi > 0 { hy - mi } else { 0 };
    if hy > 0 { (ind * 10000) / hy } else { 0 }
}

/// The report owed for a joint table.
pub open spec fn report_spec(
    r: H3MIReport,
    joint: Seq<((u64, u64), u64)>,
    name: Seq<char>,
    cycle: u64,
    threshold_bp: u64,
) -> bool {
    let hx = entropy_spec(counts_of(marginal_spec(joint, true)));
    let hy = entropy_spec(counts_of(marginal_spec(joint, false)));
    let hxy = entropy_spec(counts_of(joint));
    let mi = if hx + hy - hxy > 0 { hx + hy - hxy } else { 0 };
    let ind = if hy - mi > 0 { hy - mi } else { 0 };
    let ratio = if hy > 0 { (ind * 10000) / hy } else { 0 };
    &&& r.candidate_name@ == name
    &&& r.candidate_cycle == cycle
    &&& r.joint_entropy_nbp == hxy
    &&& r.four_head_entropy_nbp == hx
    &&& r.candidate_entropy_nbp == hy
    &&& r.mutual_information_nbp == mi
    &&& r.independent_information_nbp == ind
    &&& r.independence_ratio_bp == ratio
    &&& r.admissible == (ratio >= threshold_bp)
    &&& r.independence_ratio_bp == independence_ratio_spec(joint)
    &&& 0 <= r.independence_ratio_bp <= 10000
}

/// The mutual-information report of a candidate head, from the
/// per-event `(four-head address, candidate address)` pairs.
pub fn h3_mi_report_for_pairs(
    pairs: &[(u64, u64)],
    candidate_name: &str,
    candidate_cycle: u64,
    independence_threshold_bp: u64,
) -> (r: H3MIReport)
    ensures
        report_spec(
            r,
            joint_spec(pairs@),
            candidate_name@,
            candidate_cycle,
            independence_threshold_bp,
        ),
{
    let n = pairs.len();
    proof {
        assert(n <= u64::MAX);
        lemma_pairs_fit(pairs@);
    }
    let joint = build_joint_distribution(pairs);
    let mx = marginal_x(joint.as_slice());
    let my = marginal_y(joint.as_slice());
    let hx = entropy_nbp(counts_vec(mx.as_slice()).as_slice());
    let hy = entropy_nbp(counts_vec(my.as_slice()).as_slice());
    let hxy = joint_entropy_nbp(joint.as_slice());
    let d = hx + hy - hxy;
    let mi = if d > 0 {
        d
    } else {
        0
    };
    let independent = if hy - mi > 0 {
        hy - mi
    } else {
        0
    };
    let independence_ratio_bp: u64 = if hy > 0 {
        assert(independent <= hy);
        assert(independent * 10000 <= hy * 10000) by (nonlinear_arith)
            requires
                0 <= independent <= hy,
        ;
        proof {
            vstd::arithmetic::div_mod::lemma_div_is_ordered(
                (independent * 10000) as int,
                (hy * 10000) as int,
                hy as int,
            );
            vstd::arithmetic::div_mod::lemma_div_by_multiple(10000, hy as int);
            assert(hy * 10000 == 10000 * hy) by (nonlinear_arith);
        }
        (((independent as i128) * 10000) / (hy as i128)) as u64
    } else {
        0
    };
    H3MIReport {
        candidate_name: crate::text::owned(candidate_name),
        candidate_cycle,
        joint_entropy_nbp: hxy,
        four_head_entropy_nbp: hx,
        candidate_entropy_nbp: hy,
        mutual_information_nbp: mi,
        independent_information_nbp: independent,
        independence_ratio_bp,
        admissible: independence_ratio_bp >= independence_threshold_bp,
    }
}

/// The `(four-head address, candidate address)` pair of each event's
/// day, the four heads of cycles `four`, the candidate of cycle `cycle`.
pub open spec fn event_pairs(events: Seq<CodexEvent>, four: Seq<u64>, cycle: u64) -> Seq<(u64, u64)> {
    Seq::new(
        events.len(),
        |k: int|
            (
                day_address(events[k].days_since_epoch, four) as u64,
                day_address(events[k].days_since_epoch, seq![cycle]) as u64,
            ),
    )
}

/// The address pairs of the events: each day addressed over the four
/// heads and over the candidate head.
pub fn event_address_pairs(events: &EventSet, four: &[u64], cycle: u64) -> (r: Vec<(u64, u64)>)
    requires
        four@.len() * 6 <= usize::MAX,
        forall|i: int| 0 <= i < four@.len() ==> #[trigger] four@[i] > 0,
        cycle > 0,
    ensures
        r@ == event_pairs(events.events@, four@, cycle),
{
    let cand = [cycle];
    let a = ConfigAtlas::event_addresses(events, four);
    let b = ConfigAtlas::event_addresses(events, &cand);
    proof {
        assert(cand@ == seq![cycle]);
    }
    let mut r: Vec<(u64, u64)> = Vec::new();
    let mut k: usize = 0;
    while k < a.len()
        invariant
            a@.len() == events.events@.len(),
            b@.len() == events.events@.len(),
            cand@ == seq![cycle],
            forall|q: int| 0 <= q < a@.len() ==> #[trigger] a@[q] == day_address(
                events.events@[q].days_since_epoch,
                four@,
            ),
            forall|q: int| 0 <= q < b@.len() ==> #[trigger] b@[q] == day_address(
                events.events@[q].days_since_epoch,
                cand@,
            ),
            0 <= k <= a.len(),
            r@ == event_pairs(events.events@, four@, cycle).subrange(0, k as int),
        decreases a.len() - k,
    {
        r.push((a[k], b[k]));
        k = k + 1;
        assert(r@ =~= event_pairs(events.events@, four@, cycle).subrange(0, k as int));
    }
    assert(r@ =~= event_pairs(events.events@, four@, cycle));
    r
}

/// The mutual-information report of a candidate head (name, cycle) over a
/// set of events, against the four heads of cycles `four`.
pub fn h3_mi_report(
    events: &EventSet,
    four: &[u64],
    candidate_name: &str,
    candidate_cycle: u64,
    independence_threshold_bp: u64,
) -> (r: H3MIReport)
    requires
        four@.len() * 6 <= usize::MAX,
        forall|i: int| 0 <= i < four@.len() ==> #[trigger] four@[i] > 0,
        candidate_cycle > 0,
    ensures
        report_spec(
            r,
            joint_spec(event_pairs(events.events@, four@, candidate_cycle)),
            candidate_name@,
            candidate_cycle,
            independence_threshold_bp,
        ),
{
    let pairs = event_address_pairs(events, four, candidate_cycle);
    h3_mi_report_for_pairs(pairs.as_slice(), candidate_name, candidate_cycle, independence_threshold_bp)
}

/// A joint table with its two coordinates exchanged.
pub open spec fn swap_joint(joint: Seq<((u64, u64), u64)>) -> Seq<((u64, u64), u64)> {
    joint.map_values(|e: ((u64, u64), u64)| ((e.0.1, e.0.0), e.1))
}

/// Exchanging the coordinates exchanges the marginals.
proof fn lemma_swap_marginals(joint: Seq<((u64, u64), u64)>)
    ensures
        marginal_spec(swap_joint(joint), true) == marginal_spec(joint, false),
        marginal_spec(swap_joint(joint), false) == marginal_spec(joint, true),
        counts_of(swap_joint(joint)) == counts_of(joint),
    decreases joint.len(),
{
    if joint.len() > 0 {
        lemma_swap_marginals(joint.drop_last());
        assert(swap_joint(joint).drop_last() =~= swap_joint(joint.drop_last()));
    }
    assert(counts_of(swap_joint(joint)) =~= counts_of(joint));
}

/// Mutual information is symmetric: exchanging the two coordinates of the
/// joint table leaves it unchanged.
pub proof fn lemma_mutual_information_symmetric(joint: Seq<((u64, u64), u64)>)
    ensures
        mutual_information_spec(swap_joint(joint)) == mutual_information_spec(joint),
{
    lemma_swap_marginals(joint);
}

/// A zero count adds nothing to the entropy: the histogram with an empty
/// class appended has the same entropy.
pub proof fn lemma_entropy_zero_count(c: Seq<u64>)
    ensures
        entropy_spec(c.push(0)) == entropy_spec(c),
{
    assert(c.push(0).drop_last() =~= c);
}

/// Removing one count takes its share out of both sums.
proof fn lemma_sums_remove(c: Seq<u64>, i: int)
    requires
        0 <= i < c.len(),
    ensures
        count_sum(c) == count_sum(c.remove(i)) + c[i],
        weighted_ln(c) == weighted_ln(c.remove(i)) + if c[i] > 0 {
            c[i] * ln_spec(c[i] as nat)
        } else {
            0
        },
    decreases c.len(),
{
    if i == c.len() - 1 {
        assert(c.remove(i) =~= c.drop_last());
    } else {
        lemma_sums_remove(c.drop_last(), i);
        assert(c.remove(i).drop_last() =~= c.drop_last().remove(i));
        assert(c.remove(i).last() == c.last());
    }
}

/// Histograms with the same counts in any order have the same totals and
/// weighted logarithm sums.
proof fn lemma_sums_permutation(a: Seq<u64>, b: Seq<u64>)
    requires
        a.to_multiset() == b.to_multiset(),
    ensures
        count_sum(a) == count_sum(b),
        weighted_ln(a) == weighted_ln(b),
    decreases a.len(),
{
    broadcast use vstd::seq_lib::group_to_multiset_ensures;
    vstd::seq_lib::to_multiset_len(a);
    vstd::seq_lib::to_multiset_len(b);
    if a.len() == 0 {
        assert(b.len() == 0);
    } else {
        let x = a.last();
        assert(a.contains(x)) by {
            assert(a[a.len() - 1] == x);
        }
        assert(a.to_multiset().count(x) > 0);
        assert(b.contains(x));
        let i = choose|i: int| 0 <= i < b.len() && b[i] == x;
        assert(a.drop_last() =~= a.remove(a.len() - 1));
        assert(a.drop_last().to_multiset() == b.remove(i).to_multiset());
        lemma_sums_permutation(a.drop_last(), b.remove(i));
        lemma_sums_remove(b, i);
    }
}

/// Entropy depends on the counts alone, not on their order.
pub proof fn lemma_entropy_permutation(a: Seq<u64>, b: Seq<u64>)
    requires
        a.to_multiset() == b.to_multiset(),
    ensures
        entropy_spec(a) == entropy_spec(b),
{
    lemma_sums_permutation(a, b);
}

/// At most one class of the histogram is non-empty.
pub open spec fn single_class(c: Seq<u64>) -> bool {
    forall|i: int, j: int| 0 <= i < c.len() && 0 <= j < c.len() && c[i] > 0 && c[j] > 0 ==> i == j
}

/// The sums of a histogram whose counts are all zero vanish.
proof fn lemma_all_zero_sums(c: Seq<u64>)
    requires
        forall|i: int| 0 <= i < c.len() ==> c[i] == 0,
    ensures
        count_sum(c) == 0,
        weighted_ln(c) == 0,
    decreases c.len(),
{
    if c.len() > 0 {
        lemma_all_zero_sums(c.drop_last());
    }
}

/// With a single non-empty class of `m` events, the total is `m` and the
/// weighted sum `m·ln m`.
proof fn lemma_single_class_sums(c: Seq<u64>)
    requires
        single_class(c),
    ensures
        weighted_ln(c) == (if count_sum(c) > 0 { count_sum(c) * ln_spec(count_sum(c)) } else { 0 }),
    decreases c.len(),
{
    if c.len() > 0 {
        let p = c.drop_last();
        let x = c.last();
        if x == 0 {
            assert(single_class(p)) by {
                assert forall|i: int, j: int|
                    0 <= i < p.len() && 0 <= j < p.len() && p[i] > 0 && p[j] > 0 implies i == j by {
                    assert(c[i] == p[i] && c[j] == p[j]);
                }
            }
            lemma_single_class_sums(p);
        } else {
            assert forall|i: int| 0 <= i < p.len() implies p[i] == 0 by {
                assert(c[i] == p[i]);
                if p[i] > 0 {
                    assert(c[c.len() - 1] > 0);
                }
            }
            lemma_all_zero_sums(p);
        }
    }
}

/// Entropy vanishes when at most one class is non-empty.
pub proof fn lemma_entropy_single_class(c: Seq<u64>)
    requires
        single_class(c),
    ensures
        entropy_spec(c) == 0,
{
    lemma_single_class_sums(c);
    let t = count_sum(c);
    if t > 0 {
        let l = ln_spec(t);
        let w = t * l;
        assert(trunc_div(w, t as int) == l) by {
            if w >= 0 {
                assert(l >= 0) by (nonlinear_arith)
                    requires
                        w == t * l,
                        w >= 0,
                        t > 0,
                ;
                vstd::arithmetic::div_mod::lemma_div_by_multiple(l, t as int);
                assert(w == l * t) by (nonlinear_arith)
                    requires
                        w == t * l,
                ;
            } else {
                assert(-w == t * (-l)) by (nonlinear_arith)
                    requires
                        w == t * l,
                ;
                assert(-l >= 0) by (nonlinear_arith)
                    requires
                        -w == t * (-l),
                        w < 0,
                        t > 0,
                ;
                vstd::arithmetic::div_mod::lemma_div_by_multiple(-l, t as int);
                assert(-w == (-l) * t) by (nonlinear_arith)
                    requires
                        -w == t * (-l),
                ;
            }
        }
    }
}

} // verus!
