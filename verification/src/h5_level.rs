//! The K-Elimination level of a cycle at a prime `p`: `⌊log_p(c)⌋`, the
//! index of the highest base-`p` digit of `c` (0 below `p`, and for 0).

use vstd::prelude::*;

verus! {

/// `⌊log_p(c)⌋` for `c ≥ 1` and `p ≥ 2`; 0 for `c < p`.
pub open spec fn level_spec(c: nat, p: nat) -> nat
    decreases c,
{
    if p >= 2 && c >= p {
        proof {
            vstd::arithmetic::div_mod::lemma_div_is_strictly_smaller(c as int, p as int);
        }
        1 + level_spec(c / p, p)
    } else {
        0
    }
}

/// The K-Elimination level of `c` at `p`: `⌊log_p(c)⌋`.
pub fn k_elim_level(c: u64, p: u64) -> (l: u32)
    requires
        p >= 2,
    ensures
        l == level_spec(c as nat, p as nat),
{
    let mut x = c;
    let mut level: u32 = 0;
    proof {
        lemma_level_bound(c as nat, p as nat);
    }
    while x >= p
        invariant
            p >= 2,
            level + level_spec(x as nat, p as nat) == level_spec(c as nat, p as nat),
            level <= 64,
            level_spec(x as nat, p as nat) <= 64 - level,
        decreases x,
    {
        proof {
            lemma_level_bound(x as nat, p as nat);
        }
        x = x / p;
        level = level + 1;
    }
    level
}

/// `p^k` as a natural number.
pub open spec fn pow_nat(p: nat, k: nat) -> nat
    decreases k,
{
    if k == 0 {
        1
    } else {
        p * pow_nat(p, (k - 1) as nat)
    }
}

/// The level is the largest `L` with `p^L ≤ c` (for `c ≥ 1`): `c` lies in
/// `[p^L, p^(L+1))`.
pub proof fn lemma_level_brackets(c: nat, p: nat)
    requires
        p >= 2,
        c >= 1,
    ensures
        pow_nat(p, level_spec(c, p)) <= c < pow_nat(p, level_spec(c, p) + 1),
    decreases c,
{
    if c >= p {
        let q = c / p;
        vstd::arithmetic::div_mod::lemma_fundamental_div_mod(c as int, p as int);
        lemma_quotient_positive(c, p);
        assert(q < c) by {
            vstd::arithmetic::div_mod::lemma_div_is_strictly_smaller(c as int, p as int);
        }
        lemma_level_brackets(q, p);
        let l = level_spec(q, p);
        let lo = pow_nat(p, l);
        let hi = pow_nat(p, l + 1);
        assert(pow_nat(p, l + 1) == p * lo);
        assert(pow_nat(p, l + 2) == p * hi);
        assert(p * lo <= c < p * hi) by (nonlinear_arith)
            requires
                lo <= q < hi,
                c == p * q + c % p,
                0 <= c % p < p,
        ;
        assert(level_spec(c, p) == l + 1);
    } else {
        assert(level_spec(c, p) == 0);
        assert(pow_nat(p, 0) == 1);
        assert(pow_nat(p, 1) == p * pow_nat(p, 0));
        assert(pow_nat(p, 1) == p);
    }
}

/// `c ≥ p ≥ 2` gives `c / p ≥ 1`.
proof fn lemma_quotient_positive(c: nat, p: nat)
    requires
        p >= 2,
        c >= p,
    ensures
        c / p >= 1,
{
    vstd::arithmetic::div_mod::lemma_div_is_ordered(p as int, c as int, p as int);
    vstd::arithmetic::div_mod::lemma_div_by_self(p as int);
}

/// The level of a 64-bit value is at most 64.
proof fn lemma_level_bound(c: nat, p: nat)
    requires
        p >= 2,
        c <= u64::MAX,
    ensures
        level_spec(c, p) <= 64,
{
    lemma_level_log(c, p);
}

proof fn lemma_level_log(c: nat, p: nat)
    requires
        p >= 2,
    ensures
        c >= 1 ==> pow_nat(2, level_spec(c, p)) <= c,
        c <= u64::MAX ==> level_spec(c, p) <= 64,
    decreases c,
{
    if c >= p {
        let q = c / p;
        vstd::arithmetic::div_mod::lemma_fundamental_div_mod(c as int, p as int);
        lemma_quotient_positive(c, p);
        vstd::arithmetic::div_mod::lemma_div_is_strictly_smaller(c as int, p as int);
        lemma_level_log(q, p);
        let l = level_spec(q, p);
        assert(pow_nat(2, l + 1) == 2 * pow_nat(2, l));
        assert(2 * pow_nat(2, l) <= c) by (nonlinear_arith)
            requires
                pow_nat(2, l) <= q,
                c == p * q + c % p,
                c % p >= 0,
                p >= 2,
        ;
        if c <= u64::MAX {
            vstd::arithmetic::power2::lemma2_to64();
            lemma_pow2_grows(l + 1);
        }
    }
}

/// `2^k ≤ 2⁶⁴ − 1` forces `k ≤ 63`.
proof fn lemma_pow2_grows(k: nat)
    requires
        pow_nat(2, k) <= u64::MAX,
    ensures
        k <= 64,
    decreases k,
{
    if k > 64 {
        lemma_pow_monotone(2, 65, k);
        lemma_pow2_65();
    }
}

proof fn lemma_pow_monotone(p: nat, a: nat, b: nat)
    requires
        p >= 1,
        a <= b,
    ensures
        pow_nat(p, a) <= pow_nat(p, b),
    decreases b,
{
    if a < b {
        lemma_pow_monotone(p, a, (b - 1) as nat);
        lemma_pow_positive(p, (b - 1) as nat);
        assert(pow_nat(p, (b - 1) as nat) <= p * pow_nat(p, (b - 1) as nat)) by (nonlinear_arith)
            requires
                p >= 1,
                pow_nat(p, (b - 1) as nat) >= 0,
        ;
    }
}

proof fn lemma_pow_positive(p: nat, k: nat)
    requires
        p >= 1,
    ensures
        pow_nat(p, k) >= 1,
    decreases k,
{
    if k > 0 {
        lemma_pow_positive(p, (k - 1) as nat);
        assert(p * pow_nat(p, (k - 1) as nat) >= 1) by (nonlinear_arith)
            requires
                p >= 1,
                pow_nat(p, (k - 1) as nat) >= 1,
        ;
    }
}

proof fn lemma_pow2_65()
    ensures
        pow_nat(2, 65) > u64::MAX,
{
    reveal_with_fuel(pow_nat, 66);
}

/// Level at most 2 at `p` means exactly `c < p³`: the shadow-free
/// cycles, whose third digit is always zero.
pub proof fn lemma_level2_below_cube(c: nat, p: nat)
    requires
        p >= 2,
    ensures
        level_spec(c, p) <= 2 <==> c < p * p * p,
{
    reveal_with_fuel(pow_nat, 4);
    assert(pow_nat(p, 3) == p * p * p) by (nonlinear_arith)
        requires
            pow_nat(p, 3) == p * (p * (p * 1)),
    ;
    if c >= 1 {
        lemma_level_brackets(c, p);
        let l = level_spec(c, p);
        if l <= 2 {
            lemma_pow_monotone(p, l + 1, 3);
        } else {
            lemma_pow_monotone(p, 3, l);
        }
    } else {
        assert(p * p * p >= 1) by (nonlinear_arith)
            requires
                p >= 2,
        ;
    }
}

} // verus!
