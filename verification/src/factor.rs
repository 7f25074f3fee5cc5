//! Primes and trial-division factorization, with the divisibility facts
//! (transitivity, Euclid's lemma) the factorization proofs rest on.

use vstd::prelude::*;
use vstd::arithmetic::div_mod::{lemma_fundamental_div_mod, lemma_mod_multiples_basic,
    lemma_mul_mod_noop_left};

verus! {

/// `p` is prime: at least 2 and without a divisor strictly between 1 and `p`.
pub open spec fn is_prime(p: nat) -> bool {
    p >= 2 && forall|k: nat| 2 <= k < p ==> #[trigger] (p % k) != 0
}

/// `s` lists, in strictly increasing order, exactly the primes dividing `n`.
pub open spec fn is_prime_factor_list(n: nat, s: Seq<u64>) -> bool {
    &&& forall|i: int, j: int| 0 <= i < j < s.len() ==> s[i] < s[j]
    &&& forall|i: int| 0 <= i < s.len() ==> is_prime(#[trigger] s[i] as nat) && n % (s[i] as nat)
        == 0
    &&& forall|p: nat| #[trigger] is_prime(p) && n % p == 0 ==> s.contains(p as u64)
}

/// `x` has no divisor in `[2, d)`.
pub open spec fn no_factor_below(x: nat, d: nat) -> bool {
    forall|k: nat| 2 <= k < d ==> #[trigger] (x % k) != 0
}

/// Divisibility is transitive.
pub proof fn lemma_divides_trans(k: nat, d: nat, x: nat)
    requires
        k > 0,
        d > 0,
        x % d == 0,
        d % k == 0,
    ensures
        x % k == 0,
{
    lemma_fundamental_div_mod(x as int, d as int);
    lemma_fundamental_div_mod(d as int, k as int);
    let a = x as int / d as int;
    let b = d as int / k as int;
    assert(x as int == (b * a) * k) by (nonlinear_arith)
        requires
            x as int == d as int * a,
            d as int == k as int * b,
    ;
    lemma_mod_multiples_basic(b * a, k as int);
}

/// Euclid's lemma for a factor below the prime.
proof fn lemma_euclid_below(p: nat, a: nat, b: nat)
    requires
        is_prime(p),
        0 < a < p,
        (a * b) % p == 0,
    ensures
        b % p == 0,
    decreases a,
{
    if a == 1 {
        assert(a * b == b) by (nonlinear_arith)
            requires
                a == 1,
        ;
    } else {
        let r = p % a;
        assert(r != 0) by {
            assert(2 <= a < p);
        }
        lemma_fundamental_div_mod(p as int, a as int);
        lemma_fundamental_div_mod((a * b) as int, p as int);
        let q = p as int / a as int;
        let t = (a * b) as int / p as int;
        assert(r < a);
        assert((r * b) as int == (b as int - q * t) * p as int) by (nonlinear_arith)
            requires
                p as int == a as int * q + r as int,
                (a * b) as int == p as int * t,
        ;
        lemma_mod_multiples_basic(b as int - q * t, p as int);
        lemma_euclid_below(p, r, b);
    }
}

/// Euclid's lemma: a prime dividing a product divides one of the factors.
pub proof fn lemma_euclid(p: nat, a: nat, b: nat)
    requires
        is_prime(p),
        (a * b) % p == 0,
    ensures
        a % p == 0 || b % p == 0,
{
    let r = a % p;
    if r != 0 {
        lemma_mul_mod_noop_left(a as int, b as int, p as int);
        assert(((r * b) as int) % (p as int) == 0);
        lemma_euclid_below(p, r, b);
    }
}

/// The least divisor `d ≥ 2` of `x` is prime.
proof fn lemma_least_divisor_is_prime(x: nat, d: nat)
    requires
        x > 0,
        d >= 2,
        x % d == 0,
        no_factor_below(x, d),
    ensures
        is_prime(d),
{
    assert forall|k: nat| 2 <= k < d implies #[trigger] (d % k) != 0 by {
        if d % k == 0 {
            lemma_divides_trans(k, d, x);
            assert(x % k == 0);
        }
    }
}

/// An `x > 1` with no divisor below `d`, where `d² > x`, is prime.
proof fn lemma_prime_by_root(x: nat, d: nat)
    requires
        x > 1,
        d >= 2,
        d * d > x,
        no_factor_below(x, d),
    ensures
        is_prime(x),
{
    assert forall|k: nat| 2 <= k < x implies #[trigger] (x % k) != 0 by {
        if x % k == 0 {
            assert(k >= d);
            lemma_fundamental_div_mod(x as int, k as int);
            let j = x / k;
            assert(x == k * j);
            assert(j >= 2) by (nonlinear_arith)
                requires
                    x == k * j,
                    k < x,
                    k >= 2,
            ;
            lemma_mod_multiples_basic(k as int, j as int);
            assert(x % j == 0) by {
                assert(x == k * j);
            }
            assert(j >= d);
            assert(k * j >= d * d) by (nonlinear_arith)
                requires
                    k >= d,
                    j >= d,
            ;
        }
    }
}

/// Dividing out a factor keeps the divisors of the quotient dividing the whole.
proof fn lemma_quotient_divisors(x: nat, d: nat, k: nat)
    requires
        d > 0,
        k > 0,
        x % d == 0,
        (x / d) % k == 0,
    ensures
        x % k == 0,
{
    lemma_fundamental_div_mod(x as int, d as int);
    assert(x % (x / d) == 0 || x / d == 0) by {
        if x / d > 0 {
            lemma_mod_multiples_basic(d as int, (x / d) as int);
            assert(x == d * (x / d));
            assert(x as int == (d as int) * ((x / d) as int));
        }
    }
    if x / d == 0 {
        assert(x == d * (x / d) + x % d);
        assert(d * 0 == 0);
        assert(x == 0);
        vstd::arithmetic::div_mod::lemma_small_mod(0, k);
    } else {
        lemma_divides_trans(k, x / d, x);
    }
}

/// The distinct prime factors of `n` in increasing order, by trial
/// division; empty for `n ≤ 1`.
pub fn distinct_prime_factors(n: u64) -> (factors: Vec<u64>)
    ensures
        n >= 1 ==> is_prime_factor_list(n as nat, factors@),
        n <= 1 ==> factors@.len() == 0,
        factors@ == prime_factors_spec(n as nat),
{
    let factors = distinct_prime_factors_by_trial(n);
    proof {
        if n >= 1 {
            lemma_prime_factors_spec(n as nat, factors@);
        }
    }
    factors
}

/// The distinct prime factors of `n ≥ 1`, increasing; empty for `n ≤ 1`.
pub open spec fn prime_factors_spec(n: nat) -> Seq<u64> {
    if n <= 1 {
        seq![]
    } else {
        choose|f: Seq<u64>| is_prime_factor_list(n, f)
    }
}

/// A prime-factor list of `n ≥ 1` is `prime_factors_spec(n)`.
pub proof fn lemma_prime_factors_spec(n: nat, f: Seq<u64>)
    requires
        n >= 1,
        is_prime_factor_list(n, f),
    ensures
        prime_factors_spec(n) == f,
{
    if n == 1 {
        if f.len() > 0 {
            assert(is_prime(f[0] as nat) && 1nat % (f[0] as nat) == 0);
            vstd::arithmetic::div_mod::lemma_small_mod(1, f[0] as nat);
        }
        assert(f =~= seq![]);
    } else {
        let g = choose|g: Seq<u64>| is_prime_factor_list(n, g);
        lemma_factor_list_unique(n, f, g);
    }
}

fn distinct_prime_factors_by_trial(n: u64) -> (factors: Vec<u64>)
    ensures
        n >= 1 ==> is_prime_factor_list(n as nat, factors@),
        n <= 1 ==> factors@.len() == 0,
{
    let mut factors: Vec<u64> = Vec::new();
    if n <= 1 {
        proof {
            if n == 1 {
                assert forall|p: nat| #[trigger] is_prime(p) && (n as nat) % p == 0 implies factors@.contains(
                    p as u64,
                ) by {
                    vstd::arithmetic::div_mod::lemma_small_mod(1, p);
                }
            }
        }
        return factors;
    }
    let mut x: u64 = n;
    let mut d: u64 = 2;
    while d <= x / d
        invariant
            n >= 2,
            2 <= d,
            1 <= x <= n,
            d <= n + 1,
            (n as nat) % (x as nat) == 0,
            no_factor_below(x as nat, d as nat),
            forall|i: int, j: int| 0 <= i < j < factors.len() ==> factors@[i] < factors@[j],
            forall|i: int| 0 <= i < factors.len() ==> #[trigger] factors@[i] < d,
            forall|i: int| 0 <= i < factors.len() ==> is_prime(#[trigger] factors@[i] as nat) && (
            n as nat) % (factors@[i] as nat) == 0,
            forall|p: nat| #[trigger] is_prime(p) && (n as nat) % p == 0 && p < d ==> factors@.contains(
                p as u64,
            ),
            forall|p: nat| #[trigger] is_prime(p) && (n as nat) % p == 0 && p >= d ==> (x as nat) % p
                == 0,
        decreases n + 1 - d,
    {
        assert(d * d <= x) by (nonlinear_arith)
            requires
                d <= x / d,
                d >= 2,
        {
            lemma_fundamental_div_mod(x as int, d as int);
        }
        assert(d < 0x1_0000_0000) by (nonlinear_arith)
            requires
                d * d <= x,
                x <= u64::MAX,
        ;
        if x % d == 0 {
            proof {
                lemma_least_divisor_is_prime(x as nat, d as nat);
                lemma_divides_trans(d as nat, x as nat, n as nat);
            }
            let ghost before_d = factors@;
            factors.push(d);
            let ghost x0 = x;
            while x % d == 0
                invariant
                    2 <= d,
                    1 <= x <= x0,
                    (x0 as nat) % (x as nat) == 0,
                    (n as nat) % (x0 as nat) == 0,
                    no_factor_below(x as nat, d as nat),
                    forall|p: nat| #[trigger] is_prime(p) && (x0 as nat) % p == 0 && p > d ==> (
                    x as nat) % p == 0,
                decreases x,
            {
                let ghost xb = x;
                assert(x >= d) by {
                    if x < d {
                        vstd::arithmetic::div_mod::lemma_small_mod(x as nat, d as nat);
                    }
                }
                x = x / d;
                proof {
                    lemma_fundamental_div_mod(xb as int, d as int);
                    assert(xb == d * x);
                    assert(x >= 1) by (nonlinear_arith)
                        requires
                            xb == d * x,
                            xb >= 1,
                    ;
                    assert(x < xb) by (nonlinear_arith)
                        requires
                            xb == d * x,
                            d >= 2,
                            x >= 1,
                    ;
                    lemma_mod_multiples_basic(d as int, x as int);
                    assert((xb as nat) % (x as nat) == 0) by {
                        assert(xb as int == (d as int) * (x as int));
                    }
                    lemma_divides_trans(x as nat, xb as nat, x0 as nat);
                    assert forall|k: nat| 2 <= k < d implies #[trigger] ((x as nat) % k) != 0 by {
                        if (x as nat) % k == 0 {
                            lemma_quotient_divisors(xb as nat, d as nat, k);
                        }
                    }
                    assert forall|p: nat|
                        #[trigger] is_prime(p) && (x0 as nat) % p == 0 && p > d implies (
                        x as nat) % p == 0 by {
                        assert((xb as nat) % p == 0);
                        assert(((d as nat) * (x as nat)) % p == 0);
                        lemma_euclid(p, d as nat, x as nat);
                        vstd::arithmetic::div_mod::lemma_small_mod(d as nat, p);
                    }
                }
            }
            proof {
                lemma_divides_trans(x as nat, x0 as nat, n as nat);
                assert forall|k: nat| 2 <= k < d + 1 implies #[trigger] ((x as nat) % k) != 0 by {
                    if k < d {
                    }
                }
                assert forall|p: nat|
                    #[trigger] is_prime(p) && (n as nat) % p == 0 && p < d + 1 implies factors@.contains(
                    p as u64,
                ) by {
                    if p == d {
                        assert(factors@[factors.len() - 1] == d);
                    } else {
                        assert(before_d.contains(p as u64));
                        let i = choose|i: int| 0 <= i < before_d.len() && #[trigger] before_d[i]
                            == p as u64;
                        assert(factors@[i] == p as u64);
                    }
                }
            }
        } else {
            proof {
                assert forall|p: nat|
                    #[trigger] is_prime(p) && (n as nat) % p == 0 && p < d + 1 implies factors@.contains(
                    p as u64,
                ) by {
                    if p == d {
                        assert((x as nat) % p == 0);
                    }
                }
            }
        }
        d = d + 1;
    }
    proof {
        assert(d * d > x) by (nonlinear_arith)
            requires
                d > x / d,
                d >= 2,
        {
            lemma_fundamental_div_mod(x as int, d as int);
        }
    }
    if x > 1 {
        proof {
            lemma_prime_by_root(x as nat, d as nat);
            assert(x >= d) by {
                if x < d {
                    assert((x as nat) % (x as nat) == 0) by {
                        vstd::arithmetic::div_mod::lemma_mod_self_0(x as int);
                    }
                }
            }
        }
        let ghost before = factors@;
        factors.push(x);
        proof {
            assert forall|p: nat| #[trigger] is_prime(p) && (n as nat) % p == 0 implies factors@.contains(
                p as u64,
            ) by {
                if p < d {
                    let i = choose|i: int| 0 <= i < before.len() && #[trigger] before[i] == p as u64;
                    assert(factors@[i] == p as u64);
                } else {
                    assert((x as nat) % p == 0);
                    assert(p == x) by {
                        if p < x {
                            assert(p >= 2);
                        } else if p > x {
                            vstd::arithmetic::div_mod::lemma_small_mod(x as nat, p);
                        }
                    }
                    assert(factors@[factors.len() - 1] == p as u64);
                }
            }
        }
    } else {
        proof {
            assert forall|p: nat| #[trigger] is_prime(p) && (n as nat) % p == 0 implies factors@.contains(
                p as u64,
            ) by {
                if p >= d {
                    assert((x as nat) % p == 0);
                    vstd::arithmetic::div_mod::lemma_small_mod(x as nat, p);
                }
            }
        }
    }
    factors
}


/// Product of a sequence of factors.
pub open spec fn prod_of(s: Seq<u64>) -> nat
    decreases s.len(),
{
    if s.len() == 0 {
        1
    } else {
        prod_of(s.drop_last()) * (s.last() as nat)
    }
}

/// Product of `p - 1` over a sequence of factors.
pub open spec fn prod_pred(s: Seq<u64>) -> nat
    decreases s.len(),
{
    if s.len() == 0 {
        1
    } else {
        prod_pred(s.drop_last()) * ((s.last() - 1) as nat)
    }
}

/// Strictly increasing sequence of primes.
pub open spec fn increasing_primes(s: Seq<u64>) -> bool {
    &&& forall|i: int, j: int| 0 <= i < j < s.len() ==> s[i] < s[j]
    &&& forall|i: int| 0 <= i < s.len() ==> is_prime(#[trigger] s[i] as nat)
}

/// A prime dividing another prime is that prime.
pub proof fn lemma_prime_divides_prime(p: nat, q: nat)
    requires
        is_prime(p),
        is_prime(q),
        q % p == 0,
    ensures
        p == q,
{
    if p < q {
        assert(q % p != 0);
    } else if p > q {
        vstd::arithmetic::div_mod::lemma_small_mod(q, p);
    }
}

/// A prime outside a list of primes does not divide their product.
pub proof fn lemma_prime_not_dividing_product(p: nat, s: Seq<u64>)
    requires
        is_prime(p),
        forall|i: int| 0 <= i < s.len() ==> is_prime(#[trigger] s[i] as nat),
        !s.contains(p as u64),
    ensures
        prod_of(s) % p != 0,
    decreases s.len(),
{
    if s.len() == 0 {
        vstd::arithmetic::div_mod::lemma_small_mod(1, p);
    } else {
        let t = s.drop_last();
        assert(!t.contains(p as u64)) by {
            if t.contains(p as u64) {
                let i = choose|i: int| 0 <= i < t.len() && #[trigger] t[i] == p as u64;
                assert(s[i] == p as u64);
            }
        }
        assert forall|i: int| 0 <= i < t.len() implies is_prime(#[trigger] t[i] as nat) by {
            assert(t[i] == s[i]);
        }
        lemma_prime_not_dividing_product(p, t);
        if prod_of(s) % p == 0 {
            lemma_euclid(p, prod_of(t), s.last() as nat);
            assert(is_prime(s[s.len() - 1] as nat));
            if (s.last() as nat) % p == 0 {
                lemma_prime_divides_prime(p, s.last() as nat);
                assert(s[s.len() - 1] == p as u64);
            }
        }
    }
}

/// The product of distinct primes dividing `n` divides `n`.
pub proof fn lemma_product_divides(n: nat, s: Seq<u64>)
    requires
        n > 0,
        increasing_primes(s),
        forall|i: int| 0 <= i < s.len() ==> n % (#[trigger] s[i] as nat) == 0,
    ensures
        prod_of(s) > 0,
        n % prod_of(s) == 0,
    decreases s.len(),
{
    if s.len() == 0 {
        vstd::arithmetic::div_mod::lemma_small_mod(0, 1);
        assert(n % 1 == 0);
    } else {
        let t = s.drop_last();
        let p = s.last() as nat;
        assert(is_prime(s[s.len() - 1] as nat));
        assert(increasing_primes(t)) by {
            assert forall|i: int| 0 <= i < t.len() implies is_prime(#[trigger] t[i] as nat) by {
                assert(t[i] == s[i]);
            }
        }
        assert forall|i: int| 0 <= i < t.len() implies n % (#[trigger] t[i] as nat) == 0 by {
            assert(t[i] == s[i]);
        }
        lemma_product_divides(n, t);
        assert(!t.contains(p as u64)) by {
            if t.contains(p as u64) {
                let i = choose|i: int| 0 <= i < t.len() && #[trigger] t[i] == p as u64;
                assert(s[i] < s[s.len() - 1]);
            }
        }
        lemma_prime_not_dividing_product(p, t);
        let pt = prod_of(t);
        lemma_fundamental_div_mod(n as int, pt as int);
        let k = n / pt;
        assert(n == pt * k);
        assert((pt * k) % p == 0) by {
            assert(n % p == 0) by {
                assert(s[s.len() - 1] as nat == p);
            }
        }
        lemma_euclid(p, pt, k);
        lemma_fundamental_div_mod(k as int, p as int);
        let j = k / p;
        assert(n as int == ((pt * p) * j) as int) by (nonlinear_arith)
            requires
                n == pt * k,
                k == p * j,
        ;
        assert(prod_of(s) == pt * p);
        assert(pt * p > 0) by (nonlinear_arith)
            requires
                pt > 0,
                p >= 2,
        ;
        lemma_mod_multiples_basic(j as int, (pt * p) as int);
        assert(n as int == (j as int) * ((pt * p) as int)) by (nonlinear_arith)
            requires
                n as int == ((pt * p) * j) as int,
        ;
    }
}

/// Two prime factor lists of the same number are equal.
pub proof fn lemma_factor_list_unique(n: nat, a: Seq<u64>, b: Seq<u64>)
    requires
        n >= 1,
        is_prime_factor_list(n, a),
        is_prime_factor_list(n, b),
    ensures
        a == b,
{
    lemma_increasing_same_members(a, b);
}

/// Strictly increasing sequences with the same members are equal.
proof fn lemma_increasing_same_members(a: Seq<u64>, b: Seq<u64>)
    requires
        forall|i: int, j: int| 0 <= i < j < a.len() ==> a[i] < a[j],
        forall|i: int, j: int| 0 <= i < j < b.len() ==> b[i] < b[j],
        forall|x: u64| a.contains(x) <==> b.contains(x),
    ensures
        a == b,
    decreases a.len(),
{
    if a.len() == 0 {
        if b.len() > 0 {
            assert(b.contains(b[0]));
        }
        assert(a =~= b);
    } else {
        assert(a.contains(a[0]));
        assert(b.len() > 0);
        assert(b.contains(b[0]));
        let ia = choose|i: int| 0 <= i < a.len() && #[trigger] a[i] == b[0];
        let ib = choose|i: int| 0 <= i < b.len() && #[trigger] b[i] == a[0];
        assert(a[0] == b[0]) by {
            if ia > 0 {
                assert(a[0] < a[ia]);
            }
            if ib > 0 {
                assert(b[0] < b[ib]);
            }
        }
        let ta = a.drop_first();
        let tb = b.drop_first();
        assert forall|x: u64| ta.contains(x) <==> tb.contains(x) by {
            if ta.contains(x) {
                let i = choose|i: int| 0 <= i < ta.len() && #[trigger] ta[i] == x;
                assert(a[i + 1] == x);
                assert(a.contains(x));
                let j = choose|j: int| 0 <= j < b.len() && #[trigger] b[j] == x;
                assert(x > a[0]);
                assert(j > 0);
                assert(tb[j - 1] == x);
            }
            if tb.contains(x) {
                let i = choose|i: int| 0 <= i < tb.len() && #[trigger] tb[i] == x;
                assert(b[i + 1] == x);
                assert(b.contains(x));
                let j = choose|j: int| 0 <= j < a.len() && #[trigger] a[j] == x;
                assert(x > b[0]);
                assert(j > 0);
                assert(ta[j - 1] == x);
            }
        }
        lemma_increasing_same_members(ta, tb);
        assert(a =~= b) by {
            assert forall|i: int| 0 <= i < a.len() implies a[i] == b[i] by {
                if i > 0 {
                    assert(a[i] == ta[i - 1]);
                    assert(b[i] == tb[i - 1]);
                }
            }
        }
    }
}

} // verus!
