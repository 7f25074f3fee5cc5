//! Euler's totient, the Möbius function and Ramanujan sums, exact in
//! integer arithmetic via the prime factorization.

use vstd::prelude::*;
use vstd::arithmetic::div_mod::{lemma_fundamental_div_mod, lemma_mod_multiples_basic};
use crate::factor::{is_prime, is_prime_factor_list, distinct_prime_factors, prod_of, prod_pred,
    increasing_primes, lemma_product_divides, lemma_factor_list_unique, lemma_divides_trans};

verus! {

/// Greatest common divisor by Euclid's recursion.
pub open spec fn gcd_spec(a: nat, b: nat) -> nat
    decreases b,
{
    if b == 0 {
        a
    } else {
        gcd_spec(b, a % b)
    }
}

/// The increasing list of the distinct primes dividing `n`.
pub open spec fn factor_list_of(n: nat) -> Seq<u64> {
    choose|s: Seq<u64>| is_prime_factor_list(n, s)
}

/// Euler's totient by the product formula `φ(n) = n · ∏_{p | n} (p - 1) / p`,
/// written `(n / ∏ p) · ∏ (p - 1)`; `φ(0) = 0`.
pub open spec fn totient_spec(n: nat) -> nat {
    if n == 0 {
        0
    } else {
        (n / prod_of(factor_list_of(n))) * prod_pred(factor_list_of(n))
    }
}

/// No square of a prime divides `n`.
pub open spec fn squarefree(n: nat) -> bool {
    forall|p: nat| #[trigger] is_prime(p) ==> n % (p * p) != 0
}

/// The Möbius function: 0 at 0 and on non-squarefree `n`, otherwise
/// `(-1)^k` for `k` distinct prime factors.
pub open spec fn mobius_spec(n: nat) -> int {
    if n == 0 {
        0
    } else if !squarefree(n) {
        0
    } else if factor_list_of(n).len() % 2 == 0 {
        1
    } else {
        -1
    }
}

/// Ramanujan's sum by von Sterneck's formula
/// `c_q(n) = μ(q/d) · φ(q) / φ(q/d)` with `d = gcd(q, n)`; `c_0(n) = 0`.
pub open spec fn ramanujan_spec(q: nat, n: nat) -> int {
    if q == 0 {
        0
    } else {
        let m = q / gcd_spec(q, n);
        if mobius_spec(m) == 0 {
            0
        } else {
            mobius_spec(m) * ((totient_spec(q) / totient_spec(m)) as int)
        }
    }
}

/// The greatest common divisor divides both arguments and is positive
/// when the first is.
pub proof fn lemma_gcd_divides(a: nat, b: nat)
    requires
        a > 0 || b > 0,
    ensures
        gcd_spec(a, b) > 0,
        a % gcd_spec(a, b) == 0,
        b % gcd_spec(a, b) == 0,
    decreases b,
{
    if b == 0 {
        vstd::arithmetic::div_mod::lemma_mod_self_0(a as int);
        vstd::arithmetic::div_mod::lemma_small_mod(0, a);
    } else {
        lemma_gcd_divides(b, a % b);
        let g = gcd_spec(b, a % b);
        lemma_fundamental_div_mod(a as int, b as int);
        lemma_fundamental_div_mod(b as int, g as int);
        lemma_fundamental_div_mod((a % b) as int, g as int);
        let q = a / b;
        let x = b / g;
        let y = (a % b) / g;
        assert(a as int == (q * x + y) * g) by (nonlinear_arith)
            requires
                a as int == b * q + (a % b) as int,
                b as int == g * x,
                (a % b) as int == g * y,
        ;
        lemma_mod_multiples_basic((q * x + y) as int, g as int);
    }
}

/// The factor list of `n ≥ 1` is the one trial division produces.
proof fn lemma_factor_list_of(n: nat, s: Seq<u64>)
    requires
        n >= 1,
        is_prime_factor_list(n, s),
    ensures
        factor_list_of(n) == s,
{
    let t = factor_list_of(n);
    lemma_factor_list_unique(n, s, t);
}

/// `∏ (p - 1) ≤ ∏ p` and both are positive for a list of primes.
proof fn lemma_pred_products(s: Seq<u64>)
    requires
        forall|i: int| 0 <= i < s.len() ==> is_prime(#[trigger] s[i] as nat),
    ensures
        1 <= prod_pred(s) <= prod_of(s),
    decreases s.len(),
{
    if s.len() > 0 {
        let t = s.drop_last();
        assert forall|i: int| 0 <= i < t.len() implies is_prime(#[trigger] t[i] as nat) by {
            assert(t[i] == s[i]);
        }
        lemma_pred_products(t);
        assert(is_prime(s[s.len() - 1] as nat));
        let a = prod_pred(t);
        let b = prod_of(t);
        let p = s.last() as nat;
        assert(1 <= a * ((p - 1) as nat) <= b * p) by (nonlinear_arith)
            requires
                1 <= a <= b,
                p >= 2,
        ;
    }
}

/// Totient bounds: `1 ≤ φ(n) ≤ n` for `n ≥ 1`.
pub proof fn lemma_totient_bounds(n: nat)
    requires
        n >= 1,
        is_prime_factor_list(n, factor_list_of(n)),
    ensures
        1 <= totient_spec(n) <= n,
{
    let s = factor_list_of(n);
    lemma_pred_products(s);
    lemma_product_divides(n, s);
    let p = prod_of(s);
    let q = prod_pred(s);
    lemma_fundamental_div_mod(n as int, p as int);
    let k = n / p;
    assert(1 <= k * q <= n) by (nonlinear_arith)
        requires
            n == p * k,
            n >= 1,
            1 <= q <= p,
    ;
}

/// Euler's totient `φ(n)`.
pub fn euler_totient(n: u64) -> (phi: u64)
    ensures
        phi == totient_spec(n as nat),
        n >= 1 ==> 1 <= phi <= n,
{
    if n == 0 {
        return 0;
    }
    let s = distinct_prime_factors(n);
    proof {
        lemma_factor_list_of(n as nat, s@);
    }
    let mut result: u64 = n;
    let mut i: usize = 0;
    proof {
        let e = s@.subrange(0, 0);
        assert(e.len() == 0);
        assert(prod_of(e) == 1);
        assert(prod_pred(e) == 1);
        assert((n as nat) / 1 == n as nat);
    }
    while i < s.len()
        invariant
            n >= 1,
            is_prime_factor_list(n as nat, s@),
            0 <= i <= s.len(),
            result as nat == ((n as nat) / prod_of(s@.subrange(0, i as int))) * prod_pred(
                s@.subrange(0, i as int),
            ),
        decreases s.len() - i,
    {
        let p = s[i];
        let ghost pre = s@.subrange(0, i as int);
        let ghost post = s@.subrange(0, i as int + 1);
        proof {
            assert(post.drop_last() =~= pre);
            assert(post.last() == p);
            assert(increasing_primes(post)) by {
                assert forall|a: int| 0 <= a < post.len() implies is_prime(#[trigger] post[a] as nat) by {
                    assert(post[a] == s@[a]);
                }
            }
            assert forall|a: int| 0 <= a < post.len() implies (n as nat) % (#[trigger] post[a] as nat)
                == 0 by {
                assert(post[a] == s@[a]);
            }
            lemma_product_divides(n as nat, post);
            lemma_product_divides(n as nat, pre);
        }
        let ghost big_p = prod_of(pre);
        let ghost big_q = prod_pred(pre);
        proof {
            assert(prod_of(post) == big_p * (p as nat));
            assert(prod_pred(post) == big_q * ((p - 1) as nat));
            assert(is_prime(s@[i as int] as nat));
            lemma_fundamental_div_mod(n as int, (big_p * (p as nat)) as int);
            let k = (n as nat) / (big_p * (p as nat));
            assert((n as nat) == big_p * ((p as nat) * k)) by (nonlinear_arith)
                requires
                    (n as nat) == (big_p * (p as nat)) * k,
            ;
            assert((n as nat) / big_p == (p as nat) * k) by {
                vstd::arithmetic::div_mod::lemma_div_multiples_vanish(
                    ((p as nat) * k) as int,
                    big_p as int,
                );
            }
            assert(result as nat == ((p as nat) * k) * big_q);
            assert((result as nat) / (p as nat) == k * big_q) by {
                assert(((p as nat) * k) * big_q == (p as nat) * (k * big_q)) by (nonlinear_arith);
                vstd::arithmetic::div_mod::lemma_div_multiples_vanish(
                    (k * big_q) as int,
                    p as int,
                );
            }
            assert((result as nat) - (result as nat) / (p as nat) == k * (big_q * ((p - 1) as nat)))
                by (nonlinear_arith)
                requires
                    result as nat == ((p as nat) * k) * big_q,
                    (result as nat) / (p as nat) == k * big_q,
                    p >= 2,
            ;
        }
        result = result - result / p;
        i = i + 1;
    }
    proof {
        assert(s@.subrange(0, s.len() as int) =~= s@);
        lemma_totient_bounds(n as nat);
    }
    result
}

/// `p² | n` exactly when `p | n / p`, for `p | n`.
proof fn lemma_square_divides(n: nat, p: nat)
    requires
        p > 0,
        n % p == 0,
    ensures
        (n % (p * p) == 0) <==> ((n / p) % p == 0),
{
    lemma_fundamental_div_mod(n as int, p as int);
    let k = n / p;
    assert(n == p * k);
    if (n / p) % p == 0 {
        lemma_fundamental_div_mod(k as int, p as int);
        let j = k / p;
        assert(n == j * (p * p)) by (nonlinear_arith)
            requires
                n == p * k,
                k == p * j,
        ;
        assert(p * p > 0) by (nonlinear_arith)
            requires
                p > 0,
        ;
        lemma_mod_multiples_basic(j as int, (p * p) as int);
    }
    if n % (p * p) == 0 {
        assert(p * p > 0) by (nonlinear_arith)
            requires
                p > 0,
        ;
        lemma_fundamental_div_mod(n as int, (p * p) as int);
        let j = n / (p * p);
        assert(n == p * (p * j)) by (nonlinear_arith)
            requires
                n == (p * p) * j,
        ;
        vstd::arithmetic::div_mod::lemma_div_multiples_vanish((p * j) as int, p as int);
        assert(n / p == p * j);
        lemma_mod_multiples_basic(j as int, p as int);
        assert(p * j == j * p) by (nonlinear_arith);
    }
}

/// Möbius function `μ(n)`.
pub fn mobius(n: u64) -> (mu: i64)
    ensures
        mu == mobius_spec(n as nat),
{
    if n == 0 {
        return 0;
    }
    let s = distinct_prime_factors(n);
    proof {
        lemma_factor_list_of(n as nat, s@);
    }
    let mut i: usize = 0;
    while i < s.len()
        invariant
            n >= 1,
            is_prime_factor_list(n as nat, s@),
            0 <= i <= s.len(),
            forall|j: int| 0 <= j < i ==> (n as nat) % ((#[trigger] s@[j] as nat) * (s@[j] as nat))
                != 0,
        decreases s.len() - i,
    {
        let p = s[i];
        proof {
            assert(is_prime(s@[i as int] as nat));
            lemma_square_divides(n as nat, p as nat);
        }
        if (n / p) % p == 0 {
            assert(!squarefree(n as nat)) by {
                assert(is_prime(p as nat));
            }
            return 0;
        }
        i = i + 1;
    }
    assert(squarefree(n as nat)) by {
        assert forall|p: nat| #[trigger] is_prime(p) implies (n as nat) % (p * p) != 0 by {
            if (n as nat) % (p * p) == 0 {
                assert(p * p > 0 && (p * p) % p == 0) by {
                    lemma_mod_multiples_basic(p as int, p as int);
                    assert(p * p > 0) by (nonlinear_arith)
                        requires
                            p >= 2,
                    ;
                }
                lemma_divides_trans(p, p * p, n as nat);
                assert(p <= n) by {
                    if p > n {
                        vstd::arithmetic::div_mod::lemma_small_mod(n as nat, p);
                    }
                }
                assert(s@.contains(p as u64));
                let j = choose|j: int| 0 <= j < s.len() && #[trigger] s@[j] == p as u64;
                assert((n as nat) % ((s@[j] as nat) * (s@[j] as nat)) != 0);
            }
        }
    }
    if s.len() % 2 == 0 {
        1
    } else {
        -1
    }
}

/// Greatest common divisor by Euclid's algorithm.
pub(crate) fn gcd(a: u64, b: u64) -> (g: u64)
    ensures
        g == gcd_spec(a as nat, b as nat),
{
    let mut x = a;
    let mut y = b;
    while y != 0
        invariant
            gcd_spec(x as nat, y as nat) == gcd_spec(a as nat, b as nat),
        decreases y,
    {
        let r = x % y;
        x = y;
        y = r;
    }
    x
}

/// Ramanujan sum `c_q(n)`; `c_0(n) = 0`.
pub fn ramanujan_sum(q: u64, n: u64) -> (c: i64)
    requires
        q <= i64::MAX,
    ensures
        c == ramanujan_spec(q as nat, n as nat),
        q == 1 ==> c == 1,
        q >= 1 && n == 0 ==> c == totient_spec(q as nat),
        is_prime(q as nat) && n % q == 0 ==> c == q - 1,
        is_prime(q as nat) && n % q != 0 ==> c == -1,
{
    proof {
        lemma_ramanujan_unit(n as nat);
        if q >= 1 {
            lemma_ramanujan_at_zero(q as nat);
        }
        if is_prime(q as nat) {
            lemma_ramanujan_prime(q as nat, n as nat);
        }
    }
    if q == 0 {
        return 0;
    }
    let d = gcd(q, n);
    proof {
        lemma_gcd_divides(q as nat, n as nat);
    }
    let m = q / d;
    proof {
        lemma_fundamental_div_mod(q as int, d as int);
        assert(m >= 1) by (nonlinear_arith)
            requires
                q as int == d * m,
                q >= 1,
                d >= 1,
        ;
    }
    let mu_m = mobius(m);
    if mu_m == 0 {
        return 0;
    }
    let phi_q = euler_totient(q);
    let phi_m = euler_totient(m);
    let ratio = (phi_q / phi_m) as i64;
    assert(phi_q / phi_m <= phi_q) by {
        vstd::arithmetic::div_mod::lemma_div_is_ordered_by_denominator(
            phi_q as int,
            1,
            phi_m as int,
        );
    }
    if mu_m == 1 {
        ratio
    } else {
        -ratio
    }
}

/// No prime divides 1, so its factor list is empty.
proof fn lemma_factor_list_one()
    ensures
        factor_list_of(1) == Seq::<u64>::empty(),
        totient_spec(1) == 1,
        mobius_spec(1) == 1,
{
    let e = Seq::<u64>::empty();
    assert forall|p: nat| #[trigger] is_prime(p) && 1nat % p == 0 implies e.contains(p as u64) by {
        vstd::arithmetic::div_mod::lemma_small_mod(1, p);
    }
    assert(is_prime_factor_list(1, e));
    let f = factor_list_of(1);
    lemma_factor_list_unique(1, f, e);
    assert(prod_of(e) == 1);
    assert(prod_pred(e) == 1);
    assert forall|p: nat| #[trigger] is_prime(p) implies 1nat % (p * p) != 0 by {
        assert(p * p >= 4) by (nonlinear_arith)
            requires
                p >= 2,
        ;
        vstd::arithmetic::div_mod::lemma_small_mod(1, p * p);
    }
}

/// A prime's only prime factor is itself: `φ(p) = p − 1`, `μ(p) = −1`.
proof fn lemma_factor_list_prime(p: nat)
    requires
        is_prime(p),
        p <= u64::MAX,
    ensures
        factor_list_of(p) == seq![p as u64],
        totient_spec(p) == p - 1,
        mobius_spec(p) == -1,
{
    let s = seq![p as u64];
    vstd::arithmetic::div_mod::lemma_mod_self_0(p as int);
    assert forall|q: nat| #[trigger] is_prime(q) && p % q == 0 implies s.contains(q as u64) by {
        crate::factor::lemma_prime_divides_prime(q, p);
        assert(s[0] == q as u64);
    }
    assert(is_prime_factor_list(p, s));
    let f = factor_list_of(p);
    lemma_factor_list_unique(p, f, s);
    assert(s.drop_last() =~= Seq::<u64>::empty());
    assert(s.last() == p as u64);
    assert(prod_of(s.drop_last()) == 1);
    assert(prod_pred(s.drop_last()) == 1);
    assert(s.len() == 1);
    assert(prod_of(s) == prod_of(s.drop_last()) * (s.last() as nat));
    assert(prod_pred(s) == prod_pred(s.drop_last()) * ((s.last() - 1) as nat));
    assert(prod_of(s) == p);
    assert(prod_pred(s) == p - 1);
    vstd::arithmetic::div_mod::lemma_div_by_multiple(1, p as int);
    assert forall|q: nat| #[trigger] is_prime(q) implies p % (q * q) != 0 by {
        if p % (q * q) == 0 {
            assert(q * q >= 4) by (nonlinear_arith)
                requires
                    q >= 2,
            ;
            lemma_fundamental_div_mod(p as int, (q * q) as int);
            let k = p / (q * q);
            assert(p == q * (q * k)) by (nonlinear_arith)
                requires
                    p == (q * q) * k,
            ;
            vstd::arithmetic::div_mod::lemma_mod_multiples_basic((q * k) as int, q as int);
            assert(p % q == 0) by {
                assert(q * (q * k) == (q * k) * q) by (nonlinear_arith);
            }
            crate::factor::lemma_prime_divides_prime(q, p);
            assert(q * q > p) by (nonlinear_arith)
                requires
                    q == p,
                    p >= 2,
            ;
            vstd::arithmetic::div_mod::lemma_small_mod(p, q * q);
        }
    }
}

/// The gcd of a prime and `n` is the prime when it divides `n`, else 1.
proof fn lemma_gcd_prime(p: nat, n: nat)
    requires
        is_prime(p),
    ensures
        n % p == 0 ==> gcd_spec(p, n) == p,
        n % p != 0 ==> gcd_spec(p, n) == 1,
{
    lemma_gcd_divides(p, n);
    let d = gcd_spec(p, n);
    if d > p {
        vstd::arithmetic::div_mod::lemma_small_mod(p, d);
    }
    assert(d == 1 || d == p) by {
        if 2 <= d < p {
            assert(p % d != 0);
        }
    }
    if n % p == 0 && d == 1 {
        crate::h4_montgomery::lemma_egcd_bezout(p, n);
        let x = crate::h4_montgomery::egcd_spec(p, n).1;
        let y = crate::h4_montgomery::egcd_spec(p, n).2;
        lemma_fundamental_div_mod(n as int, p as int);
        let k = n as int / p as int;
        assert(p * (x + k * y) == 1) by (nonlinear_arith)
            requires
                p * x + n * y == 1,
                n == p * k,
        ;
        assert(false) by (nonlinear_arith)
            requires
                p * (x + k * y) == 1,
                p >= 2,
        ;
    }
}

/// `c_1(n) = 1` for every `n`.
pub proof fn lemma_ramanujan_unit(n: nat)
    ensures
        ramanujan_spec(1, n) == 1,
{
    lemma_gcd_divides(1, n);
    assert(gcd_spec(1, n) == 1) by {
        if gcd_spec(1, n) > 1 {
            vstd::arithmetic::div_mod::lemma_small_mod(1, gcd_spec(1, n));
            assert(1nat % gcd_spec(1, n) == 1);
        }
    }
    lemma_factor_list_one();
}

/// `c_q(0) = φ(q)` for every `q ≥ 1`.
pub proof fn lemma_ramanujan_at_zero(q: nat)
    requires
        q >= 1,
    ensures
        ramanujan_spec(q, 0) == totient_spec(q),
{
    vstd::arithmetic::div_mod::lemma_fundamental_div_mod_converse(q as int, q as int, 1, 0);
    assert(gcd_spec(q, 0) == q);
    assert(q / gcd_spec(q, 0) == 1);
    lemma_factor_list_one();
    assert(totient_spec(q) / totient_spec(1) == totient_spec(q));
}

/// For a prime `p`: `c_p(n) = p − 1` when `p | n`, and `−1` otherwise.
pub proof fn lemma_ramanujan_prime(p: nat, n: nat)
    requires
        is_prime(p),
        p <= u64::MAX,
    ensures
        n % p == 0 ==> ramanujan_spec(p, n) == p - 1,
        n % p != 0 ==> ramanujan_spec(p, n) == -1,
{
    lemma_gcd_prime(p, n);
    lemma_factor_list_one();
    lemma_factor_list_prime(p);
    vstd::arithmetic::div_mod::lemma_div_by_multiple(1, p as int);
    vstd::arithmetic::div_mod::lemma_div_by_multiple(1, (p - 1) as int);
    assert((p as int) / 1 == p);
}

} // verus!
