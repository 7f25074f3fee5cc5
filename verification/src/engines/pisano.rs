//! Pisano periods, Fibonacci entry points and one-period Fibonacci
//! residue sequences, computed exactly by walking `(F_n, F_{n+1}) mod m`.

use vstd::prelude::*;
use vstd::arithmetic::div_mod::{lemma_add_mod_noop, lemma_small_mod};

verus! {

/// Largest modulus the Pisano helpers accept.
pub const PISANO_MAX_MODULUS: u64 = 100_000;

/// Errors of the Pisano helpers.
#[derive(Clone, Debug, PartialEq, Eq, Structural)]
pub enum PisanoError {
    /// The modulus is zero.
    ModulusZero,
    /// The modulus exceeds `PISANO_MAX_MODULUS`, or no period was found
    /// within the `6·m` search bound.
    ModulusTooLarge(u64),
}

/// The Fibonacci numbers `F_0 = 0, F_1 = 1, F_{n+2} = F_n + F_{n+1}`.
pub open spec fn fib(n: nat) -> nat
    decreases n,
{
    if n == 0 {
        0
    } else if n == 1 {
        1
    } else {
        fib((n - 2) as nat) + fib((n - 1) as nat)
    }
}

/// `(F_n, F_{n+1})` reduced modulo `m` at step `n`: `n` is a period
/// return point.
pub open spec fn returns_to_origin(m: nat, n: nat) -> bool {
    fib(n) % m == 0 && fib(n + 1) % m == 1nat % m
}

/// `n` is the Pisano period of `m`: the least `n > 0` at which
/// `(F_n, F_{n+1}) ≡ (0, 1) (mod m)`.
pub open spec fn is_pisano_period(m: nat, n: nat) -> bool {
    &&& n >= 1
    &&& returns_to_origin(m, n)
    &&& forall|k: nat| 1 <= k < n ==> !#[trigger] returns_to_origin(m, k)
}

/// `n` is the Fibonacci entry point of `m`: the least `n > 0` with `m | F_n`.
pub open spec fn is_entry_point(m: nat, n: nat) -> bool {
    &&& n >= 1
    &&& fib(n) % m == 0
    &&& forall|k: nat| 1 <= k < n ==> #[trigger] fib(k) % m != 0
}

/// The step relation of the residue walk is the Fibonacci recurrence mod `m`.
pub proof fn lemma_fib_step_mod(m: nat, n: nat)
    requires
        m > 0,
    ensures
        fib(n + 2) % m == ((fib(n) % m) + (fib(n + 1) % m)) % m,
{
    assert(fib(n + 2) == fib(n) + fib(n + 1));
    lemma_add_mod_noop(fib(n) as int, fib(n + 1) as int, m as int);
}

/// Pisano period `π(m)`.
///
/// `Ok(n)` carries the least `n ≥ 1` with `(F_n, F_{n+1}) ≡ (0, 1) (mod m)`,
/// found within `n ≤ 6m`; `m == 0` and `m > PISANO_MAX_MODULUS` are refused.
pub fn pisano_period(m: u64) -> (r: Result<u64, PisanoError>)
    ensures
        m == 13 || m == 20 ==> r is Ok,
        m == 0 ==> r == Err::<u64, PisanoError>(PisanoError::ModulusZero),
        m > PISANO_MAX_MODULUS ==> r == Err::<u64, PisanoError>(PisanoError::ModulusTooLarge(m)),
        1 <= m <= PISANO_MAX_MODULUS ==> match r {
            Ok(n) => is_pisano_period(m as nat, n as nat) && n <= 6 * m,
            Err(e) => e == PisanoError::ModulusTooLarge(m) && forall|k: nat|
                1 <= k <= 6 * m ==> !#[trigger] returns_to_origin(m as nat, k),
        },
{
    proof {
        lemma_calendar_moduli_return();
    }
    if m == 0 {
        return Err(PisanoError::ModulusZero);
    }
    if m > PISANO_MAX_MODULUS {
        return Err(PisanoError::ModulusTooLarge(m));
    }
    if m == 1 {
        assert(returns_to_origin(1, 1)) by {
            reveal_with_fuel(fib, 3);
        }
        return Ok(1);
    }
    let mut a: u64 = 0;
    let mut b: u64 = 1;
    let upper_bound: u64 = 6 * m;
    let mut n: u64 = 1;
    proof {
        assert(fib(0) == 0 && fib(1) == 1);
        lemma_small_mod(0, m as nat);
        lemma_small_mod(1, m as nat);
    }
    while n <= upper_bound
        invariant
            2 <= m <= PISANO_MAX_MODULUS,
            upper_bound == 6 * m,
            1 <= n <= upper_bound + 1,
            a as nat == fib((n - 1) as nat) % (m as nat),
            b as nat == fib(n as nat) % (m as nat),
            1nat % (m as nat) == 1,
            forall|k: nat| 1 <= k < n ==> !#[trigger] returns_to_origin(m as nat, k),
        decreases upper_bound + 1 - n,
    {
        proof {
            lemma_fib_step_mod(m as nat, (n - 1) as nat);
        }
        let next = (a + b) % m;
        a = b;
        b = next;
        if a == 0 && b == 1 {
            assert(returns_to_origin(m as nat, n as nat));
            return Ok(n);
        }
        assert(!returns_to_origin(m as nat, n as nat));
        n = n + 1;
    }
    Err(PisanoError::ModulusTooLarge(m))
}

/// Fibonacci entry point `α(m)`: the least `n ≥ 1` with `m | F_n`,
/// searched within `n ≤ 6m`.
pub fn fibonacci_entry_point(m: u64) -> (r: Result<u64, PisanoError>)
    ensures
        m == 13 || m == 20 ==> r is Ok,
        r matches Ok(a) ==> forall|p: nat| #[trigger] is_pisano_period(m as nat, p) ==> p % (a as nat) == 0,
        m == 0 ==> r == Err::<u64, PisanoError>(PisanoError::ModulusZero),
        m > PISANO_MAX_MODULUS ==> r == Err::<u64, PisanoError>(PisanoError::ModulusTooLarge(m)),
        1 <= m <= PISANO_MAX_MODULUS ==> match r {
            Ok(n) => is_entry_point(m as nat, n as nat) && n <= 6 * m,
            Err(e) => e == PisanoError::ModulusTooLarge(m) && forall|k: nat|
                1 <= k <= 6 * m ==> #[trigger] fib(k) % (m as nat) != 0,
        },
{
    proof {
        lemma_calendar_moduli_return();
    }
    if m == 0 {
        return Err(PisanoError::ModulusZero);
    }
    if m > PISANO_MAX_MODULUS {
        return Err(PisanoError::ModulusTooLarge(m));
    }
    if m == 1 {
        assert(fib(1) % 1 == 0);
        proof {
            lemma_entry_divides_every_period(1, 1);
        }
        return Ok(1);
    }
    let mut a: u64 = 0;
    let mut b: u64 = 1;
    let upper_bound: u64 = 6 * m;
    let mut n: u64 = 1;
    proof {
        assert(fib(0) == 0 && fib(1) == 1);
        lemma_small_mod(0, m as nat);
        lemma_small_mod(1, m as nat);
    }
    while n <= upper_bound
        invariant
            2 <= m <= PISANO_MAX_MODULUS,
            upper_bound == 6 * m,
            1 <= n <= upper_bound + 1,
            a as nat == fib((n - 1) as nat) % (m as nat),
            b as nat == fib(n as nat) % (m as nat),
            forall|k: nat| 1 <= k < n ==> #[trigger] fib(k) % (m as nat) != 0,
        decreases upper_bound + 1 - n,
    {
        proof {
            lemma_fib_step_mod(m as nat, (n - 1) as nat);
        }
        let next = (a + b) % m;
        a = b;
        b = next;
        if a == 0 {
            proof {
                lemma_entry_divides_every_period(m as nat, n as nat);
            }
            return Ok(n);
        }
        n = n + 1;
    }
    Err(PisanoError::ModulusTooLarge(m))
}

/// One full Pisano period of Fibonacci residues:
/// `[F_0 mod m, F_1 mod m, …, F_{π(m)-1} mod m]`.
pub fn fibonacci_mod_sequence(m: u64) -> (r: Result<Vec<u64>, PisanoError>)
    ensures
        m == 13 || m == 20 ==> r is Ok,
        m == 0 ==> r == Err::<Vec<u64>, PisanoError>(PisanoError::ModulusZero),
        m > PISANO_MAX_MODULUS ==> r == Err::<Vec<u64>, PisanoError>(
            PisanoError::ModulusTooLarge(m),
        ),
        1 <= m <= PISANO_MAX_MODULUS ==> match r {
            Ok(seq) => {
                &&& is_pisano_period(m as nat, seq.len() as nat)
                &&& seq.len() <= 6 * m
                &&& forall|i: int| 0 <= i < seq.len() ==> #[trigger] seq[i] as nat == fib(i as nat)
                    % (m as nat)
            },
            Err(e) => e == PisanoError::ModulusTooLarge(m) && forall|k: nat|
                1 <= k <= 6 * m ==> !#[trigger] returns_to_origin(m as nat, k),
        },
{
    proof {
        lemma_calendar_moduli_return();
    }
    let pi = pisano_period(m)?;
    let mut seq: Vec<u64> = Vec::new();
    let mut a: u64 = 0;
    let mut b: u64 = 1 % m;
    proof {
        assert(fib(0) == 0 && fib(1) == 1);
        lemma_small_mod(0, m as nat);
    }
    seq.push(a);
    let mut i: u64 = 1;
    while i < pi
        invariant
            1 <= m <= PISANO_MAX_MODULUS,
            is_pisano_period(m as nat, pi as nat),
            pi <= 6 * m,
            1 <= i <= pi,
            seq.len() == i,
            a as nat == fib((i - 1) as nat) % (m as nat),
            b as nat == fib(i as nat) % (m as nat),
            b < m,
            forall|j: int| 0 <= j < seq.len() ==> #[trigger] seq[j] as nat == fib(j as nat) % (
            m as nat),
        decreases pi - i,
    {
        proof {
            lemma_fib_step_mod(m as nat, (i - 1) as nat);
        }
        seq.push(b);
        let next = (a + b) % m;
        a = b;
        b = next;
        i = i + 1;
    }
    Ok(seq)
}


/// The Fibonacci numbers up to `F_61`.
proof fn lemma_fib_table()
    ensures
        fib(7) == 13,
        fib(28) == 317811,
        fib(29) == 514229,
        fib(30) == 832040,
        fib(60) == 1548008755920,
        fib(61) == 2504730781961,
{
    assert(fib(0) == 0);
    assert(fib(1) == 1);
    assert(fib(2) == 1);
    assert(fib(3) == 2);
    assert(fib(4) == 3);
    assert(fib(5) == 5);
    assert(fib(6) == 8);
    assert(fib(7) == 13);
    assert(fib(8) == 21);
    assert(fib(9) == 34);
    assert(fib(10) == 55);
    assert(fib(11) == 89);
    assert(fib(12) == 144);
    assert(fib(13) == 233);
    assert(fib(14) == 377);
    assert(fib(15) == 610);
    assert(fib(16) == 987);
    assert(fib(17) == 1597);
    assert(fib(18) == 2584);
    assert(fib(19) == 4181);
    assert(fib(20) == 6765);
    assert(fib(21) == 10946);
    assert(fib(22) == 17711);
    assert(fib(23) == 28657);
    assert(fib(24) == 46368);
    assert(fib(25) == 75025);
    assert(fib(26) == 121393);
    assert(fib(27) == 196418);
    assert(fib(28) == 317811);
    assert(fib(29) == 514229);
    assert(fib(30) == 832040);
    assert(fib(31) == 1346269);
    assert(fib(32) == 2178309);
    assert(fib(33) == 3524578);
    assert(fib(34) == 5702887);
    assert(fib(35) == 9227465);
    assert(fib(36) == 14930352);
    assert(fib(37) == 24157817);
    assert(fib(38) == 39088169);
    assert(fib(39) == 63245986);
    assert(fib(40) == 102334155);
    assert(fib(41) == 165580141);
    assert(fib(42) == 267914296);
    assert(fib(43) == 433494437);
    assert(fib(44) == 701408733);
    assert(fib(45) == 1134903170);
    assert(fib(46) == 1836311903);
    assert(fib(47) == 2971215073);
    assert(fib(48) == 4807526976);
    assert(fib(49) == 7778742049);
    assert(fib(50) == 12586269025);
    assert(fib(51) == 20365011074);
    assert(fib(52) == 32951280099);
    assert(fib(53) == 53316291173);
    assert(fib(54) == 86267571272);
    assert(fib(55) == 139583862445);
    assert(fib(56) == 225851433717);
    assert(fib(57) == 365435296162);
    assert(fib(58) == 591286729879);
    assert(fib(59) == 956722026041);
    assert(fib(60) == 1548008755920);
    assert(fib(61) == 2504730781961);
}

/// `π(13) ≤ 28` and `π(20) ≤ 60`: `(F_28, F_29) ≡ (0, 1) (mod 13)` and
/// `(F_60, F_61) ≡ (0, 1) (mod 20)`; also `13 | F_7` and `20 | F_30`.
pub proof fn lemma_calendar_moduli_return()
    ensures
        returns_to_origin(13, 28),
        returns_to_origin(20, 60),
        fib(7) % 13 == 0,
        fib(30) % 20 == 0,
{
    lemma_fib_table();
}

/// A modulus has at most one Pisano period.
pub proof fn lemma_pisano_period_unique(m: nat, n1: nat, n2: nat)
    requires
        is_pisano_period(m, n1),
        is_pisano_period(m, n2),
    ensures
        n1 == n2,
{
    if n1 < n2 {
        assert(!returns_to_origin(m, n1));
    } else if n2 < n1 {
        assert(!returns_to_origin(m, n2));
    }
}

/// `m` divides `y` exactly when `y = m·k` for some `k`.
proof fn lemma_divides_witness(m: int, y: int)
    requires
        m > 0,
    ensures
        y % m == 0 <==> y == m * (y / m),
        y % m == 0 ==> forall|k: int| #[trigger] ((y * k) % m) == 0,
{
    vstd::arithmetic::div_mod::lemma_fundamental_div_mod(y, m);
    if y % m == 0 {
        assert forall|k: int| #[trigger] ((y * k) % m) == 0 by {
            let q = y / m;
            assert(y * k == (q * k) * m) by (nonlinear_arith)
                requires
                    y == m * q,
            ;
            vstd::arithmetic::div_mod::lemma_mod_multiples_basic(q * k, m);
        }
    }
}

/// The addition formula `F_{a+n+1} = F_{a+1}·F_{n+1} + F_a·F_n`.
proof fn lemma_fib_addition(a: nat, n: nat)
    ensures
        fib(a + n + 1) == fib(a + 1) * fib(n + 1) + fib(a) * fib(n),
    decreases n,
{
    if n == 0 {
        assert(fib(1) == 1 && fib(0) == 0);
        let x = fib(a + 1) as int;
        let y = fib(a) as int;
        assert(x == x * 1 + y * 0) by (nonlinear_arith);
    } else if n == 1 {
        assert(fib(2) == fib(0) + fib(1));
        assert(fib(a + 2) == fib(a) + fib(a + 1));
        let x = fib(a + 1) as int;
        let y = fib(a) as int;
        assert(x + y == x * 1 + y * 1) by (nonlinear_arith);
    } else {
        lemma_fib_addition(a, (n - 1) as nat);
        lemma_fib_addition(a, (n - 2) as nat);
        assert(fib(a + n + 1) == fib((a + n - 1) as nat) + fib(a + n));
        assert(fib(n + 1) == fib((n - 1) as nat) + fib(n));
        assert(fib(n) == fib((n - 2) as nat) + fib((n - 1) as nat));
        let x = fib(a + 1) as int;
        let y = fib(a) as int;
        assert(fib(a + n + 1) == x * fib(n + 1) + y * fib(n)) by (nonlinear_arith)
            requires
                fib(a + n + 1) == fib((a + n - 1) as nat) + fib(a + n),
                fib(a + n) == x * fib(n) + y * fib((n - 1) as nat),
                fib((a + n - 1) as nat) == x * fib((n - 1) as nat) + y * fib((n - 2) as nat),
                fib(n + 1) == fib((n - 1) as nat) + fib(n),
                fib(n) == fib((n - 2) as nat) + fib((n - 1) as nat),
        ;
    }
}

/// Cassini's identity `F_{n+1}·F_{n−1} − F_n² = (−1)ⁿ`.
proof fn lemma_cassini(n: nat)
    requires
        n >= 1,
    ensures
        fib(n + 1) * fib((n - 1) as nat) - fib(n) * fib(n) == (if n % 2 == 0 { 1int } else { -1int }),
    decreases n,
{
    if n == 1 {
        assert(fib(2) == fib(0) + fib(1));
        assert(fib(0) == 0 && fib(1) == 1);
        assert(fib(2) * fib(0) - fib(1) * fib(1) == -1) by (nonlinear_arith)
            requires
                fib(0) == 0,
                fib(1) == 1,
                fib(2) == 1,
        ;
    } else {
        lemma_cassini((n - 1) as nat);
        assert(fib(n + 1) == fib((n - 1) as nat) + fib(n));
        assert(fib(n) == fib((n - 2) as nat) + fib((n - 1) as nat));
        let s: int = if (n - 1) as nat % 2 == 0 { 1 } else { -1 };
        assert(fib(n + 1) * fib((n - 1) as nat) - fib(n) * fib(n) == -s) by (nonlinear_arith)
            requires
                fib(n) * fib((n - 2) as nat) - fib((n - 1) as nat) * fib((n - 1) as nat) == s,
                fib(n + 1) == fib((n - 1) as nat) + fib(n),
                fib(n) == fib((n - 2) as nat) + fib((n - 1) as nat),
        ;
        assert((if n % 2 == 0 { 1int } else { -1int }) == -s);
    }
}

/// Past a zero `F_a ≡ 0 (mod m)`, a zero `F_{a+j} ≡ 0` forces `F_j ≡ 0`.
proof fn lemma_zero_shift(m: nat, a: nat, j: nat)
    requires
        m >= 1,
        a >= 1,
        fib(a) % m == 0,
        fib(a + j) % m == 0,
    ensures
        fib(j) % m == 0,
{
    let mi = m as int;
    let c = fib(a + 1) as int;
    let d = fib((a - 1) as nat) as int;
    let x = fib(j) as int;
    let y = fib(a) as int;
    // F_{a+j} = c·F_j + F_a·F_{j−1}, so m | c·F_j.
    let z: int = if j == 0 { 0 } else { fib((j - 1) as nat) as int };
    if j == 0 {
        assert(fib(0) == 0);
        vstd::arithmetic::div_mod::lemma_small_mod(0, m);
    } else {
        lemma_fib_addition(a, (j - 1) as nat);
        assert(a + (j - 1) as nat + 1 == a + j);
        assert(fib(a + j) == c * x + y * z);
        lemma_divides_witness(mi, fib(a + j) as int);
        lemma_divides_witness(mi, y);
        let u = (fib(a + j) as int) / mi;
        let w = y / mi;
        lemma_cassini(a);
        let s: int = if a % 2 == 0 { 1 } else { -1 };
        // x·s = x·(c·d − y²) = d·(c·x) − x·y² = m·(d·(u − w·z) − x·w·y).
        let k = d * (u - w * z) - x * w * y;
        assert(x * s == d * (c * x) - x * (y * y)) by (nonlinear_arith)
            requires
                c * d - y * y == s,
        ;
        assert(d * (c * x) == d * (mi * u) - d * (y * z)) by (nonlinear_arith)
            requires
                c * x + y * z == mi * u,
        ;
        assert(d * (y * z) == mi * (d * w * z)) by (nonlinear_arith)
            requires
                y == mi * w,
        ;
        assert(x * (y * y) == mi * (x * w * y)) by (nonlinear_arith)
            requires
                y == mi * w,
        ;
        assert(d * (mi * u) - mi * (d * w * z) - mi * (x * w * y) == mi * k) by {
            let e = d * (u - w * z);
            let f = x * w * y;
            vstd::arithmetic::mul::lemma_mul_is_distributive_sub(mi, e, f);
            vstd::arithmetic::mul::lemma_mul_is_distributive_sub(d, u, w * z);
            vstd::arithmetic::mul::lemma_mul_is_distributive_sub(mi, d * u, d * (w * z));
            vstd::arithmetic::mul::lemma_mul_is_associative(mi, d, u);
            vstd::arithmetic::mul::lemma_mul_is_associative(d, mi, u);
            vstd::arithmetic::mul::lemma_mul_is_commutative(mi, d);
            vstd::arithmetic::mul::lemma_mul_is_associative(d, w, z);
        }
        vstd::arithmetic::div_mod::lemma_mod_multiples_basic(k, mi);
        assert((k * mi) == mi * k) by (nonlinear_arith);
        if s == 1 {
            assert(x == mi * k);
        } else {
            assert(x == mi * (-k)) by (nonlinear_arith)
                requires
                    x * s == mi * k,
                    s == -1,
            ;
            vstd::arithmetic::div_mod::lemma_mod_multiples_basic(-k, mi);
            assert((-k) * mi == mi * (-k)) by (nonlinear_arith);
        }
    }
}

/// Zeros repeat only at the same offset within the entry point: a zero
/// at `k·a + r` forces a zero at `r`.
proof fn lemma_zero_reduce(m: nat, a: nat, k: nat, r: nat)
    requires
        m >= 1,
        a >= 1,
        fib(a) % m == 0,
        fib(k * a + r) % m == 0,
    ensures
        fib(r) % m == 0,
    decreases k,
{
    if k > 0 {
        assert(k * a + r == a + ((k - 1) as nat * a + r)) by (nonlinear_arith)
            requires
                k >= 1,
        ;
        lemma_zero_shift(m, a, ((k - 1) as nat * a + r) as nat);
        lemma_zero_reduce(m, a, (k - 1) as nat, r);
    } else {
        assert(k * a == 0) by (nonlinear_arith)
            requires
                k == 0,
        ;
    }
}

/// The entry point divides every Pisano period of `m`.
proof fn lemma_entry_divides_every_period(m: nat, a: nat)
    requires
        m >= 1,
        is_entry_point(m, a),
    ensures
        forall|p: nat| #[trigger] is_pisano_period(m, p) ==> p % a == 0,
{
    assert forall|p: nat| #[trigger] is_pisano_period(m, p) implies p % a == 0 by {
        lemma_entry_point_divides_period(m, a, p);
    }
}

/// The Fibonacci entry point of `m` divides its Pisano period.
pub proof fn lemma_entry_point_divides_period(m: nat, a: nat, p: nat)
    requires
        m >= 1,
        is_entry_point(m, a),
        is_pisano_period(m, p),
    ensures
        p % a == 0,
{
    vstd::arithmetic::div_mod::lemma_fundamental_div_mod(p as int, a as int);
    let k = p / a;
    let r = p % a;
    assert(p == k * a + r) by (nonlinear_arith)
        requires
            p == a * k + r,
    ;
    lemma_zero_reduce(m, a, k, r);
    if r >= 1 {
        assert(fib(r) % m != 0);
    }
}

} // verus!
