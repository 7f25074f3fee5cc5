//! The DKAM tiers of the primes: the boundary prime 13, the exact primes
//! 3, 5, 7, 11, the parking-lane prime 2 and the turbulent rest, with the
//! Fibonacci-indexed primes and the clean windows by stability index.

use vstd::prelude::*;

verus! {

/// Tier of a prime against the DKAM boundary structure.
#[derive(Clone, Copy, Debug, PartialEq, Eq, Hash, Structural)]
pub enum Tier {
    /// The post-boundary prime 13.
    Face13,
    /// Outside the clean window.
    Turbulent,
    /// The transition point, the prime 2.
    Boundary,
    /// Inside the clean window: 5, 7, 11 and the stability floor 3.
    Exact,
}

/// The tier of a value.
pub open spec fn tier_spec(p: u64) -> Tier {
    if p == 13 {
        Tier::Face13
    } else if p == 5 || p == 7 || p == 11 || p == 3 {
        Tier::Exact
    } else if p == 2 {
        Tier::Boundary
    } else {
        Tier::Turbulent
    }
}

/// The DKAM tier of a prime (any other value is turbulent).
pub fn tier_of(prime: u64) -> (t: Tier)
    ensures
        t == tier_spec(prime),
{
    match prime {
        13 => Tier::Face13,
        5 | 7 | 11 | 3 => Tier::Exact,
        2 => Tier::Boundary,
        _ => Tier::Turbulent,
    }
}

/// The Fibonacci-indexed primes `F(1..=10)`.
pub open spec fn fibonacci_primes() -> Seq<u64> {
    seq![2u64, 3, 5, 3, 7, 11, 13, 17, 19, 23]
}

/// The prime of Fibonacci index `k` for `1 ≤ k ≤ 10`: `F(4) = 3` is the
/// stability floor, `F(7) = 13` the boundary prime; `None` elsewhere.
pub fn fibonacci_index_prime(k: u64) -> (p: Option<u64>)
    ensures
        1 <= k <= 10 ==> p == Some(fibonacci_primes()[k - 1]),
        !(1 <= k <= 10) ==> p is None,
{
    match k {
        1 => Some(2),
        2 => Some(3),
        3 => Some(5),
        4 => Some(3),
        5 => Some(7),
        6 => Some(11),
        7 => Some(13),
        8 => Some(17),
        9 => Some(19),
        10 => Some(23),
        _ => None,
    }
}

/// The clean-window primes at stability index `rho`.
pub open spec fn window_spec(rho: u64) -> Seq<u64> {
    if rho == 2 {
        seq![2u64]
    } else if rho == 3 {
        seq![2u64, 3]
    } else if rho == 4 {
        seq![2u64, 3, 13]
    } else if 5 <= rho <= 7 {
        seq![2u64, 3, 5, 7, 11, 13]
    } else {
        seq![2u64, 3, 5, 7, 11, 13, 17, 19]
    }
}

/// The primes admissible under `deg(F) < ρ(B)` at stability index `rho`.
pub fn dkam_window(rho: u64) -> (w: Vec<u64>)
    ensures
        w@ == window_spec(rho),
{
    match rho {
        2 => vec![2],
        3 => vec![2, 3],
        4 => vec![2, 3, 13],
        5 | 6 | 7 => vec![2, 3, 5, 7, 11, 13],
        _ => vec![2, 3, 5, 7, 11, 13, 17, 19],
    }
}

/// The clean window only grows with the stability index.
pub proof fn lemma_window_monotone(a: u64, b: u64, p: u64)
    requires
        2 <= a <= b,
        window_spec(a).contains(p),
    ensures
        window_spec(b).contains(p),
{
    let wa = window_spec(a);
    let wb = window_spec(b);
    let i = choose|i: int| 0 <= i < wa.len() && wa[i] == p;
    if b >= 8 {
        assert(wb[i] == p || wb[5] == p);
    } else if b >= 5 {
        assert(wb[i] == p || wb[5] == p);
    } else if b == 4 {
        assert(wb[i] == p);
    } else {
        assert(wb[i] == p);
    }
}

} // verus!
