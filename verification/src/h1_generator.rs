//! Generator extraction for the calendar heads: carry signatures over the
//! Safe Basis, phase-decomposition rules, per-head structural invariants,
//! the scoring of candidate generators against them, and the walk through
//! the configuration space.
//!
//! A head is given by its name, its cycle and its phase intervals.

use vstd::prelude::*;
use crate::factor::{distinct_prime_factors, prime_factors_spec, is_prime_factor_list, prod_of,
    increasing_primes, lemma_product_divides, lemma_prime_factors_spec};
use crate::substrate::{carry_bits, carry_spec, pack_carry_bits, pack_spec, nullified_lanes,
    nullified_spec, safe_basis, cram_spec, active_spec, lanes_where, SAFE_BASIS};
use crate::text::{concat, decimal_string, decimal_text, owned};
use crate::h1_stage8::{seq_sum, lemma_seq_sum_const};

verus! {

/// Bit `i` of `x`.
pub open spec fn bit(x: u8, i: int) -> bool {
    ((x as int) / vstd::arithmetic::power2::pow2(i as nat) as int) % 2 == 1
}

/// The carry signature of a cycle: bit `i` set when the `i`-th Safe
/// Basis prime does not divide the cycle.
#[derive(Clone, Copy, Debug, PartialEq, Eq, Hash, Structural)]
pub struct CarrySignature(pub u8);

/// The Safe Basis primes, among the first `n` lanes, whose bit of `x` is
/// set (`set == true`) or clear.
pub open spec fn sig_lanes(x: u8, set: bool, n: nat) -> Seq<u64>
    decreases n,
{
    if n == 0 {
        seq![]
    } else {
        let prev = sig_lanes(x, set, (n - 1) as nat);
        if bit(x, n - 1) == set {
            prev.push(safe_basis()[n - 1])
        } else {
            prev
        }
    }
}

/// Number of positions below `n` where the bits of `a` and `b` differ.
pub open spec fn differing_bits(a: u8, b: u8, n: nat) -> nat
    decreases n,
{
    if n == 0 {
        0
    } else {
        differing_bits(a, b, (n - 1) as nat) + if bit(a, n - 1) != bit(b, n - 1) { 1nat } else { 0 }
    }
}

/// The bits of `b0 + 2·b1 + … + 32·b5` are `b0, …, b5`, then zeros.
proof fn lemma_bits6(x: u8, b0: u8, b1: u8, b2: u8, b3: u8, b4: u8, b5: u8)
    by (bit_vector)
    requires
        b0 <= 1 && b1 <= 1 && b2 <= 1 && b3 <= 1 && b4 <= 1 && b5 <= 1,
        x == b0 + 2 * b1 + 4 * b2 + 8 * b3 + 16 * b4 + 32 * b5,
    ensures
        x % 2 == b0,
        (x / 2) % 2 == b1,
        (x / 4) % 2 == b2,
        (x / 8) % 2 == b3,
        (x / 16) % 2 == b4,
        (x / 32) % 2 == b5,
        (x / 64) % 2 == 0,
        (x / 128) % 2 == 0,
{
}

/// The bits of a packed carry byte are the carry bits.
#[verifier::spinoff_prover]
proof fn lemma_pack_bits(c: u64)
    ensures
        forall|i: int| 0 <= i < 6 ==> #[trigger] bit(pack_spec(carry_spec(c)) as u8, i) == (c % safe_basis()[i] != 0),
        forall|i: int| 6 <= i < 8 ==> !#[trigger] bit(pack_spec(carry_spec(c)) as u8, i),
{
    vstd::arithmetic::power2::lemma2_to64();
    let x = pack_spec(carry_spec(c));
    let b0: u8 = if c % 2 != 0 { 1 } else { 0 };
    let b1: u8 = if c % 3 != 0 { 1 } else { 0 };
    let b2: u8 = if c % 5 != 0 { 1 } else { 0 };
    let b3: u8 = if c % 7 != 0 { 1 } else { 0 };
    let b4: u8 = if c % 11 != 0 { 1 } else { 0 };
    let b5: u8 = if c % 13 != 0 { 1 } else { 0 };
    assert(carry_spec(c)[0] == b0 && carry_spec(c)[1] == b1 && carry_spec(c)[2] == b2);
    assert(carry_spec(c)[3] == b3 && carry_spec(c)[4] == b4 && carry_spec(c)[5] == b5);
    assert(x == b0 + 2 * b1 + 4 * b2 + 8 * b3 + 16 * b4 + 32 * b5);
    let xb = x as u8;
    lemma_bits6(xb, b0, b1, b2, b3, b4, b5);
    assert(xb as int == x);
    assert(bit(xb, 0) == (c % 2 != 0)) by {
        assert(vstd::arithmetic::power2::pow2(0) == 1);
        assert((xb as int) / 1 == xb as int) by (nonlinear_arith);
    }
    assert(bit(xb, 1) == (c % 3 != 0)) by {
        assert(vstd::arithmetic::power2::pow2(1) == 2);
        assert((xb as int) / 2 == (xb / 2) as int);
    }
    assert(bit(xb, 2) == (c % 5 != 0)) by {
        assert(vstd::arithmetic::power2::pow2(2) == 4);
        assert((xb as int) / 4 == (xb / 4) as int);
    }
    assert(bit(xb, 3) == (c % 7 != 0)) by {
        assert(vstd::arithmetic::power2::pow2(3) == 8);
        assert((xb as int) / 8 == (xb / 8) as int);
    }
    assert(bit(xb, 4) == (c % 11 != 0)) by {
        assert(vstd::arithmetic::power2::pow2(4) == 16);
        assert((xb as int) / 16 == (xb / 16) as int);
    }
    assert(bit(xb, 5) == (c % 13 != 0)) by {
        assert(vstd::arithmetic::power2::pow2(5) == 32);
        assert((xb as int) / 32 == (xb / 32) as int);
    }
    assert(!bit(xb, 6)) by {
        assert(vstd::arithmetic::power2::pow2(6) == 64);
        assert((xb as int) / 64 == (xb / 64) as int);
    }
    assert(!bit(xb, 7)) by {
        assert(vstd::arithmetic::power2::pow2(7) == 128);
        assert((xb as int) / 128 == (xb / 128) as int);
    }
    assert forall|i: int| 0 <= i < 6 implies #[trigger] bit(xb, i) == (c % safe_basis()[i] != 0) by {
        if i == 0 {
        } else if i == 1 {
        } else if i == 2 {
        } else if i == 3 {
        } else if i == 4 {
        } else {
        }
    }
    assert forall|i: int| 6 <= i < 8 implies !#[trigger] bit(xb, i) by {
        if i == 6 {
        } else {
        }
    }
}

/// Number of the first `n` Safe Basis primes that divide exactly one of
/// `a` and `b`.
pub open spec fn divisibility_differs(a: u64, b: u64, n: nat) -> nat
    decreases n,
{
    if n == 0 {
        0
    } else {
        divisibility_differs(a, b, (n - 1) as nat) + if (a % safe_basis()[n - 1] == 0) != (b
            % safe_basis()[n - 1] == 0) {
            1nat
        } else {
            0
        }
    }
}

/// The distance between the signatures of two cycles counts the Safe
/// Basis primes dividing exactly one of them, so it is at most six.
pub proof fn lemma_signature_distance(a: u64, b: u64)
    ensures
        differing_bits(pack_spec(carry_spec(a)) as u8, pack_spec(carry_spec(b)) as u8, 8)
            == divisibility_differs(a, b, 6),
        divisibility_differs(a, b, 6) <= 6,
{
    lemma_pack_bits(a);
    lemma_pack_bits(b);
    let x = pack_spec(carry_spec(a)) as u8;
    let y = pack_spec(carry_spec(b)) as u8;
    assert(bit(x, 6) == bit(y, 6) && bit(x, 7) == bit(y, 7));
    assert(bit(x, 0) == (a % safe_basis()[0] != 0) && bit(y, 0) == (b % safe_basis()[0] != 0));
    assert(bit(x, 1) == (a % safe_basis()[1] != 0) && bit(y, 1) == (b % safe_basis()[1] != 0));
    assert(bit(x, 2) == (a % safe_basis()[2] != 0) && bit(y, 2) == (b % safe_basis()[2] != 0));
    assert(bit(x, 3) == (a % safe_basis()[3] != 0) && bit(y, 3) == (b % safe_basis()[3] != 0));
    assert(bit(x, 4) == (a % safe_basis()[4] != 0) && bit(y, 4) == (b % safe_basis()[4] != 0));
    assert(bit(x, 5) == (a % safe_basis()[5] != 0) && bit(y, 5) == (b % safe_basis()[5] != 0));
    reveal_with_fuel(differing_bits, 9);
    reveal_with_fuel(divisibility_differs, 7);
}

/// A signature's bit `i`, for `i < 8`.
fn bit_of(x: u8, i: usize) -> (b: bool)
    requires
        i < 8,
    ensures
        b == bit(x, i as int),
{
    let pows: [u8; 8] = [1, 2, 4, 8, 16, 32, 64, 128];
    proof {
        vstd::arithmetic::power2::lemma2_to64();
        assert(pows@[i as int] == vstd::arithmetic::power2::pow2(i as nat));
    }
    (x / pows[i]) % 2 == 1
}

impl CarrySignature {
    /// The signature of a cycle.
    pub fn from_cycle(cycle: u64) -> (s: Self)
        ensures
            s.0 as int == pack_spec(carry_spec(cycle)),
            forall|i: int| 0 <= i < 6 ==> #[trigger] bit(s.0, i) == (cycle % safe_basis()[i] != 0),
            forall|i: int| 6 <= i < 8 ==> !#[trigger] bit(s.0, i),
    {
        let bits = carry_bits(cycle);
        let p = pack_carry_bits(&bits);
        proof {
            lemma_pack_bits(cycle);
            assert(p == pack_spec(carry_spec(cycle)) as u8);
        }
        CarrySignature(p)
    }

    fn lanes(&self, set: bool) -> (v: Vec<u64>)
        ensures
            v@ == sig_lanes(self.0, set, 6),
    {
        let mut v: Vec<u64> = Vec::new();
        let mut i: usize = 0;
        while i < 6
            invariant
                0 <= i <= 6,
                v@ == sig_lanes(self.0, set, i as nat),
            decreases 6 - i,
        {
            let p = SAFE_BASIS[i];
            assert(p == safe_basis()[i as int]);
            if bit_of(self.0, i) == set {
                v.push(p);
            }
            i = i + 1;
        }
        v
    }

    /// The Safe Basis primes whose bit is set.
    pub fn active_primes(&self) -> (v: Vec<u64>)
        ensures
            v@ == sig_lanes(self.0, true, 6),
    {
        self.lanes(true)
    }

    /// The Safe Basis primes whose bit is clear.
    pub fn nullified_primes(&self) -> (v: Vec<u64>)
        ensures
            v@ == sig_lanes(self.0, false, 6),
    {
        self.lanes(false)
    }

    /// Number of differing bits of the two signatures.
    pub fn hamming_distance(&self, other: &Self) -> (d: u32)
        ensures
            d == differing_bits(self.0, other.0, 8),
    {
        let mut d: u32 = 0;
        let mut i: usize = 0;
        while i < 8
            invariant
                0 <= i <= 8,
                d == differing_bits(self.0, other.0, i as nat),
                d <= i,
            decreases 8 - i,
        {
            if bit_of(self.0, i) != bit_of(other.0, i) {
                d = d + 1;
            }
            i = i + 1;
        }
        d
    }
}

/// A cycle's signature lists the primes not dividing the cycle as active
/// and those dividing it as nullified, in Safe Basis order.
pub proof fn lemma_signature_lanes(c: u64, s: CarrySignature)
    requires
        forall|i: int| 0 <= i < 6 ==> #[trigger] bit(s.0, i) == (c % safe_basis()[i] != 0),
    ensures
        sig_lanes(s.0, true, 6) == active_spec(c),
        sig_lanes(s.0, false, 6) == nullified_spec(c),
{
    assert(bit(s.0, 0) == (c % 2 != 0));
    assert(bit(s.0, 1) == (c % 3 != 0));
    assert(bit(s.0, 2) == (c % 5 != 0));
    assert(bit(s.0, 3) == (c % 7 != 0));
    assert(bit(s.0, 4) == (c % 11 != 0));
    assert(bit(s.0, 5) == (c % 13 != 0));
    assert(sig_lanes(s.0, true, 0) == lanes_where(c, true, 0));
    assert(sig_lanes(s.0, false, 0) == lanes_where(c, false, 0));
    assert(safe_basis()[0] == 2 && safe_basis()[1] == 3 && safe_basis()[2] == 5);
    assert(safe_basis()[3] == 7 && safe_basis()[4] == 11 && safe_basis()[5] == 13);
    assert(sig_lanes(s.0, true, 1) == lanes_where(c, true, 1));
    assert(sig_lanes(s.0, true, 2) == lanes_where(c, true, 2));
    assert(sig_lanes(s.0, true, 3) == lanes_where(c, true, 3));
    assert(sig_lanes(s.0, true, 4) == lanes_where(c, true, 4));
    assert(sig_lanes(s.0, true, 5) == lanes_where(c, true, 5));
    assert(sig_lanes(s.0, false, 1) == lanes_where(c, false, 1));
    assert(sig_lanes(s.0, false, 2) == lanes_where(c, false, 2));
    assert(sig_lanes(s.0, false, 3) == lanes_where(c, false, 3));
    assert(sig_lanes(s.0, false, 4) == lanes_where(c, false, 4));
    assert(sig_lanes(s.0, false, 5) == lanes_where(c, false, 5));
}

/// A rule producing the phase intervals of a cycle.
#[derive(Clone, Debug, PartialEq, Eq, Structural)]
pub enum PhaseRule {
    /// `n_phases` equal phases.
    Uniform { n_phases: usize },
    /// One phase per distinct prime factor.
    FactorSplit,
    /// The canonical astronomical intervals.
    Astronomical,
    /// `count_a` phases of `len_a`, then one of `len_b`.
    Mixed { count_a: usize, len_a: u64, len_b: u64 },
}

/// The phases given to all factors but the last: `(c / t)·p` for each
/// factor `p`, with `t` the product of the distinct primes.
pub open spec fn split_head(c: u64, f: Seq<u64>) -> Seq<u64> {
    let q = (c as nat) / prod_of(f);
    f.drop_last().map_values(|p: u64| (q * p) as u64)
}

/// One phase per distinct prime factor of the cycle, summing to the
/// cycle: each factor `p` but the last gives `(c / t)·p` (`t` the product
/// of the distinct primes) and the last phase takes the rest; the cycle
/// itself when it has no prime factor.
pub open spec fn factor_split_spec(c: u64) -> Seq<u64> {
    let f = prime_factors_spec(c as nat);
    if f.len() == 0 {
        seq![c]
    } else {
        split_head(c, f).push((c - seq_sum(split_head(c, f))) as u64)
    }
}

/// The phases a rule produces for a cycle.
pub open spec fn apply_spec(rule: PhaseRule, c: u64) -> Seq<u64> {
    match rule {
        PhaseRule::Uniform { n_phases } => if c % (n_phases as u64) != 0 {
            seq![c]
        } else {
            Seq::new(n_phases as nat, |i: int| (c / (n_phases as u64)) as u64)
        },
        PhaseRule::FactorSplit => factor_split_spec(c),
        PhaseRule::Astronomical => if c == 584 {
            seq![236u64, 90, 250, 8]
        } else if c == 325 {
            seq![148u64, 177]
        } else {
            seq![c]
        },
        PhaseRule::Mixed { count_a, len_a, len_b } => Seq::new(count_a as nat, |i: int| len_a).push(len_b),
    }
}

/// The rule is applicable: a uniform rule has at least one phase.
pub open spec fn rule_ok(rule: PhaseRule) -> bool {
    rule matches PhaseRule::Uniform { n_phases } ==> n_phases > 0
}

/// A prefix product of increasing primes is at most the full product.
proof fn lemma_prefix_prod_le(s: Seq<u64>, k: int)
    requires
        0 <= k <= s.len(),
        forall|i: int| 0 <= i < s.len() ==> #[trigger] s[i] >= 1,
    ensures
        prod_of(s.subrange(0, k)) <= prod_of(s),
    decreases s.len() - k,
{
    if k < s.len() {
        lemma_prefix_prod_le(s, k + 1);
        assert(s.subrange(0, k + 1).drop_last() =~= s.subrange(0, k));
        let a = prod_of(s.subrange(0, k));
        let b = s[k] as nat;
        assert(a <= a * b) by (nonlinear_arith)
            requires
                b >= 1,
        ;
    } else {
        assert(s.subrange(0, k) =~= s);
    }
}

/// A sum of factors each at least 2 is at most their product.
proof fn lemma_sum_le_prod(s: Seq<u64>)
    requires
        forall|i: int| 0 <= i < s.len() ==> #[trigger] s[i] >= 2,
    ensures
        seq_sum(s) <= prod_of(s),
        prod_of(s) >= 1,
    decreases s.len(),
{
    if s.len() > 0 {
        let t = s.drop_last();
        assert forall|i: int| 0 <= i < t.len() implies #[trigger] t[i] >= 2 by {
            assert(t[i] == s[i]);
        }
        lemma_sum_le_prod(t);
        let a = seq_sum(t);
        let p = prod_of(t);
        let x = s.last() as int;
        if t.len() == 0 {
            assert(a == 0 && p == 1);
        } else {
            assert(t[0] >= 2);
            lemma_prod_at_least_two(t);
        }
        assert(a + x <= p * x) by (nonlinear_arith)
            requires
                a <= p,
                p >= 1,
                x >= 2,
                p == 1 ==> a == 0,
        ;
        assert(p * x >= 1) by (nonlinear_arith)
            requires
                p >= 1,
                x >= 2,
        ;
    }
}

/// A nonempty product of factors each at least 2 is at least 2.
proof fn lemma_prod_at_least_two(s: Seq<u64>)
    requires
        s.len() > 0,
        forall|i: int| 0 <= i < s.len() ==> #[trigger] s[i] >= 2,
    ensures
        prod_of(s) >= 2,
    decreases s.len(),
{
    let t = s.drop_last();
    if t.len() > 0 {
        assert forall|i: int| 0 <= i < t.len() implies #[trigger] t[i] >= 2 by {
            assert(t[i] == s[i]);
        }
        lemma_prod_at_least_two(t);
    }
    let p = prod_of(t);
    let x = s.last() as int;
    assert(p * x >= 2) by (nonlinear_arith)
        requires
            p >= 1,
            x >= 2,
    ;
}

/// The running sum of the split's head stays within `q` times the
/// product of the factors.
proof fn lemma_split_bound(f: Seq<u64>, q: nat, j: int)
    requires
        0 <= j < f.len(),
        forall|r: int| 0 <= r < f.len() ==> #[trigger] f[r] >= 2,
    ensures
        seq_sum(f.subrange(0, j + 1)) == seq_sum(f.subrange(0, j)) + f[j],
        q * seq_sum(f.subrange(0, j + 1)) == q * seq_sum(f.subrange(0, j)) + q * f[j],
        q * seq_sum(f.subrange(0, j)) <= q * seq_sum(f.subrange(0, j + 1)),
        q * seq_sum(f.subrange(0, j + 1)) <= q * prod_of(f),
        q * f[j] <= q * prod_of(f),
{
    let pre = f.subrange(0, j + 1);
    assert(pre.drop_last() =~= f.subrange(0, j));
    assert forall|r: int| 0 <= r < pre.len() implies #[trigger] pre[r] >= 2 by {
        assert(pre[r] == f[r]);
    }
    lemma_sum_le_prod(pre);
    lemma_sum_le_prod(f.subrange(0, j));
    lemma_prefix_prod_le(f, j + 1);
    let a = seq_sum(f.subrange(0, j));
    let b = seq_sum(pre);
    let x = f[j] as int;
    assert(b == a + x);
    assert(a >= 0) by {
        lemma_seq_sum_nonneg(f.subrange(0, j));
    }
    assert(q * b == q * a + q * x) by (nonlinear_arith)
        requires
            b == a + x,
    ;
    assert(q * a <= q * b && q * x <= q * b && q * b <= q * prod_of(f)) by (nonlinear_arith)
        requires
            b == a + x,
            a >= 0,
            x >= 0,
            b <= prod_of(pre),
            prod_of(pre) <= prod_of(f),
            q >= 0,
    ;
}

/// A sum of `u64` values is not negative.
proof fn lemma_seq_sum_nonneg(s: Seq<u64>)
    ensures
        seq_sum(s) >= 0,
    decreases s.len(),
{
    if s.len() > 0 {
        lemma_seq_sum_nonneg(s.drop_last());
    }
}

/// Phases from the prime factors of the cycle.
#[verifier::rlimit(30)]
fn factor_split_phases(cycle: u64) -> (v: Vec<u64>)
    ensures
        v@ == factor_split_spec(cycle),
        seq_sum(v@) == cycle,
        v@.len() == if prime_factors_spec(cycle as nat).len() == 0 {
            1
        } else {
            prime_factors_spec(cycle as nat).len()
        },
{
    let factors = distinct_prime_factors(cycle);
    if factors.len() == 0 {
        let v = vec![cycle];
        proof {
            reveal_with_fuel(seq_sum, 2);
            assert(v@.drop_last() =~= Seq::<u64>::empty());
        }
        return v;
    }
    let ghost f = factors@;
    proof {
        assert(cycle >= 2);
        assert(increasing_primes(f));
        lemma_product_divides(cycle as nat, f);
        vstd::arithmetic::div_mod::lemma_mod_is_zero(cycle as nat, prod_of(f));
        assert forall|i: int| 0 <= i < f.len() implies #[trigger] f[i] >= 2 by {
            assert(crate::factor::is_prime(f[i] as nat));
        }
    }
    let mut total: u64 = 1;
    let mut i: usize = 0;
    while i < factors.len()
        invariant
            f == factors@,
            0 <= i <= factors.len(),
            total == prod_of(f.subrange(0, i as int)),
            prod_of(f) <= cycle,
            forall|q: int| 0 <= q < f.len() ==> #[trigger] f[q] >= 2,
        decreases factors.len() - i,
    {
        proof {
            assert(f.subrange(0, i as int + 1).drop_last() =~= f.subrange(0, i as int));
            lemma_prefix_prod_le(f, i as int + 1);
        }
        total = total * factors[i];
        i = i + 1;
    }
    assert(f.subrange(0, f.len() as int) =~= f);
    let q = cycle / total;
    let ghost head = split_head(cycle, f);
    assert((cycle as nat) / prod_of(f) == q);
    proof {
        vstd::arithmetic::div_mod::lemma_fundamental_div_mod(cycle as int, total as int);
        assert(cycle == total * q);
    }
    let last = factors.len() - 1;
    assert(q * prod_of(f) == cycle) by (nonlinear_arith)
        requires
            cycle == total * q,
            total == prod_of(f),
    ;
    assert(seq_sum(f.subrange(0, 0)) == 0);
    assert(q * 0 == 0) by (nonlinear_arith);
    let mut v: Vec<u64> = Vec::new();
    let mut sum: u64 = 0;
    let mut j: usize = 0;
    while j < last
        invariant
            f == factors@,
            last == f.len() - 1,
            0 <= j <= last,
            total == prod_of(f),
            cycle == total * q,
            (cycle as nat) / prod_of(f) == q,
            head == split_head(cycle, f),
            forall|r: int| 0 <= r < f.len() ==> #[trigger] f[r] >= 2,
            v@ == head.subrange(0, j as int),
            sum == seq_sum(v@),
            sum == q * seq_sum(f.subrange(0, j as int)),
            sum <= cycle,
            q * prod_of(f) == cycle,
        decreases last - j,
    {
        let ghost pre = f.subrange(0, j as int + 1);
        proof {
            lemma_split_bound(f, q as nat, j as int);
            assert(f.drop_last()[j as int] == f[j as int]);
            assert((cycle as nat) / prod_of(f) == q);
            assert(head == f.drop_last().map_values(|p: u64| (q * p) as u64));
            assert(head[j as int] == (q * f[j as int]) as u64);
        }
        let phase = q * factors[j];
        let ghost before = v@;
        v.push(phase);
        sum = sum + phase;
        j = j + 1;
        proof {
            assert(v@.drop_last() =~= before);
            assert(f.subrange(0, j as int) =~= pre);
            assert(v@ =~= head.subrange(0, j as int));
        }
    }
    proof {
        assert(head.len() == last);
        assert(v@ =~= head);
    }
    assert(sum <= cycle);
    let ghost before = v@;
    v.push(cycle - sum);
    proof {
        assert(v@ =~= factor_split_spec(cycle));
        assert(v@.drop_last() =~= before);
    }
    v
}

/// A uniform or astronomical rule partitions the cycle: its phases add
/// up to the cycle, whatever the cycle.
pub proof fn lemma_rule_partitions_cycle(rule: PhaseRule, c: u64)
    requires
        rule_ok(rule),
        rule is Uniform || rule is Astronomical,
    ensures
        seq_sum(apply_spec(rule, c)) == c,
{
    reveal_with_fuel(seq_sum, 5);
    match rule {
        PhaseRule::Uniform { n_phases } => {
            if c % (n_phases as u64) == 0 {
                let q = (c / (n_phases as u64)) as u64;
                lemma_seq_sum_const(n_phases as nat, q);
                vstd::arithmetic::div_mod::lemma_fundamental_div_mod(c as int, n_phases as int);
                assert(n_phases as nat * q == c) by (nonlinear_arith)
                    requires
                        c == n_phases as int * (c as int / n_phases as int) + c as int % n_phases as int,
                        c as int % n_phases as int == 0,
                        q == c as int / n_phases as int,
                ;
                assert(apply_spec(rule, c) =~= Seq::new(n_phases as nat, |i: int| q));
            }
        },
        _ => {},
    }
}

/// A mixed rule's phases add up to `count_a · len_a + len_b`.
pub proof fn lemma_mixed_sum(count_a: usize, len_a: u64, len_b: u64, c: u64)
    ensures
        seq_sum(apply_spec(PhaseRule::Mixed { count_a, len_a, len_b }, c)) == count_a * len_a + len_b,
{
    lemma_seq_sum_const(count_a as nat, len_a);
    let s = Seq::new(count_a as nat, |i: int| len_a);
    assert(s.push(len_b).drop_last() =~= s);
}

impl PhaseRule {
    /// Description of the rule.
    pub fn label(&self) -> (s: String)
        ensures
            self matches PhaseRule::Uniform { n_phases } ==> s@ == "Uniform("@ + decimal_text(n_phases as nat)
                + " phases)"@,
            *self is FactorSplit ==> s@ == "FactorSplit (one phase per prime factor)"@,
            *self is Astronomical ==> s@ == "Astronomical (canonical intervals)"@,
            self matches PhaseRule::Mixed { count_a, len_a, len_b } ==> s@ == "Mixed("@ + decimal_text(count_a as nat)
                + "×"@ + decimal_text(len_a as nat) + " + "@ + decimal_text(len_b as nat) + ")"@,
    {
        match self {
            PhaseRule::Uniform { n_phases } => {
                let a = concat("Uniform(", decimal_string(*n_phases as u64).as_str());
                concat(a.as_str(), " phases)")
            },
            PhaseRule::FactorSplit => owned("FactorSplit (one phase per prime factor)"),
            PhaseRule::Astronomical => owned("Astronomical (canonical intervals)"),
            PhaseRule::Mixed { count_a, len_a, len_b } => {
                let a = concat("Mixed(", decimal_string(*count_a as u64).as_str());
                let b = concat(a.as_str(), "×");
                let c = concat(b.as_str(), decimal_string(*len_a).as_str());
                let d = concat(c.as_str(), " + ");
                let e = concat(d.as_str(), decimal_string(*len_b).as_str());
                concat(e.as_str(), ")")
            },
        }
    }

    /// The phase intervals the rule gives a cycle.
    pub fn apply(&self, cycle: u64) -> (v: Vec<u64>)
        requires
            rule_ok(*self),
        ensures
            v@ == apply_spec(*self, cycle),
            *self is FactorSplit ==> seq_sum(v@) == cycle && v@.len() == (if prime_factors_spec(
                cycle as nat,
            ).len() == 0 {
                1
            } else {
                prime_factors_spec(cycle as nat).len()
            }),
    {
        match self {
            PhaseRule::Uniform { n_phases } => {
                let n = *n_phases as u64;
                if cycle % n != 0 {
                    return vec![cycle];
                }
                let len = cycle / n;
                let mut v: Vec<u64> = Vec::new();
                let mut i: usize = 0;
                while i < *n_phases
                    invariant
                        0 <= i <= *n_phases,
                        v@ == Seq::new(i as nat, |k: int| len),
                    decreases *n_phases - i,
                {
                    v.push(len);
                    i = i + 1;
                    assert(v@ =~= Seq::new(i as nat, |k: int| len));
                }
                assert(v@ =~= apply_spec(*self, cycle));
                v
            },
            PhaseRule::FactorSplit => factor_split_phases(cycle),
            PhaseRule::Astronomical => {
                if cycle == 584 {
                    vec![236, 90, 250, 8]
                } else if cycle == 325 {
                    vec![148, 177]
                } else {
                    vec![cycle]
                }
            },
            PhaseRule::Mixed { count_a, len_a, len_b } => {
                let mut v: Vec<u64> = Vec::new();
                let mut i: usize = 0;
                while i < *count_a
                    invariant
                        0 <= i <= *count_a,
                        v@ == Seq::new(i as nat, |k: int| *len_a),
                    decreases *count_a - i,
                {
                    v.push(*len_a);
                    i = i + 1;
                    assert(v@ =~= Seq::new(i as nat, |k: int| *len_a));
                }
                v.push(*len_b);
                v
            },
        }
    }
}

/// All phases are equal.
pub open spec fn uniform(phases: Seq<u64>) -> bool {
    forall|i: int| 0 <= i < phases.len() - 1 ==> #[trigger] phases[i] == phases[i + 1]
}

/// Structural invariants of a head.
#[derive(Clone, Debug)]
pub struct HeadInvariants {
    pub name: &'static str,
    pub cycle: u64,
    pub carry_sig: CarrySignature,
    /// Number of distinct prime factors of the cycle.
    pub prime_factor_count: usize,
    pub prime_factors: Vec<u64>,
    /// Number of phases.
    pub phase_count: usize,
    /// All phases are equal.
    pub uniform_phases: bool,
    /// The common phase length if uniform (0 without phases); 0 otherwise.
    pub common_phase_len: u64,
    /// Safe Basis primes dividing the cycle.
    pub nullified: Vec<u64>,
    /// Share (bp) of active Safe Basis lanes.
    pub lane_entropy_bp: u64,
}

/// The invariants owed for a head of name `name`, cycle `cycle` and
/// phase intervals `phases`.
pub open spec fn invariants_of(inv: HeadInvariants, name: &'static str, cycle: u64, phases: Seq<u64>) -> bool {
    &&& inv.name == name
    &&& inv.cycle == cycle
    &&& inv.carry_sig.0 as int == pack_spec(carry_spec(cycle))
    &&& inv.prime_factors@ == prime_factors_spec(cycle as nat)
    &&& inv.prime_factor_count == inv.prime_factors@.len()
    &&& inv.phase_count == phases.len()
    &&& inv.uniform_phases == uniform(phases)
    &&& inv.common_phase_len == (if uniform(phases) && phases.len() > 0 { phases[0] } else { 0 })
    &&& inv.nullified@ == nullified_spec(cycle)
    &&& inv.lane_entropy_bp == (6 - nullified_spec(cycle).len()) * 10000 / 6
}

proof fn lemma_lanes_len(x: u64, active: bool, n: nat)
    ensures
        lanes_where(x, active, n).len() <= n,
    decreases n,
{
    if n > 0 {
        lemma_lanes_len(x, active, (n - 1) as nat);
    }
}

impl HeadInvariants {
    /// The invariants of a head of name `name`, cycle `cycle` and phase
    /// intervals `phases`.
    pub fn from_head(name: &'static str, cycle: u64, phases: &[u64]) -> (inv: Self)
        ensures
            invariants_of(inv, name, cycle, phases@),
    {
        let carry_sig = CarrySignature::from_cycle(cycle);
        let prime_factors = distinct_prime_factors(cycle);
        let phase_count = phases.len();
        let mut uniform_phases = true;
        if phases.len() >= 2 {
            let mut i: usize = 0;
            while i < phases.len() - 1
                invariant
                    phases.len() >= 2,
                    0 <= i <= phases.len() - 1,
                    uniform_phases == forall|k: int| 0 <= k < i ==> #[trigger] phases@[k] == phases@[k + 1],
                decreases phases.len() - 1 - i,
            {
                if phases[i] != phases[i + 1] {
                    uniform_phases = false;
                }
                i = i + 1;
            }
        }
        let common_phase_len = if uniform_phases && phases.len() > 0 {
            phases[0]
        } else {
            0
        };
        let nullified = nullified_lanes(cycle);
        proof {
            lemma_lanes_len(cycle, false, 6);
        }
        let active_count = (6 - nullified.len()) as u64;
        let lane_entropy_bp = active_count * 10000 / 6;
        HeadInvariants {
            name,
            cycle,
            carry_sig,
            prime_factor_count: prime_factors.len(),
            prime_factors,
            phase_count,
            uniform_phases,
            common_phase_len,
            nullified,
            lane_entropy_bp,
        }
    }
}

/// A generator candidate.
#[derive(Clone, Debug)]
pub struct GeneratorCandidate {
    pub label: String,
    /// The nullification pattern the candidate selects, if any.
    pub carry_pattern: Option<Vec<u64>>,
    /// The phase rule.
    pub phase_rule: PhaseRule,
    /// The cycles the candidate explains.
    pub explained_cycles: Vec<u64>,
}

/// How many of the three invariants a candidate matches for one head:
/// the cycle is explained, the rule gives the head's phase count, and the
/// carry pattern (if any) is the head's nullification pattern.
pub open spec fn head_matches(c: GeneratorCandidate, inv: HeadInvariants) -> nat {
    (if c.explained_cycles@.contains(inv.cycle) { 1nat } else { 0 }) + (if apply_spec(c.phase_rule, inv.cycle).len()
        == inv.phase_count {
        1nat
    } else {
        0
    }) + (match c.carry_pattern {
        Some(p) => if p@ == inv.nullified@ {
            1nat
        } else {
            0
        },
        None => 0,
    })
}

/// Heads with at least two matches, over the first `n` heads.
pub open spec fn heads_matched(c: GeneratorCandidate, invs: Seq<HeadInvariants>, n: nat) -> nat
    decreases n,
{
    if n == 0 {
        0
    } else {
        heads_matched(c, invs, (n - 1) as nat) + if head_matches(c, invs[n - 1]) >= 2 { 1nat } else { 0 }
    }
}

/// Total matches over the first `n` heads.
pub open spec fn matches_total(c: GeneratorCandidate, invs: Seq<HeadInvariants>, n: nat) -> nat
    decreases n,
{
    if n == 0 {
        0
    } else {
        matches_total(c, invs, (n - 1) as nat) + head_matches(c, invs[n - 1])
    }
}

proof fn lemma_match_bounds(c: GeneratorCandidate, invs: Seq<HeadInvariants>, n: nat)
    ensures
        heads_matched(c, invs, n) <= n,
        matches_total(c, invs, n) <= 3 * n,
    decreases n,
{
    if n > 0 {
        lemma_match_bounds(c, invs, (n - 1) as nat);
    }
}

/// `a` and `b` hold the same values in the same order.
fn same_values(a: &Vec<u64>, b: &Vec<u64>) -> (r: bool)
    ensures
        r == (a@ == b@),
{
    if a.len() != b.len() {
        return false;
    }
    let mut i: usize = 0;
    while i < a.len()
        invariant
            a@.len() == b@.len(),
            0 <= i <= a.len(),
            forall|k: int| 0 <= k < i ==> a@[k] == b@[k],
        decreases a.len() - i,
    {
        if a[i] != b[i] {
            return false;
        }
        i = i + 1;
    }
    assert(a@ =~= b@);
    true
}

impl GeneratorCandidate {
    /// The candidate's score against the heads: heads with at least two
    /// of the three invariants matched, matched invariants, and the
    /// number of invariants (three per head).
    pub fn score(&self, invariants: &[HeadInvariants]) -> (r: (usize, usize, usize))
        requires
            rule_ok(self.phase_rule),
            invariants@.len() * 3 <= usize::MAX,
        ensures
            r.0 == heads_matched(*self, invariants@, invariants@.len()),
            r.1 == matches_total(*self, invariants@, invariants@.len()),
            r.2 == invariants@.len() * 3,
    {
        let total = invariants.len() * 3;
        let mut matched_heads: usize = 0;
        let mut inv_matches: usize = 0;
        let mut k: usize = 0;
        while k < invariants.len()
            invariant
                0 <= k <= invariants.len(),
                rule_ok(self.phase_rule),
                invariants@.len() * 3 <= usize::MAX,
                matched_heads == heads_matched(*self, invariants@, k as nat),
                inv_matches == matches_total(*self, invariants@, k as nat),
            decreases invariants.len() - k,
        {
            proof {
                lemma_match_bounds(*self, invariants@, k as nat);
            }
            let inv = &invariants[k];
            let mut head: usize = 0;
            let mut explained = false;
            let mut j: usize = 0;
            while j < self.explained_cycles.len()
                invariant
                    0 <= j <= self.explained_cycles.len(),
                    explained == exists|q: int| 0 <= q < j && self.explained_cycles@[q] == inv.cycle,
                decreases self.explained_cycles.len() - j,
            {
                if self.explained_cycles[j] == inv.cycle {
                    explained = true;
                }
                j = j + 1;
            }
            if explained {
                head = head + 1;
            }
            let predicted = self.phase_rule.apply(inv.cycle);
            if predicted.len() == inv.phase_count {
                head = head + 1;
            }
            match &self.carry_pattern {
                Some(pattern) => {
                    if same_values(pattern, &inv.nullified) {
                        head = head + 1;
                    }
                },
                None => {},
            }
            assert(head == head_matches(*self, invariants@[k as int]));
            inv_matches = inv_matches + head;
            if head >= 2 {
                matched_heads = matched_heads + 1;
            }
            k = k + 1;
        }
        (matched_heads, inv_matches, total)
    }
}

/// Candidate `k` of the enumerated generator candidates.
pub open spec fn is_candidate(c: GeneratorCandidate, k: int) -> bool {
    if k == 0 {
        &&& c.label@ == "Parking-lanes nullification rule"@
        &&& c.carry_pattern is None
        &&& c.phase_rule == PhaseRule::Uniform { n_phases: 13 }
        &&& c.explained_cycles@ == seq![260u64, 18_980]
    } else if k == 1 {
        &&& c.label@ == "Uniform-p-phase (p ∈ Safe Basis)"@
        &&& c.carry_pattern is None
        &&& c.phase_rule == PhaseRule::Uniform { n_phases: 13 }
        &&& c.explained_cycles@ == seq![260u64, 18_980, 144_000]
    } else if k == 2 {
        &&& c.label@ == "Mixed intercalary rule (18+1)"@
        &&& c.carry_pattern matches Some(p) && p@ == seq![5u64]
        &&& c.phase_rule == PhaseRule::Mixed { count_a: 18, len_a: 20, len_b: 5 }
        &&& c.explained_cycles@ == seq![365u64]
    } else if k == 3 {
        &&& c.label@ == "Factor-split (phases from prime factors)"@
        &&& c.carry_pattern is None
        &&& c.phase_rule == PhaseRule::FactorSplit
        &&& c.explained_cycles@ == seq![260u64, 365, 18_980, 144_000]
    } else if k == 4 {
        &&& c.label@ == "Astronomical-interval rule"@
        &&& c.carry_pattern is None
        &&& c.phase_rule == PhaseRule::Astronomical
        &&& c.explained_cycles@ == seq![584u64]
    } else {
        &&& c.label@ == "Positional-base-20 rule (Long Count)"@
        &&& c.carry_pattern is None
        &&& c.phase_rule == PhaseRule::Uniform { n_phases: 20 }
        &&& c.explained_cycles@ == seq![20u64, 360, 7_200, 144_000]
    }
}

/// The six generator candidates.
fn generator_candidates() -> (v: Vec<GeneratorCandidate>)
    ensures
        v@.len() == 6,
        forall|k: int| 0 <= k < 6 ==> is_candidate(#[trigger] v@[k], k),
{
    let c0: Vec<u64> = vec![260, 18_980];
    let c1: Vec<u64> = vec![260, 18_980, 144_000];
    let c2: Vec<u64> = vec![365];
    let p2: Vec<u64> = vec![5];
    let c3: Vec<u64> = vec![260, 365, 18_980, 144_000];
    let c4: Vec<u64> = vec![584];
    let c5: Vec<u64> = vec![20, 360, 7_200, 144_000];
    proof {
        assert(c0@ =~= seq![260u64, 18_980]);
        assert(c1@ =~= seq![260u64, 18_980, 144_000]);
        assert(c2@ =~= seq![365u64]);
        assert(p2@ =~= seq![5u64]);
        assert(c3@ =~= seq![260u64, 365, 18_980, 144_000]);
        assert(c4@ =~= seq![584u64]);
        assert(c5@ =~= seq![20u64, 360, 7_200, 144_000]);
    }
    let v = vec![
        GeneratorCandidate {
            label: owned("Parking-lanes nullification rule"),
            carry_pattern: None,
            phase_rule: PhaseRule::Uniform { n_phases: 13 },
            explained_cycles: c0,
        },
        GeneratorCandidate {
            label: owned("Uniform-p-phase (p ∈ Safe Basis)"),
            carry_pattern: None,
            phase_rule: PhaseRule::Uniform { n_phases: 13 },
            explained_cycles: c1,
        },
        GeneratorCandidate {
            label: owned("Mixed intercalary rule (18+1)"),
            carry_pattern: Some(p2),
            phase_rule: PhaseRule::Mixed { count_a: 18, len_a: 20, len_b: 5 },
            explained_cycles: c2,
        },
        GeneratorCandidate {
            label: owned("Factor-split (phases from prime factors)"),
            carry_pattern: None,
            phase_rule: PhaseRule::FactorSplit,
            explained_cycles: c3,
        },
        GeneratorCandidate {
            label: owned("Astronomical-interval rule"),
            carry_pattern: None,
            phase_rule: PhaseRule::Astronomical,
            explained_cycles: c4,
        },
        GeneratorCandidate {
            label: owned("Positional-base-20 rule (Long Count)"),
            carry_pattern: None,
            phase_rule: PhaseRule::Uniform { n_phases: 20 },
            explained_cycles: c5,
        },
    ];
    v
}

/// Verdict of the generator extraction.
#[derive(Clone, Copy, Debug, PartialEq, Eq, Structural)]
pub enum H1Verdict {
    /// The best candidate explains all four heads.
    Supported,
    /// It explains two or three.
    Partial,
    /// It explains at most one.
    NotSupported,
}

impl H1Verdict {
    pub fn label(&self) -> (s: &'static str)
        ensures
            *self == H1Verdict::Supported ==> s == "SUPPORTED",
            *self == H1Verdict::Partial ==> s == "PARTIAL",
            *self == H1Verdict::NotSupported ==> s == "NOT SUPPORTED",
    {
        match self {
            H1Verdict::Supported => "SUPPORTED",
            H1Verdict::Partial => "PARTIAL",
            H1Verdict::NotSupported => "NOT SUPPORTED",
        }
    }
}

/// The generator extraction report.
#[derive(Clone, Debug)]
pub struct GeneratorReport {
    /// Invariants of each head.
    pub head_invariants: Vec<HeadInvariants>,
    /// Each candidate with its heads explained, invariants matched and
    /// invariants possible.
    pub candidates: Vec<(GeneratorCandidate, usize, usize, usize)>,
    /// The candidate with the most matched invariants (the last on ties).
    pub best_candidate: Option<GeneratorCandidate>,
    pub heads_explained: usize,
    /// Matched over possible invariants of the best candidate (bp).
    pub confidence_bp: u64,
    pub verdict: H1Verdict,
    /// The seed found for each head, with the head's name.
    pub seed_map: Vec<(u64, &'static str)>,
}

/// Index of the last largest of the first `n` values (`n ≥ 1`).
pub open spec fn last_max(s: Seq<int>, n: nat) -> int
    decreases n,
{
    if n <= 1 {
        0
    } else {
        let b = last_max(s, (n - 1) as nat);
        if s[n - 1] >= s[b] {
            n - 1
        } else {
            b
        }
    }
}

proof fn lemma_last_max_range(s: Seq<int>, n: nat)
    requires
        n >= 1,
    ensures
        0 <= last_max(s, n) < n,
    decreases n,
{
    if n > 1 {
        lemma_last_max_range(s, (n - 1) as nat);
    }
}

/// The seeds probed for each head: the Safe Basis primes, their pairwise
/// products, and the canonical cycle values.
pub open spec fn seed_candidates() -> Seq<u64> {
    seq![
        2u64, 3, 5, 7, 11, 13,
        6, 10, 14, 22, 26, 15, 21, 33, 39, 35, 55, 65, 77, 91, 143,
        20, 28, 52, 65, 73, 121, 260, 325, 365, 584, 819, 18_980, 144_000,
    ]
}

/// Values of `a` that occur in `b`.
pub open spec fn shared_with(b: Seq<u64>) -> spec_fn(u64) -> bool {
    |p: u64| b.contains(p)
}

/// Agreement (0..=100) of two nullification patterns.
pub open spec fn pattern_score(h: Seq<u64>, s: Seq<u64>) -> int {
    let matches = h.filter(shared_with(s)).len() + s.filter(shared_with(h)).len();
    let total = if h.len() + s.len() > 0 { h.len() + s.len() } else { 1 };
    (matches * 100) as int / (total as int)
}

/// The best seed among the first `n` candidates for pattern `h`: the
/// first with the highest positive score, with that score.
pub open spec fn best_seed(h: Seq<u64>, n: nat) -> (int, Option<u64>)
    decreases n,
{
    if n == 0 {
        (0, None)
    } else {
        let prev = best_seed(h, (n - 1) as nat);
        let sc = pattern_score(h, nullified_spec(seed_candidates()[n - 1]));
        if sc > prev.0 {
            (sc, Some(seed_candidates()[n - 1]))
        } else {
            prev
        }
    }
}

/// The seed map of the first `n` heads: heads with a best seed, in order.
pub open spec fn seed_map_spec(invs: Seq<HeadInvariants>, n: nat) -> Seq<(u64, &'static str)>
    decreases n,
{
    if n == 0 {
        seq![]
    } else {
        let prev = seed_map_spec(invs, (n - 1) as nat);
        match best_seed(invs[n - 1].nullified@, 34).1 {
            Some(seed) => prev.push((seed, invs[n - 1].name)),
            None => prev,
        }
    }
}

/// Number of values of `a` that occur in `b`.
fn count_shared(a: &Vec<u64>, b: &Vec<u64>) -> (n: usize)
    ensures
        n == a@.filter(shared_with(b@)).len(),
        n <= a@.len(),
{
    let mut n: usize = 0;
    let mut i: usize = 0;
    while i < a.len()
        invariant
            0 <= i <= a.len(),
            n == a@.subrange(0, i as int).filter(shared_with(b@)).len(),
            n <= i,
        decreases a.len() - i,
    {
        let mut found = false;
        let mut j: usize = 0;
        while j < b.len()
            invariant
                0 <= j <= b.len(),
                i < a.len(),
                found == exists|q: int| 0 <= q < j && b@[q] == a@[i as int],
            decreases b.len() - j,
        {
            if b[j] == a[i] {
                found = true;
            }
            j = j + 1;
        }
        proof {
            assert(a@.subrange(0, i as int + 1) =~= a@.subrange(0, i as int).push(a@[i as int]));
            a@.subrange(0, i as int).lemma_filter_push(a@[i as int], shared_with(b@));
        }
        if found {
            n = n + 1;
        }
        i = i + 1;
    }
    assert(a@.subrange(0, a.len() as int) =~= a@);
    n
}

/// The seed whose nullification pattern agrees best with each head's.
fn identify_seeds(invariants: &[HeadInvariants]) -> (v: Vec<(u64, &'static str)>)
    requires
        forall|k: int| 0 <= k < invariants@.len() ==> (#[trigger] invariants@[k]).nullified@.len() <= 6,
    ensures
        v@ == seed_map_spec(invariants@, invariants@.len()),
{
    let seeds: [u64; 34] = [
        2, 3, 5, 7, 11, 13,
        6, 10, 14, 22, 26, 15, 21, 33, 39, 35, 55, 65, 77, 91, 143,
        20, 28, 52, 65, 73, 121, 260, 325, 365, 584, 819, 18_980, 144_000,
    ];
    let mut result: Vec<(u64, &'static str)> = Vec::new();
    let mut k: usize = 0;
    while k < invariants.len()
        invariant
            0 <= k <= invariants.len(),
            seeds@ == seed_candidates(),
            forall|q: int| 0 <= q < invariants@.len() ==> (#[trigger] invariants@[q]).nullified@.len() <= 6,
            result@ == seed_map_spec(invariants@, k as nat),
        decreases invariants.len() - k,
    {
        let inv = &invariants[k];
        assert(inv.nullified@.len() <= 6);
        let mut best: Option<u64> = None;
        let mut best_score: usize = 0;
        let mut i: usize = 0;
        while i < 34
            invariant
                0 <= i <= 34,
                seeds@ == seed_candidates(),
                inv.nullified@.len() <= 6,
                best_score <= 100,
                (best_score as int, best) == best_seed(inv.nullified@, i as nat),
            decreases 34 - i,
        {
            let seed = seeds[i];
            let seed_null = nullified_lanes(seed);
            proof {
                lemma_lanes_len(seed, false, 6);
            }
            let matches = count_shared(&inv.nullified, &seed_null) + count_shared(&seed_null, &inv.nullified);
            let sum = inv.nullified.len() + seed_null.len();
            let total: usize = if sum > 0 {
                sum
            } else {
                1
            };
            proof {
                assert(matches * 100 <= total * 100) by (nonlinear_arith)
                    requires
                        matches <= sum,
                        sum <= total,
                ;
                vstd::arithmetic::div_mod::lemma_div_is_ordered_by_denominator((matches * 100) as int, 1, total as int);
                vstd::arithmetic::div_mod::lemma_div_is_ordered((matches * 100) as int, (total * 100) as int, total as int);
                vstd::arithmetic::div_mod::lemma_div_by_multiple(100, total as int);
                assert(total * 100 == 100 * total) by (nonlinear_arith);
            }
            let score = matches * 100 / total;
            if score > best_score {
                best_score = score;
                best = Some(seed);
            }
            i = i + 1;
        }
        match best {
            Some(seed) => {
                result.push((seed, inv.name));
            },
            None => {},
        }
        k = k + 1;
    }
    result
}

/// The verdict for a best candidate explaining `n` heads.
pub open spec fn verdict_for(n: nat) -> H1Verdict {
    if n == 4 {
        H1Verdict::Supported
    } else if 2 <= n <= 3 {
        H1Verdict::Partial
    } else {
        H1Verdict::NotSupported
    }
}

/// The matched-invariant counts of the scored candidates.
pub open spec fn matched_counts(c: Seq<(GeneratorCandidate, usize, usize, usize)>) -> Seq<int> {
    c.map_values(|e: (GeneratorCandidate, usize, usize, usize)| e.2 as int)
}

/// Runs the generator extraction over heads given as (name, cycle,
/// phase intervals): the invariants of each head, the six candidates
/// scored against them, the best candidate (most matched invariants, the
/// last on ties), the confidence, the verdict and the seed map.
pub fn extract_generator(heads: &[(&'static str, u64, Vec<u64>)]) -> (r: GeneratorReport)
    requires
        heads@.len() * 3 <= usize::MAX,
        heads@.len() * 30000 <= u64::MAX,
    ensures
        r.head_invariants@.len() == heads@.len(),
        forall|k: int|
            0 <= k < heads@.len() ==> invariants_of(
                #[trigger] r.head_invariants@[k],
                heads@[k].0,
                heads@[k].1,
                heads@[k].2@,
            ),
        r.candidates@.len() == 6,
        forall|k: int|
            0 <= k < 6 ==> {
                &&& is_candidate((#[trigger] r.candidates@[k]).0, k)
                &&& r.candidates@[k].1 == heads_matched(r.candidates@[k].0, r.head_invariants@, heads@.len())
                &&& r.candidates@[k].2 == matches_total(r.candidates@[k].0, r.head_invariants@, heads@.len())
                &&& r.candidates@[k].3 == heads@.len() * 3
            },
        ({
            let b = last_max(matched_counts(r.candidates@), 6);
            &&& r.best_candidate matches Some(c) && is_candidate(c, b)
            &&& r.heads_explained == r.candidates@[b].1
            &&& r.confidence_bp == r.candidates@[b].2 * 10000 / (if r.candidates@[b].3 > 0 {
                r.candidates@[b].3 as int
            } else {
                1
            })
        }),
        r.verdict == verdict_for(r.heads_explained as nat),
        r.seed_map@ == seed_map_spec(r.head_invariants@, heads@.len()),
{
    let mut invariants: Vec<HeadInvariants> = Vec::new();
    let mut k: usize = 0;
    while k < heads.len()
        invariant
            0 <= k <= heads.len(),
            invariants@.len() == k,
            forall|q: int|
                0 <= q < k ==> invariants_of(#[trigger] invariants@[q], heads@[q].0, heads@[q].1, heads@[q].2@),
        decreases heads.len() - k,
    {
        let h = &heads[k];
        let inv = HeadInvariants::from_head(h.0, h.1, h.2.as_slice());
        invariants.push(inv);
        k = k + 1;
    }
    let n = invariants.len();
    let mut raw = generator_candidates();
    let ghost orig = raw@;
    let mut scored: Vec<(GeneratorCandidate, usize, usize, usize)> = Vec::new();
    let mut i: usize = 0;
    while i < 6
        invariant
            0 <= i <= 6,
            n == invariants@.len(),
            n * 3 <= usize::MAX,
            orig.len() == 6,
            forall|q: int| 0 <= q < 6 ==> is_candidate(#[trigger] orig[q], q),
            raw@ == orig.subrange(i as int, 6),
            scored@.len() == i,
            forall|q: int|
                0 <= q < i ==> {
                    &&& is_candidate((#[trigger] scored@[q]).0, q)
                    &&& scored@[q].1 == heads_matched(scored@[q].0, invariants@, n as nat)
                    &&& scored@[q].2 == matches_total(scored@[q].0, invariants@, n as nat)
                    &&& scored@[q].3 == n * 3
                },
        decreases 6 - i,
    {
        let c = raw.remove(0);
        proof {
            assert(c == orig[i as int]);
            assert(is_candidate(orig[i as int], i as int));
            assert(raw@ =~= orig.subrange(i as int + 1, 6));
        }
        let (heads_ex, inv_m, total) = c.score(invariants.as_slice());
        scored.push((c, heads_ex, inv_m, total));
        i = i + 1;
    }
    // The best candidate: the last with the most matched invariants.
    let mut best: usize = 0;
    let mut j: usize = 1;
    while j < 6
        invariant
            1 <= j <= 6,
            scored@.len() == 6,
            best as int == last_max(matched_counts(scored@), j as nat),
        decreases 6 - j,
    {
        proof {
            lemma_last_max_range(matched_counts(scored@), j as nat);
        }
        if scored[j].2 >= scored[best].2 {
            best = j;
        }
        j = j + 1;
    }
    proof {
        lemma_last_max_range(matched_counts(scored@), 6);
        lemma_match_bounds(scored@[best as int].0, invariants@, n as nat);
    }
    let heads_explained = scored[best].1;
    let inv_matched = scored[best].2;
    let total_inv = scored[best].3;
    let denom: usize = if total_inv > 0 {
        total_inv
    } else {
        1
    };
    assert(inv_matched as u64 * 10000 <= u64::MAX) by (nonlinear_arith)
        requires
            inv_matched <= 3 * n,
            n * 30000 <= u64::MAX,
    ;
    let confidence_bp = (inv_matched as u64 * 10000) / denom as u64;
    let mut fresh = generator_candidates();
    let best_candidate = Some(fresh.remove(best));
    let verdict = if heads_explained == 4 {
        H1Verdict::Supported
    } else if 2 <= heads_explained && heads_explained <= 3 {
        H1Verdict::Partial
    } else {
        H1Verdict::NotSupported
    };
    proof {
        assert forall|q: int| 0 <= q < invariants@.len() implies (#[trigger] invariants@[q]).nullified@.len() <= 6 by {
            lemma_lanes_len(invariants@[q].cycle, false, 6);
        }
    }
    let seed_map = identify_seeds(invariants.as_slice());
    GeneratorReport {
        head_invariants: invariants,
        candidates: scored,
        best_candidate,
        heads_explained,
        confidence_bp,
        verdict,
        seed_map,
    }
}

/// The step of the configuration walk from `c`: multiply by the smallest
/// nullified prime, saturating; `None` when no prime is nullified or the
/// next value is 0 or past `20` baktuns.
pub open spec fn walk_next(c: u64) -> Option<u64> {
    if nullified_spec(c).len() == 0 {
        None
    } else {
        let m = c * nullified_spec(c)[0];
        let next: u64 = if m > u64::MAX { u64::MAX } else { m as u64 };
        if next == 0 || next > 2_880_000 {
            None
        } else {
            Some(next)
        }
    }
}

/// The cycles visited by a walk of at most `steps` steps from `c`.
pub open spec fn walk_spec(c: u64, steps: nat) -> Seq<u64>
    decreases steps,
{
    if steps == 0 {
        seq![]
    } else {
        seq![c] + match walk_next(c) {
            Some(n) => walk_spec(n, (steps - 1) as nat),
            None => seq![],
        }
    }
}

/// Walks the configuration space from `start_cycle`: at each step the
/// cycle, its signature and a label, then the cycle times its smallest
/// nullified prime, stopping when none is nullified or past 20 baktuns.
pub fn configuration_walk(start_cycle: u64, steps: usize) -> (v: Vec<(u64, CarrySignature, String)>)
    ensures
        v@.len() == walk_spec(start_cycle, steps as nat).len(),
        forall|k: int|
            0 <= k < v@.len() ==> {
                &&& (#[trigger] v@[k]).0 == walk_spec(start_cycle, steps as nat)[k]
                &&& v@[k].1.0 as int == pack_spec(carry_spec(v@[k].0))
                &&& v@[k].2@ == "cycle="@ + decimal_text(v@[k].0 as nat)
            },
{
    let mut result: Vec<(u64, CarrySignature, String)> = Vec::new();
    let mut current = start_cycle;
    let mut taken: usize = 0;
    let mut done = false;
    let ghost full = walk_spec(start_cycle, steps as nat);
    while taken < steps && !done
        invariant
            0 <= taken <= steps,
            full == walk_spec(start_cycle, steps as nat),
            result@.len() == taken,
            done ==> full == result@.map_values(|e: (u64, CarrySignature, String)| e.0),
            !done ==> full == result@.map_values(|e: (u64, CarrySignature, String)| e.0) + walk_spec(
                current,
                (steps - taken) as nat,
            ),
            forall|k: int|
                0 <= k < result@.len() ==> {
                    &&& (#[trigger] result@[k]).1.0 as int == pack_spec(carry_spec(result@[k].0))
                    &&& result@[k].2@ == "cycle="@ + decimal_text(result@[k].0 as nat)
                },
        decreases steps - taken,
    {
        let sig = CarrySignature::from_cycle(current);
        let label = concat("cycle=", decimal_string(current).as_str());
        let ghost before = result@;
        result.push((current, sig, label));
        proof {
            assert(result@.map_values(|e: (u64, CarrySignature, String)| e.0) =~= before.map_values(
                |e: (u64, CarrySignature, String)| e.0,
            ).push(current));
        }
        taken = taken + 1;
        let nullified = nullified_lanes(current);
        if nullified.len() == 0 {
            proof {
                assert(walk_spec(current, (steps - taken + 1) as nat) =~= seq![current]);
                assert(full =~= result@.map_values(|e: (u64, CarrySignature, String)| e.0));
            }
            done = true;
        } else {
            let next: u64 = match current.checked_mul(nullified[0]) {
                Some(m) => m,
                None => u64::MAX,
            };
            if next == 0 || next > 2_880_000 {
                proof {
                    assert(walk_spec(current, (steps - taken + 1) as nat) =~= seq![current]);
                    assert(full =~= result@.map_values(|e: (u64, CarrySignature, String)| e.0));
                }
                done = true;
            } else {
                proof {
                    assert(walk_spec(current, (steps - taken + 1) as nat) == seq![current] + walk_spec(
                        next,
                        (steps - taken) as nat,
                    ));
                    assert(full =~= result@.map_values(|e: (u64, CarrySignature, String)| e.0)
                        + walk_spec(next, (steps - taken) as nat));
                }
                current = next;
            }
        }
    }
    proof {
        if !done {
            assert(walk_spec(current, 0) =~= Seq::<u64>::empty());
            assert(full =~= result@.map_values(|e: (u64, CarrySignature, String)| e.0));
        }
        assert forall|k: int| 0 <= k < result@.len() implies (#[trigger] result@[k]).0 == full[k] by {
            assert(result@.map_values(|e: (u64, CarrySignature, String)| e.0)[k] == result@[k].0);
        }
    }
    result
}

} // verus!
