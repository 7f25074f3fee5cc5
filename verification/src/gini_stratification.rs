//! Density of the carry-bit signatures over one full Safe Basis period:
//! how many of the integers in `[0, M_SAFE)` carry each signature, and the
//! ratio of the densest class to the sparsest non-empty one.

use vstd::prelude::*;
use crate::substrate::{carry_bits, carry_spec, pack_carry_bits, pack_spec, M_SAFE};

verus! {

/// The ratio of the largest to the smallest non-empty signature class.
#[derive(Clone, Copy, Debug, PartialEq, Eq, Structural)]
pub struct DensityRatio {
    /// Largest class count over `[0, M_SAFE)`.
    pub max_density: u64,
    /// Smallest non-zero class count over `[0, M_SAFE)`.
    pub min_density: u64,
    /// Ratio numerator (the largest count).
    pub ratio_num: u64,
    /// Ratio denominator (the smallest count).
    pub ratio_den: u64,
}

impl DensityRatio {
    /// `max / min > 12`, compared exactly as `max > 12 · min`.
    pub fn exceeds_vault_12_to_1(&self) -> (b: bool)
        requires
            12 * self.ratio_den <= u64::MAX,
        ensures
            b == (self.ratio_num > 12 * self.ratio_den),
    {
        self.ratio_num > 12 * self.ratio_den
    }
}

/// The carry signature of `x`.
pub open spec fn signature_of(x: u64) -> int {
    pack_spec(carry_spec(x))
}

/// How many of the integers in `[0, n)` carry signature `s`.
pub open spec fn class_count(s: int, n: nat) -> nat
    decreases n,
{
    if n == 0 {
        0
    } else {
        class_count(s, (n - 1) as nat) + if signature_of((n - 1) as u64) == s { 1nat } else { 0 }
    }
}

/// The non-empty classes among signatures `[0, k)` over one period, in
/// increasing signature order, each with its count.
pub open spec fn density_list(k: nat) -> Seq<(u8, u64)>
    decreases k,
{
    if k == 0 {
        seq![]
    } else {
        let prev = density_list((k - 1) as nat);
        let c = class_count(k - 1, M_SAFE as nat);
        if c > 0 {
            prev.push(((k - 1) as u8, c as u64))
        } else {
            prev
        }
    }
}

/// Sum of the counts of a class list.
pub open spec fn count_total(d: Seq<(u8, u64)>) -> nat
    decreases d.len(),
{
    if d.len() == 0 {
        0
    } else {
        count_total(d.drop_last()) + (d.last().1 as nat)
    }
}

/// Sum of the class counts of signatures `[0, k)` over `[0, n)`.
pub open spec fn classes_total(k: nat, n: nat) -> nat
    decreases k,
{
    if k == 0 {
        0
    } else {
        classes_total((k - 1) as nat, n) + class_count(k - 1, n)
    }
}

proof fn lemma_class_count_le(s: int, n: nat)
    ensures
        class_count(s, n) <= n,
    decreases n,
{
    if n > 0 {
        lemma_class_count_le(s, (n - 1) as nat);
    }
}

/// Signatures lie in `[0, 64)`.
proof fn lemma_signature_range(x: u64)
    ensures
        0 <= signature_of(x) < 64,
{
}

/// Adding integer `n` adds one to the classes `[0, k)` exactly when its
/// signature is among them.
proof fn lemma_classes_step(k: nat, n: nat)
    ensures
        classes_total(k, n + 1) == classes_total(k, n) + if 0 <= signature_of(n as u64) < k {
            1nat
        } else {
            0
        },
    decreases k,
{
    if k > 0 {
        lemma_classes_step((k - 1) as nat, n);
    }
}

/// Every integer of `[0, n)` falls in exactly one of the 64 classes.
pub proof fn lemma_classes_partition(n: nat)
    requires
        n <= u64::MAX + 1,
    ensures
        classes_total(64, n) == n,
    decreases n,
{
    if n > 0 {
        lemma_classes_partition((n - 1) as nat);
        lemma_signature_range((n - 1) as u64);
        lemma_classes_step(64, (n - 1) as nat);
    } else {
        lemma_classes_empty(64);
    }
}

proof fn lemma_classes_empty(k: nat)
    ensures
        classes_total(k, 0) == 0,
    decreases k,
{
    if k > 0 {
        lemma_classes_empty((k - 1) as nat);
    }
}

/// The class list's counts add up to the class counts of its signatures.
proof fn lemma_density_total(k: nat)
    requires
        k <= 64,
    ensures
        count_total(density_list(k)) == classes_total(k, M_SAFE as nat),
        density_list(k).len() <= k,
        forall|i: int| 0 <= i < density_list(k).len() ==> (#[trigger] density_list(k)[i]).0 < k,
    decreases k,
{
    if k > 0 {
        lemma_density_total((k - 1) as nat);
        lemma_class_count_le(k - 1, M_SAFE as nat);
        let prev = density_list((k - 1) as nat);
        let c = class_count(k - 1, M_SAFE as nat);
        if c > 0 {
            assert(prev.push(((k - 1) as u8, c as u64)).drop_last() =~= prev);
        }
    }
}

/// Every integer of one Safe Basis period is counted once: the class
/// counts add up to `M_SAFE`.
pub proof fn lemma_density_sums_to_period()
    ensures
        count_total(density_list(64)) == M_SAFE,
{
    lemma_density_total(64);
    lemma_classes_partition(M_SAFE as nat);
}

/// For each carry signature with at least one integer of `[0, M_SAFE)`,
/// the signature and its count, in increasing signature order.
pub fn cram_address_density_per_carry_bit_signature() -> (v: Vec<(u8, u64)>)
    ensures
        v@ == density_list(64),
{
    let mut counts: Vec<u64> = vec![0u64; 64];
    let mut x: u64 = 0;
    while x < M_SAFE
        invariant
            0 <= x <= M_SAFE,
            counts@.len() == 64,
            forall|s: int| 0 <= s < 64 ==> #[trigger] counts@[s] == class_count(s, x as nat),
        decreases M_SAFE - x,
    {
        let sig = pack_carry_bits(&carry_bits(x));
        proof {
            lemma_class_count_le(sig as int, x as nat);
        }
        let c = counts[sig as usize];
        counts.set(sig as usize, c + 1);
        x = x + 1;
    }
    let mut out: Vec<(u8, u64)> = Vec::new();
    let mut s: usize = 0;
    while s < 64
        invariant
            0 <= s <= 64,
            counts@.len() == 64,
            forall|q: int| 0 <= q < 64 ==> #[trigger] counts@[q] == class_count(q, M_SAFE as nat),
            out@ == density_list(s as nat),
        decreases 64 - s,
    {
        let c = counts[s];
        if c > 0 {
            out.push((s as u8, c));
        }
        s = s + 1;
    }
    out
}

/// Largest count of the first `n` classes (0 for none).
pub open spec fn list_max(d: Seq<(u8, u64)>, n: nat) -> u64
    decreases n,
{
    if n == 0 {
        0
    } else {
        let m = list_max(d, (n - 1) as nat);
        if d[n - 1].1 > m {
            d[n - 1].1
        } else {
            m
        }
    }
}

/// Smallest non-zero count of the first `n` classes (0 for none).
pub open spec fn list_min_positive(d: Seq<(u8, u64)>, n: nat) -> u64
    decreases n,
{
    if n == 0 {
        0
    } else {
        let m = list_min_positive(d, (n - 1) as nat);
        let c = d[n - 1].1;
        if c > 0 && (m == 0 || c < m) {
            c
        } else {
            m
        }
    }
}

/// The largest and the smallest non-zero class counts, and their ratio
/// as a fraction.
pub fn density_max_min_ratio() -> (r: DensityRatio)
    ensures
        r.max_density == list_max(density_list(64), density_list(64).len()),
        r.min_density == list_min_positive(density_list(64), density_list(64).len()),
        r.ratio_num == r.max_density,
        r.ratio_den == r.min_density,
{
    let dist = cram_address_density_per_carry_bit_signature();
    let mut max: u64 = 0;
    let mut min: u64 = 0;
    let mut i: usize = 0;
    while i < dist.len()
        invariant
            0 <= i <= dist.len(),
            max == list_max(dist@, i as nat),
            min == list_min_positive(dist@, i as nat),
        decreases dist.len() - i,
    {
        let c = dist[i].1;
        if c > max {
            max = c;
        }
        if c > 0 && (min == 0 || c < min) {
            min = c;
        }
        i = i + 1;
    }
    DensityRatio { max_density: max, min_density: min, ratio_num: max, ratio_den: min }
}

} // verus!
