//! The configuration atlas: events grouped by their flat multi-head
//! carry-bit address, with the stratification metrics of the grouping
//! (occupancies, exact Gini coefficient, histogram, brightest addresses).
//!
//! A head contributes six carry bits per day; the head definitions live
//! outside this module, so the atlas takes each event's per-head carry
//! bits (or its flat address) as input.

use vstd::prelude::*;
use vstd::arithmetic::power2::pow2;
use vstd::relations::sorted_by;
use std::collections::HashMap;
use crate::substrate::{carry_bits, carry_spec};
use crate::events::EventSet;

verus! {

/// One address of the atlas and the events that occupy it.
#[derive(Clone, Debug)]
pub struct AtlasEntry {
    /// The flat address.
    pub address: u64,
    /// Indices of the occupying events, ascending.
    pub event_indices: Vec<usize>,
}

impl AtlasEntry {
    /// Number of events at this address.
    pub fn occupancy(&self) -> (n: usize)
        ensures
            n == self.event_indices@.len(),
    {
        self.event_indices.len()
    }
}

/// The address space of a head configuration: six bits per head.
#[derive(Clone, Copy, Debug)]
pub struct AddressSpace {
    /// Number of heads contributing bits.
    pub head_count: usize,
    /// Bits per head (one per Safe Basis prime).
    pub bits_per_head: usize,
}

impl AddressSpace {
    /// The address space of `head_count` heads.
    pub fn new(head_count: usize) -> (a: AddressSpace)
        ensures
            a.head_count == head_count,
            a.bits_per_head == 6,
    {
        AddressSpace { head_count, bits_per_head: 6 }
    }

    /// Total bits of a flat address.
    pub fn total_bits(&self) -> (n: usize)
        requires
            self.head_count * self.bits_per_head <= usize::MAX,
        ensures
            n == self.head_count * self.bits_per_head,
    {
        self.head_count * self.bits_per_head
    }

    /// Largest flat address: `2^total_bits - 1`, saturating at `u64::MAX`.
    pub fn max_address(&self) -> (m: u64)
        requires
            self.head_count * self.bits_per_head <= usize::MAX,
        ensures
            self.head_count * self.bits_per_head >= 64 ==> m == u64::MAX,
            self.head_count * self.bits_per_head < 64 ==> m == pow2(
                (self.head_count * self.bits_per_head) as nat,
            ) - 1,
    {
        let tb = self.total_bits();
        if tb >= 64 {
            u64::MAX
        } else {
            proof {
                vstd::bits::lemma_u64_pow2_no_overflow(tb as nat);
                vstd::bits::lemma_u64_shl_is_mul(1, tb as u64);
            }
            (1u64 << (tb as u64)) - 1
        }
    }
}

/// Carry bit `j` of a flat head-bit sequence: bit `j % 6` of head `j / 6`.
pub open spec fn flat_bit(hb: Seq<[u8; 6]>, j: int) -> bool {
    hb[j / 6]@[j % 6] != 0
}

/// The flat address of the first `n` carry bits: bit `j` (for `j < 64`)
/// is set exactly when carry bit `j` is.
pub open spec fn packed_address(hb: Seq<[u8; 6]>, n: nat) -> nat
    decreases n,
{
    if n == 0 {
        0
    } else {
        let j = (n - 1) as nat;
        packed_address(hb, j) + if j < 64 && flat_bit(hb, j as int) {
            pow2(j)
        } else {
            0
        }
    }
}

/// Indices `< n` of `addrs` that hold address `a`, ascending.
pub open spec fn indices_with(addrs: Seq<u64>, a: u64, n: nat) -> Seq<usize>
    decreases n,
{
    if n == 0 {
        seq![]
    } else {
        let prev = indices_with(addrs, a, (n - 1) as nat);
        if addrs[n - 1] == a {
            prev.push((n - 1) as usize)
        } else {
            prev
        }
    }
}

/// `entries` groups the indices of `addrs` by address: distinct
/// addresses, each entry listing exactly the indices holding its address,
/// and every address of `addrs` present.
pub open spec fn groups_addresses(entries: Seq<AtlasEntry>, addrs: Seq<u64>) -> bool {
    &&& forall|i: int, j: int|
        0 <= i < j < entries.len() ==> #[trigger] entries[i].address != #[trigger] entries[j].address
    &&& forall|i: int|
        0 <= i < entries.len() ==> (#[trigger] entries[i]).event_indices@ == indices_with(
            addrs,
            entries[i].address,
            addrs.len(),
        )
    &&& forall|k: int| 0 <= k < addrs.len() ==> #[trigger] address_present(entries, addrs[k])
}

/// An address held at index `k < n` is listed among the first `n`
/// indices.
pub proof fn lemma_indices_with_nonempty(addrs: Seq<u64>, a: u64, n: nat, k: int)
    requires
        0 <= k < n <= addrs.len(),
        addrs[k] == a,
    ensures
        indices_with(addrs, a, n).len() >= 1,
    decreases n,
{
    if k < n - 1 {
        lemma_indices_with_nonempty(addrs, a, (n - 1) as nat, k);
    }
}

/// Every entry of a grouping whose addresses come from `addrs` holds at
/// least one event.
pub proof fn lemma_entries_occupied(entries: Seq<AtlasEntry>, addrs: Seq<u64>)
    requires
        groups_addresses(entries, addrs),
        forall|i: int| 0 <= i < entries.len() ==> addrs.contains(#[trigger] entries[i].address),
    ensures
        forall|i: int| 0 <= i < entries.len() ==> (#[trigger] entries[i]).event_indices@.len() >= 1,
{
    assert forall|i: int| 0 <= i < entries.len() implies (#[trigger] entries[i]).event_indices@.len() >= 1 by {
        let k = choose|k: int| 0 <= k < addrs.len() && addrs[k] == entries[i].address;
        lemma_indices_with_nonempty(addrs, entries[i].address, addrs.len(), k);
    }
}

/// Some entry holds address `a`.
pub open spec fn address_present(entries: Seq<AtlasEntry>, a: u64) -> bool {
    exists|i: int| 0 <= i < entries.len() && (#[trigger] entries[i]).address == a
}

/// The occupancy of each entry, in entry order.
pub open spec fn occupancy_seq(entries: Seq<AtlasEntry>) -> Seq<usize> {
    entries.map_values(|e: AtlasEntry| e.event_indices@.len() as usize)
}

/// Ascending order on occupancies.
pub open spec fn occ_leq() -> spec_fn(usize, usize) -> bool {
    |a: usize, b: usize| a <= b
}

/// Sum of a sequence of occupancies.
pub open spec fn occ_sum(x: Seq<usize>) -> int
    decreases x.len(),
{
    if x.len() == 0 {
        0
    } else {
        occ_sum(x.drop_last()) + x.last()
    }
}

/// The Gini numerator weight `Σ_k (2(k+1) - n - 1)·x_k` over the first
/// entries of `x`.
pub open spec fn gini_weight(x: Seq<usize>, n: int) -> int
    decreases x.len(),
{
    if x.len() == 0 {
        0
    } else {
        gini_weight(x.drop_last(), n) + (2 * (x.len() as int) - n - 1) * x.last()
    }
}

/// The exact Gini pair of sorted occupancies `x`: `(0, 1)` when there is
/// no entry or no event, else `(Σ (2k - n - 1)·x_k, n · Σ x)`.
pub open spec fn gini_pair(x: Seq<usize>) -> (int, int) {
    if x.len() == 0 || occ_sum(x) == 0 {
        (0, 1)
    } else {
        (gini_weight(x, x.len() as int), x.len() * occ_sum(x))
    }
}

/// The occupancy histogram: occupancy `k` maps to the number of entries
/// holding `k` events.
pub open spec fn histogram_spec(entries: Seq<AtlasEntry>) -> Map<usize, usize>
    decreases entries.len(),
{
    if entries.len() == 0 {
        Map::empty()
    } else {
        let m = histogram_spec(entries.drop_last());
        let k = entries.last().event_indices@.len() as usize;
        let c: int = if m.contains_key(k) { m[k] as int } else { 0 };
        m.insert(k, (c + 1) as usize)
    }
}

/// Sum over a prefix shifts the Gini weight by one coefficient step.
proof fn lemma_gini_weight_shift(x: Seq<usize>, n: int)
    ensures
        gini_weight(x, n + 1) == gini_weight(x, n) - occ_sum(x),
    decreases x.len(),
{
    if x.len() > 0 {
        lemma_gini_weight_shift(x.drop_last(), n);
        let l = x.len() as int;
        let v = x.last() as int;
        assert((2 * l - (n + 1) - 1) * v == (2 * l - n - 1) * v - v) by (nonlinear_arith);
    }
}

/// The sum of a sequence bounded by `m` is at most `len · m`.
proof fn lemma_occ_sum_bound(x: Seq<usize>, m: int)
    requires
        forall|i: int| 0 <= i < x.len() ==> #[trigger] x[i] <= m,
    ensures
        occ_sum(x) <= x.len() * m,
        occ_sum(x) >= 0,
    decreases x.len(),
{
    if x.len() > 0 {
        let y = x.drop_last();
        assert forall|i: int| 0 <= i < y.len() implies #[trigger] y[i] <= m by {
            assert(y[i] == x[i]);
        }
        lemma_occ_sum_bound(y, m);
        assert(x.last() == x[x.len() - 1]);
        assert(occ_sum(x) <= x.len() * m) by (nonlinear_arith)
            requires
                occ_sum(x) == occ_sum(y) + x.last(),
                occ_sum(y) <= y.len() * m,
                x.last() <= m,
                x.len() == y.len() + 1,
        ;
    }
}

/// For sorted occupancies the Gini weight lies in `[0, (n - 1)·Σx]`.
pub proof fn lemma_gini_weight_bounds(x: Seq<usize>)
    requires
        sorted_by(x, occ_leq()),
    ensures
        0 <= gini_weight(x, x.len() as int),
        gini_weight(x, x.len() as int) <= (x.len() - 1) * occ_sum(x),
        occ_sum(x) >= 0,
    decreases x.len(),
{
    if x.len() > 0 {
        let y = x.drop_last();
        let m = y.len() as int;
        let last = x.last();
        assert(sorted_by(y, occ_leq())) by {
            assert forall|i: int, j: int| 0 <= i < j < y.len() implies #[trigger] (occ_leq())(
                y[i],
                y[j],
            ) by {
                assert(y[i] == x[i] && y[j] == x[j]);
                assert((occ_leq())(x[i], x[j]));
            }
        }
        lemma_gini_weight_bounds(y);
        lemma_gini_weight_shift(y, m);
        assert forall|i: int| 0 <= i < y.len() implies #[trigger] y[i] <= last by {
            assert(y[i] == x[i]);
            assert((occ_leq())(x[i], x[x.len() - 1]));
        }
        lemma_occ_sum_bound(y, last as int);
        let w = gini_weight(y, m);
        let t = occ_sum(y);
        assert(gini_weight(x, m + 1) == gini_weight(y, m + 1) + m * last);
        assert(0 <= w - t + m * last);
        assert(w - t + m * last <= m * (t + last)) by (nonlinear_arith)
            requires
                w <= (m - 1) * t,
                t >= 0,
                last >= 0,
                m >= 0,
        ;
    }
}

/// Ascending insertion sort of occupancies.
fn sort_occupancies(v: Vec<usize>) -> (r: Vec<usize>)
    ensures
        sorted_by(r@, occ_leq()),
        r@.to_multiset() == v@.to_multiset(),
{
    let mut r: Vec<usize> = Vec::new();
    let mut i: usize = 0;
    assert(r@ =~= v@.subrange(0, 0));
    while i < v.len()
        invariant
            0 <= i <= v.len(),
            sorted_by(r@, occ_leq()),
            r@.to_multiset() == v@.subrange(0, i as int).to_multiset(),
        decreases v.len() - i,
    {
        let x = v[i];
        let mut pos: usize = 0;
        while pos < r.len() && r[pos] <= x
            invariant
                0 <= pos <= r.len(),
                forall|k: int| 0 <= k < pos ==> #[trigger] r@[k] <= x,
            decreases r.len() - pos,
        {
            pos = pos + 1;
        }
        let ghost old_r = r@;
        r.insert(pos, x);
        proof {
            assert(r@ =~= old_r.subrange(0, pos as int).push(x) + old_r.subrange(
                pos as int,
                old_r.len() as int,
            ));
            assert forall|a: int, b: int| 0 <= a < b < r@.len() implies #[trigger] (occ_leq())(
                r@[a],
                r@[b],
            ) by {
                assert((occ_leq())(old_r[0], old_r[0]) || true);
                if a < pos && b < pos {
                    assert((occ_leq())(old_r[a], old_r[b]));
                } else if a < pos && b == pos {
                } else if a < pos && b > pos {
                    assert((occ_leq())(old_r[a], old_r[b - 1]));
                } else if a == pos {
                    if pos < old_r.len() {
                        assert(!(old_r[pos as int] <= x) || pos == old_r.len());
                        assert((occ_leq())(old_r[pos as int], old_r[b - 1]) || b - 1 == pos);
                    }
                } else {
                    assert((occ_leq())(old_r[a - 1], old_r[b - 1]));
                }
            }
            assert(old_r.insert(pos as int, x) =~= r@);
            vstd::seq_lib::to_multiset_insert(old_r, pos as int, x);
            assert(v@.subrange(0, i as int + 1) =~= v@.subrange(0, i as int).push(x));
            v@.subrange(0, i as int).to_multiset_ensures();
        }
        i = i + 1;
    }
    assert(v@.subrange(0, v.len() as int) =~= v@);
    r
}


/// The distinct addresses among the first `n` of `addrs`, in order of
/// first occurrence.
pub open spec fn distinct_first(addrs: Seq<u64>, n: nat) -> Seq<u64>
    decreases n,
{
    if n == 0 {
        seq![]
    } else {
        let prev = distinct_first(addrs, (n - 1) as nat);
        if prev.contains(addrs[n - 1]) {
            prev
        } else {
            prev.push(addrs[n - 1])
        }
    }
}

/// The distinct addresses of `addrs`, in order of first occurrence.
fn distinct_in(addrs: &[u64]) -> (d: Vec<u64>)
    ensures
        d@ == distinct_first(addrs@, addrs@.len()),
        d@.no_duplicates(),
        forall|k: int| 0 <= k < addrs@.len() ==> d@.contains(#[trigger] addrs@[k]),
        forall|j: int| 0 <= j < d@.len() ==> addrs@.contains(#[trigger] d@[j]),
{
    let mut d: Vec<u64> = Vec::new();
    let mut i: usize = 0;
    while i < addrs.len()
        invariant
            0 <= i <= addrs.len(),
            d@ == distinct_first(addrs@, i as nat),
            d@.no_duplicates(),
            forall|k: int| 0 <= k < i ==> d@.contains(#[trigger] addrs@[k]),
            forall|j: int| 0 <= j < d@.len() ==> addrs@.contains(#[trigger] d@[j]),
        decreases addrs.len() - i,
    {
        let a = addrs[i];
        let mut found = false;
        let mut j: usize = 0;
        while j < d.len()
            invariant
                0 <= j <= d.len(),
                found == exists|m: int| 0 <= m < j && #[trigger] d@[m] == a,
            decreases d.len() - j,
        {
            if d[j] == a {
                found = true;
            }
            j = j + 1;
        }
        assert(found == d@.contains(a));
        if !found {
            let ghost old_d = d@;
            d.push(a);
            assert forall|k: int| 0 <= k < i implies d@.contains(#[trigger] addrs@[k]) by {
                let m = choose|m: int| 0 <= m < old_d.len() && old_d[m] == addrs@[k];
                assert(d@[m] == addrs@[k]);
            }
            assert(d@[d.len() - 1] == a);
            assert forall|j: int| 0 <= j < d@.len() implies addrs@.contains(#[trigger] d@[j]) by {
                if j < old_d.len() {
                    assert(d@[j] == old_d[j]);
                } else {
                    assert(addrs@[i as int] == a);
                }
            }
        }
        i = i + 1;
    }
    d
}

/// The indices of `addrs` holding address `a`, ascending.
fn indices_of(addrs: &[u64], a: u64) -> (v: Vec<usize>)
    ensures
        v@ == indices_with(addrs@, a, addrs@.len()),
{
    let mut v: Vec<usize> = Vec::new();
    let mut i: usize = 0;
    while i < addrs.len()
        invariant
            0 <= i <= addrs.len(),
            v@ == indices_with(addrs@, a, i as nat),
        decreases addrs.len() - i,
    {
        if addrs[i] == a {
            v.push(i);
        }
        i = i + 1;
    }
    v
}

/// The full configuration atlas of an event set under a head arrangement.
#[derive(Clone, Debug)]
pub struct ConfigAtlas {
    pub address_space: AddressSpace,
    /// One entry per occupied address.
    pub entries: Vec<AtlasEntry>,
    pub total_events: usize,
}

/// The sorted occupancies of an atlas.
pub open spec fn sorted_occupancies(a: ConfigAtlas) -> Seq<usize> {
    occupancy_seq(a.entries@).sort_by(occ_leq())
}

/// Gini basis points of exact pair `(num, den)`: `num·10000 / den`.
pub open spec fn gini_bp_spec(a: ConfigAtlas) -> int {
    let (num, den) = gini_pair(sorted_occupancies(a));
    (num * 10000) / den
}

/// The atlas is small enough for the exact Gini arithmetic in 128 bits.
pub open spec fn gini_fits(a: ConfigAtlas, bound: int) -> bool {
    sorted_occupancies(a).len() <= bound && occ_sum(sorted_occupancies(a)) <= bound
}

/// Carry bit `j` of a day over heads of the given cycles: bit `j % 6` of
/// the carry bits of the day within cycle `j / 6`.
pub open spec fn day_flat_bit(day: u64, cycles: Seq<u64>, j: int) -> bool {
    carry_spec(day % cycles[j / 6])[j % 6] != 0
}

/// The first `n` carry bits of a day over heads of the given cycles,
/// packed as in `packed_address`.
pub open spec fn day_address_upto(day: u64, cycles: Seq<u64>, n: nat) -> nat
    decreases n,
{
    if n == 0 {
        0
    } else {
        let j = (n - 1) as nat;
        day_address_upto(day, cycles, j) + if j < 64 && day_flat_bit(day, cycles, j as int) {
            pow2(j)
        } else {
            0
        }
    }
}

/// The flat address of a day over heads of the given cycles: each head
/// contributes the carry bits of the day within its cycle.
pub open spec fn day_address(day: u64, cycles: Seq<u64>) -> nat {
    day_address_upto(day, cycles, cycles.len() * 6)
}

/// Head bits that are the carry bits of a day pack to its address.
proof fn lemma_day_bits_pack(day: u64, cycles: Seq<u64>, hb: Seq<[u8; 6]>, n: nat)
    requires
        hb.len() == cycles.len(),
        n <= cycles.len() * 6,
        forall|i: int| 0 <= i < hb.len() ==> (#[trigger] hb[i])@ == carry_spec(day % cycles[i]),
    ensures
        packed_address(hb, n) == day_address_upto(day, cycles, n),
    decreases n,
{
    if n > 0 {
        let j = (n - 1) as int;
        lemma_day_bits_pack(day, cycles, hb, (n - 1) as nat);
        assert(0 <= j / 6 < hb.len()) by {
            vstd::arithmetic::div_mod::lemma_div_is_ordered(j, (cycles.len() * 6 - 1) as int, 6);
            vstd::arithmetic::div_mod::lemma_fundamental_div_mod_converse(
                (cycles.len() * 6 - 1) as int, 6, (cycles.len() - 1) as int, 5);
        }
        assert(hb[j / 6]@ == carry_spec(day % cycles[j / 6]));
    }
}

impl ConfigAtlas {
    /// The flat address of a day over heads of the given cycles.
    pub fn address_of_day(day: u64, cycles: &[u64]) -> (addr: u64)
        requires
            cycles@.len() * 6 <= usize::MAX,
            forall|i: int| 0 <= i < cycles@.len() ==> #[trigger] cycles@[i] > 0,
        ensures
            addr == day_address(day, cycles@),
    {
        let mut bits: Vec<[u8; 6]> = Vec::new();
        let mut i: usize = 0;
        while i < cycles.len()
            invariant
                0 <= i <= cycles.len(),
                forall|q: int| 0 <= q < cycles@.len() ==> #[trigger] cycles@[q] > 0,
                bits@.len() == i,
                forall|q: int| 0 <= q < i ==> (#[trigger] bits@[q])@ == carry_spec(day % cycles@[q]),
            decreases cycles.len() - i,
        {
            bits.push(carry_bits(day % cycles[i]));
            i = i + 1;
        }
        proof {
            lemma_day_bits_pack(day, cycles@, bits@, (cycles@.len() * 6) as nat);
        }
        Self::compute_address(bits.as_slice())
    }

    /// The flat address of every event over heads of the given cycles, in
    /// event order.
    pub fn event_addresses(events: &EventSet, cycles: &[u64]) -> (v: Vec<u64>)
        requires
            cycles@.len() * 6 <= usize::MAX,
            forall|i: int| 0 <= i < cycles@.len() ==> #[trigger] cycles@[i] > 0,
        ensures
            v@.len() == events.events@.len(),
            forall|k: int| 0 <= k < v@.len() ==> #[trigger] v@[k] == day_address(
                events.events@[k].days_since_epoch,
                cycles@,
            ),
    {
        let mut v: Vec<u64> = Vec::new();
        let mut k: usize = 0;
        while k < events.events.len()
            invariant
                0 <= k <= events.events.len(),
                cycles@.len() * 6 <= usize::MAX,
                forall|i: int| 0 <= i < cycles@.len() ==> #[trigger] cycles@[i] > 0,
                v@.len() == k,
                forall|q: int| 0 <= q < k ==> #[trigger] v@[q] == day_address(
                    events.events@[q].days_since_epoch,
                    cycles@,
                ),
            decreases events.events.len() - k,
        {
            let a = Self::address_of_day(events.events[k].days_since_epoch, cycles);
            v.push(a);
            k = k + 1;
        }
        v
    }

    /// The atlas of a set of events over heads of the given cycles: each
    /// event at the address of its day.
    pub fn build(events: &EventSet, cycles: &[u64]) -> (a: ConfigAtlas)
        requires
            cycles@.len() * 6 <= usize::MAX,
            forall|i: int| 0 <= i < cycles@.len() ==> #[trigger] cycles@[i] > 0,
        ensures
            ({
                let addrs = Seq::new(
                    events.events@.len(),
                    |k: int| day_address(events.events@[k].days_since_epoch, cycles@) as u64,
                );
                &&& a.address_space.head_count == cycles@.len()
                &&& a.address_space.bits_per_head == 6
                &&& groups_addresses(a.entries@, addrs)
                &&& a.total_events == events.events@.len()
                &&& a.entries@.len() == addrs.to_set().len()
                &&& occupancy_seq(a.entries@) == address_occupancies(addrs)
                &&& forall|i: int| 0 <= i < a.entries@.len() ==> addrs.contains(#[trigger] a.entries@[i].address)
                &&& forall|i: int| 0 <= i < a.entries@.len() ==> (#[trigger] a.entries@[i]).event_indices@.len()
                    >= 1
            }),
    {
        let addrs = Self::event_addresses(events, cycles);
        proof {
            let s = Seq::new(
                events.events@.len(),
                |k: int| day_address(events.events@[k].days_since_epoch, cycles@) as u64,
            );
            assert(addrs@ =~= s);
        }
        Self::build_from_addresses(addrs.as_slice(), cycles.len())
    }

    /// Flat address of one event from its per-head carry bits: bit
    /// `6·head + lane` is set for each non-zero carry bit, bits past 63 dropped.
    pub fn compute_address(head_bits: &[[u8; 6]]) -> (addr: u64)
        requires
            head_bits@.len() * 6 <= usize::MAX,
        ensures
            addr == packed_address(head_bits@, (head_bits@.len() * 6) as nat),
    {
        let n = head_bits.len() * 6;
        let mut bits: u64 = 0;
        let mut j: usize = 0;
        proof {
            vstd::arithmetic::power2::lemma2_to64();
        }
        while j < n
            invariant
                n == head_bits@.len() * 6,
                0 <= j <= n,
                bits == packed_address(head_bits@, j as nat),
                j < 64 ==> bits < pow2(j as nat),
            decreases n - j,
        {
            let h = j / 6;
            let lane = j % 6;
            let bit = head_bits[h][lane];
            proof {
                vstd::arithmetic::power2::lemma_pow2_adds(j as nat, 1);
                vstd::arithmetic::power2::lemma_pow2_unfold((j + 1) as nat);
            }
            if bit != 0 && j < 64 {
                let s = j as u64;
                proof {
                    vstd::bits::lemma_u64_pow2_no_overflow(j as nat);
                    vstd::bits::lemma_u64_shl_is_mul(1, s);
                    assert(bits < (1u64 << s));
                    assert((bits | (1u64 << s)) == bits + (1u64 << s)) by (bit_vector)
                        requires
                            s < 64,
                            bits < (1u64 << s),
                    ;
                }
                bits = bits | (1u64 << s);
            }
            j = j + 1;
        }
        bits
    }

    /// The atlas of `head_count` heads over events with the given flat
    /// addresses: event `i` has address `addresses[i]`.
    pub fn build_from_addresses(addresses: &[u64], head_count: usize) -> (a: ConfigAtlas)
        ensures
            a.address_space.head_count == head_count,
            a.address_space.bits_per_head == 6,
            groups_addresses(a.entries@, addresses@),
            a.total_events == addresses@.len(),
            forall|i: int| 0 <= i < a.entries@.len() ==> addresses@.contains(#[trigger] a.entries@[i].address),
            forall|i: int| 0 <= i < a.entries@.len() ==> (#[trigger] a.entries@[i]).event_indices@.len() >= 1,
            a.entries@.len() == addresses@.to_set().len(),
            occupancy_seq(a.entries@) == address_occupancies(addresses@),
    {
        let d = distinct_in(addresses);
        let mut entries: Vec<AtlasEntry> = Vec::new();
        let mut i: usize = 0;
        while i < d.len()
            invariant
                0 <= i <= d.len(),
                d@.no_duplicates(),
                entries.len() == i,
                forall|j: int| 0 <= j < d@.len() ==> addresses@.contains(#[trigger] d@[j]),
                forall|j: int| 0 <= j < i ==> (#[trigger] entries@[j]).address == d@[j],
                forall|j: int|
                    0 <= j < i ==> (#[trigger] entries@[j]).event_indices@ == indices_with(
                        addresses@,
                        entries@[j].address,
                        addresses@.len(),
                    ),
            decreases d.len() - i,
        {
            let a = d[i];
            entries.push(AtlasEntry { address: a, event_indices: indices_of(addresses, a) });
            i = i + 1;
        }
        assert forall|k: int| 0 <= k < addresses@.len() implies #[trigger] address_present(
            entries@,
            addresses@[k],
        ) by {
            assert(d@.contains(addresses@[k]));
            let j = choose|j: int| 0 <= j < d@.len() && d@[j] == addresses@[k];
            assert(entries@[j].address == addresses@[k]);
        }
        assert forall|p: int, q: int| 0 <= p < q < entries@.len() implies #[trigger] entries@[p].address
            != #[trigger] entries@[q].address by {
            assert(d@[p] != d@[q]);
        }
        proof {
            assert(d@.to_set() =~= addresses@.to_set()) by {
                assert forall|x: u64| d@.to_set().contains(x) implies addresses@.to_set().contains(x) by {
                    let j = choose|j: int| 0 <= j < d@.len() && d@[j] == x;
                    assert(addresses@.contains(d@[j]));
                }
                assert forall|x: u64| addresses@.to_set().contains(x) implies d@.to_set().contains(x) by {
                    let k = choose|k: int| 0 <= k < addresses@.len() && addresses@[k] == x;
                    assert(d@.contains(addresses@[k]));
                }
            }
            d@.unique_seq_to_set();
            assert forall|i: int| 0 <= i < entries@.len() implies addresses@.contains(#[trigger] entries@[i].address) by {
                assert(entries@[i].address == d@[i]);
            }
        }
        proof {
            assert(occupancy_seq(entries@) =~= address_occupancies(addresses@));
            lemma_entries_occupied(entries@, addresses@);
        }
        ConfigAtlas { address_space: AddressSpace::new(head_count), entries, total_events: addresses.len() }
    }

    /// The four-head atlas over events with the given four-head addresses.
    pub fn build_four_head(addresses: &[u64]) -> (a: ConfigAtlas)
        ensures
            a.address_space.head_count == 4,
            a.address_space.bits_per_head == 6,
            groups_addresses(a.entries@, addresses@),
            a.total_events == addresses@.len(),
            a.entries@.len() == addresses@.to_set().len(),
            occupancy_seq(a.entries@) == address_occupancies(addresses@),
    {
        Self::build_from_addresses(addresses, 4)
    }

    /// Number of occupied addresses (bright strata).
    pub fn occupied_addresses(&self) -> (n: usize)
        ensures
            n == self.entries@.len(),
    {
        self.entries.len()
    }

    /// Number of unoccupied addresses (dark strata): the size of the
    /// address space less the occupied count, floored at 0 and capped at
    /// `u64::MAX`.
    pub fn dark_strata_count(&self) -> (n: u64)
        requires
            self.address_space.head_count * self.address_space.bits_per_head <= usize::MAX,
        ensures
            ({
                let tb = self.address_space.head_count * self.address_space.bits_per_head;
                let size: int = if tb >= 64 { u64::MAX + 1 } else { pow2(tb as nat) as int };
                let d: int = size - self.entries@.len();
                n == if d <= 0 { 0 } else if d > u64::MAX { u64::MAX as int } else { d }
            }),
    {
        let m = self.address_space.max_address();
        let len = self.entries.len() as u64;
        if len == 0 {
            if m == u64::MAX { u64::MAX } else { m + 1 }
        } else if m >= len - 1 {
            m - (len - 1)
        } else {
            0
        }
    }


    /// The occupancies in ascending order.
    pub fn occupancies(&self) -> (v: Vec<usize>)
        ensures
            v@ == sorted_occupancies(*self),
            sorted_by(v@, occ_leq()),
    {
        let mut occs: Vec<usize> = Vec::new();
        let mut i: usize = 0;
        while i < self.entries.len()
            invariant
                0 <= i <= self.entries.len(),
                occs@ == occupancy_seq(self.entries@.subrange(0, i as int)),
            decreases self.entries.len() - i,
        {
            occs.push(self.entries[i].occupancy());
            i = i + 1;
            assert(occs@ =~= occupancy_seq(self.entries@.subrange(0, i as int)));
        }
        assert(self.entries@.subrange(0, self.entries.len() as int) =~= self.entries@);
        let sorted = sort_occupancies(occs);
        proof {
            let o = occupancy_seq(self.entries@);
            o.lemma_sort_by_ensures(occ_leq());
            vstd::seq_lib::lemma_sorted_unique(sorted@, o.sort_by(occ_leq()), occ_leq());
        }
        sorted
    }

    /// The exact Gini coefficient as `(numerator, denominator)`:
    /// `G = Σ (2i - n - 1)·x_i / (n · Σ x)` over the ascending
    /// occupancies; `(0, 1)` for an empty atlas or one without events.
    pub fn gini_exact(&self) -> (g: (i128, u128))
        requires
            gini_fits(*self, 0x4000_0000_0000_0000),
        ensures
            g.0 == gini_pair(sorted_occupancies(*self)).0,
            g.1 == gini_pair(sorted_occupancies(*self)).1,
            0 <= g.0 <= g.1,
            g.1 > 0,
    {
        let occs = self.occupancies();
        let n = occs.len();
        proof {
            lemma_occ_sum_nonneg(occs@);
        }
        if n == 0 {
            return (0, 1);
        }
        let mut total: u128 = 0;
        let mut i: usize = 0;
        while i < n
            invariant
                n == occs@.len(),
                occ_sum(occs@) <= 0x4000_0000_0000_0000,
                0 <= i <= n,
                total == occ_sum(occs@.subrange(0, i as int)),
                sorted_by(occs@, occ_leq()),
            decreases n - i,
        {
            proof {
                assert(occs@.subrange(0, i as int + 1).drop_last() =~= occs@.subrange(0, i as int));
                lemma_occ_sum_prefix(occs@, i as int + 1);
            }
            total = total + occs[i] as u128;
            i = i + 1;
        }
        assert(occs@.subrange(0, n as int) =~= occs@);
        if total == 0 {
            return (0, 1);
        }
        let ni = n as i128;
        let mut weighted: i128 = 0;
        let mut k: usize = 0;
        while k < n
            invariant
                n == occs@.len(),
                ni == n,
                1 <= n <= 0x4000_0000_0000_0000,
                occ_sum(occs@) <= 0x4000_0000_0000_0000,
                0 <= k <= n,
                weighted == gini_weight(occs@.subrange(0, k as int), n as int),
                -(n * occ_sum(occs@.subrange(0, k as int))) <= weighted <= n * occ_sum(
                    occs@.subrange(0, k as int),
                ),
            decreases n - k,
        {
            let x = occs[k];
            let coeff: i128 = 2 * (k as i128 + 1) - ni - 1;
            proof {
                let pre = occs@.subrange(0, k as int);
                let post = occs@.subrange(0, k as int + 1);
                assert(post.drop_last() =~= pre);
                lemma_occ_sum_prefix(occs@, k as int + 1);
                assert(x <= occ_sum(occs@));
                assert(-(n as int) <= coeff <= n);
                assert(-(n * (x as int)) <= coeff * x <= n * x) by (nonlinear_arith)
                    requires
                        -(n as int) <= coeff <= n,
                        x >= 0,
                ;
                assert(n * occ_sum(post) == n * occ_sum(pre) + n * x) by (nonlinear_arith)
                    requires
                        occ_sum(post) == occ_sum(pre) + x,
                ;
                lemma_occ_sum_nonneg(post);
                lemma_occ_sum_prefix_le(occs@, k as int + 1);
                assert(n * occ_sum(post) <= 0x4000_0000_0000_0000 * 0x4000_0000_0000_0000)
                    by (nonlinear_arith)
                    requires
                        occ_sum(post) <= 0x4000_0000_0000_0000,
                        n <= 0x4000_0000_0000_0000,
                        occ_sum(post) >= 0,
                ;
            }
            weighted = weighted + coeff * (x as i128);
            k = k + 1;
        }
        assert(occs@.subrange(0, n as int) =~= occs@);
        proof {
            lemma_gini_weight_bounds(occs@);
            assert((n - 1) * occ_sum(occs@) <= n * occ_sum(occs@)) by (nonlinear_arith)
                requires
                    occ_sum(occs@) >= 0,
            ;
            assert(n * total <= 0x4000_0000_0000_0000 * 0x4000_0000_0000_0000) by (nonlinear_arith)
                requires
                    total <= 0x4000_0000_0000_0000,
                    n <= 0x4000_0000_0000_0000,
            ;
        }
        let denom = (n as u128) * total;
        assert(denom > 0) by (nonlinear_arith)
            requires
                denom == n * total,
                n >= 1,
                total >= 1,
        ;
        (weighted, denom)
    }

    /// The Gini coefficient in basis points, `0..=10000`.
    pub fn gini_basis_points(&self) -> (bp: i64)
        requires
            gini_fits(*self, 0x0100_0000_0000_0000),
        ensures
            bp == gini_bp_spec(*self),
            0 <= bp <= 10_000,
    {
        let (num, den) = self.gini_exact();
        proof {
            lemma_occ_sum_nonneg(sorted_occupancies(*self));
            assert(den <= 0x0100_0000_0000_0000 * 0x0100_0000_0000_0000) by (nonlinear_arith)
                requires
                    den == sorted_occupancies(*self).len() * occ_sum(sorted_occupancies(*self))
                        || den == 1,
                    sorted_occupancies(*self).len() <= 0x0100_0000_0000_0000,
                    0 <= occ_sum(sorted_occupancies(*self)) <= 0x0100_0000_0000_0000,
            ;
            assert(num * 10000 <= den * 10000) by (nonlinear_arith)
                requires
                    num <= den,
            ;
            vstd::arithmetic::div_mod::lemma_div_is_ordered(num * 10000, den * 10000, den as int);
            vstd::arithmetic::div_mod::lemma_div_by_multiple(10000, den as int);
            assert(den * 10000 == 10000 * den) by (nonlinear_arith);
            assert((num * 10000) / (den as int) <= 10000);
            vstd::arithmetic::div_mod::lemma_div_pos_is_pos(num * 10000, den as int);
        }
        let q = ((num as u128) * 10000) / den;
        q as i64
    }
}

/// The sum over a prefix extends by the next element.
proof fn lemma_occ_sum_prefix(x: Seq<usize>, i: int)
    requires
        0 < i <= x.len(),
    ensures
        occ_sum(x.subrange(0, i)) == occ_sum(x.subrange(0, i - 1)) + x[i - 1],
        x[i - 1] <= occ_sum(x),
        occ_sum(x.subrange(0, i)) <= occ_sum(x),
    decreases x.len(),
{
    assert(x.subrange(0, i).drop_last() =~= x.subrange(0, i - 1));
    lemma_occ_sum_prefix_le(x, i);
    lemma_occ_sum_prefix_le(x, i - 1);
}

/// Prefix sums are monotone up to the full sum.
proof fn lemma_occ_sum_prefix_le(x: Seq<usize>, i: int)
    requires
        0 <= i <= x.len(),
    ensures
        0 <= occ_sum(x.subrange(0, i)) <= occ_sum(x),
    decreases x.len() - i,
{
    if i == x.len() {
        assert(x.subrange(0, i) =~= x);
        lemma_occ_sum_nonneg(x);
    } else {
        lemma_occ_sum_prefix_le(x, i + 1);
        assert(x.subrange(0, i + 1).drop_last() =~= x.subrange(0, i));
        lemma_occ_sum_nonneg(x.subrange(0, i));
    }
}

proof fn lemma_occ_sum_nonneg(x: Seq<usize>)
    ensures
        occ_sum(x) >= 0,
    decreases x.len(),
{
    if x.len() > 0 {
        lemma_occ_sum_nonneg(x.drop_last());
    }
}

/// Index `j` is among the first `n` entries and not yet picked.
pub open spec fn unpicked(picked: Seq<usize>, j: int) -> bool {
    forall|m: int| 0 <= m < picked.len() ==> #[trigger] picked[m] != j
}

/// `idx` selects the brightest entries: distinct indices in nonincreasing
/// occupancy, each at least as bright as every unselected entry.
pub open spec fn brightest(entries: Seq<AtlasEntry>, idx: Seq<usize>) -> bool {
    &&& idx.no_duplicates()
    &&& forall|i: int| 0 <= i < idx.len() ==> #[trigger] idx[i] < entries.len()
    &&& forall|i: int, j: int|
        0 <= i < j < idx.len() ==> entries[#[trigger] idx[i] as int].event_indices@.len()
            >= entries[#[trigger] idx[j] as int].event_indices@.len()
    &&& forall|i: int, u: int|
        #![trigger idx[i], unpicked(idx, u)]
        0 <= i < idx.len() && 0 <= u < entries.len() && unpicked(idx, u) ==> entries[u].event_indices@.len()
            <= entries[idx[i] as int].event_indices@.len()
}

impl ConfigAtlas {
    /// Occupancy histogram: occupancy `k` to the number of addresses
    /// holding `k` events.
    pub fn occupancy_histogram(&self) -> (h: HashMap<usize, usize>)
        ensures
            h@ == histogram_spec(self.entries@),
    {
        broadcast use vstd::std_specs::hash::group_hash_axioms;
        let mut hist: HashMap<usize, usize> = HashMap::new();
        let mut i: usize = 0;
        while i < self.entries.len()
            invariant
                0 <= i <= self.entries.len(),
                hist@ == histogram_spec(self.entries@.subrange(0, i as int)),
                forall|k: usize| #[trigger] hist@.contains_key(k) ==> hist@[k] <= i,
            decreases self.entries.len() - i,
        {
            let k = self.entries[i].occupancy();
            let c: usize = match hist.get(&k) {
                Some(v) => *v,
                None => 0,
            };
            proof {
                assert(self.entries@.subrange(0, i as int + 1).drop_last() =~= self.entries@.subrange(
                    0,
                    i as int,
                ));
            }
            hist.insert(k, c + 1);
            i = i + 1;
        }
        assert(self.entries@.subrange(0, self.entries.len() as int) =~= self.entries@);
        hist
    }

    /// The `k` brightest addresses, by nonincreasing occupancy.
    pub fn top_addresses(&self, k: usize) -> (v: Vec<&AtlasEntry>)
        ensures
            v@.len() == if k < self.entries@.len() { k as int } else { self.entries@.len() as int },
            exists|idx: Seq<usize>|
                #![trigger brightest(self.entries@, idx)]
                brightest(self.entries@, idx) && idx.len() == v@.len() && forall|i: int|
                    0 <= i < idx.len() ==> *v@[i] == self.entries@[#[trigger] idx[i] as int],
    {
        let n = self.entries.len();
        let mut picked: Vec<usize> = Vec::new();
        let mut out: Vec<&AtlasEntry> = Vec::new();
        while picked.len() < k && picked.len() < n
            invariant
                n == self.entries@.len(),
                picked.len() <= n,
                picked.len() <= k,
                out@.len() == picked.len(),
                brightest(self.entries@, picked@),
                forall|i: int| 0 <= i < picked@.len() ==> *out@[i] == self.entries@[#[trigger] picked@[i] as int],
            decreases n - picked.len(),
        {
            let mut best: usize = n;
            let mut j: usize = 0;
            while j < n
                invariant
                    n == self.entries@.len(),
                    0 <= j <= n,
                    best == n || (best < j && unpicked(picked@, best as int)),
                    best == n ==> forall|u: int| 0 <= u < j ==> !unpicked(picked@, u),
                    best < n ==> forall|u: int|
                        0 <= u < j && unpicked(picked@, u) ==> self.entries@[u].event_indices@.len()
                            <= self.entries@[best as int].event_indices@.len(),
                decreases n - j,
            {
                let mut free = true;
                let mut m: usize = 0;
                while m < picked.len()
                    invariant
                        0 <= m <= picked.len(),
                        free == forall|q: int| 0 <= q < m ==> #[trigger] picked@[q] != j,
                    decreases picked.len() - m,
                {
                    if picked[m] == j {
                        free = false;
                    }
                    m = m + 1;
                }
                if free {
                    if best == n || self.entries[j].occupancy() > self.entries[best].occupancy() {
                        best = j;
                    }
                }
                j = j + 1;
            }
            proof {
                if best == n {
                    assert(picked@.len() < n);
                    lemma_some_unpicked(picked@, n as int);
                }
            }
            let ghost old_picked = picked@;
            picked.push(best);
            out.push(&self.entries[best]);
            proof {
                assert forall|i: int, u: int|
                    #![trigger picked@[i], unpicked(picked@, u)]
                    0 <= i < picked@.len() && 0 <= u < n && unpicked(picked@, u) implies self.entries@[u].event_indices@.len()
                        <= self.entries@[picked@[i] as int].event_indices@.len() by {
                    assert(unpicked(old_picked, u)) by {
                        assert forall|m: int| 0 <= m < old_picked.len() implies #[trigger] old_picked[m] != u by {
                            assert(picked@[m] == old_picked[m]);
                        }
                    }
                    if i < old_picked.len() {
                        assert(picked@[i] == old_picked[i]);
                    }
                }
                assert forall|i: int, j2: int|
                    0 <= i < j2 < picked@.len() implies self.entries@[#[trigger] picked@[i] as int].event_indices@.len()
                        >= self.entries@[#[trigger] picked@[j2] as int].event_indices@.len() by {
                    if j2 < old_picked.len() {
                        assert(picked@[i] == old_picked[i] && picked@[j2] == old_picked[j2]);
                    } else {
                        assert(picked@[i] == old_picked[i]);
                        assert(unpicked(old_picked, best as int));
                    }
                }
                assert(picked@.no_duplicates()) by {
                    assert forall|a: int, b: int| 0 <= a < b < picked@.len() implies picked@[a] != picked@[b] by {
                        if b < old_picked.len() {
                            assert(old_picked[a] != old_picked[b]);
                        } else {
                            assert(picked@[a] == old_picked[a]);
                        }
                    }
                }
            }
        }
        out
    }

    /// Mean occupancy in basis points: `events·10000 / addresses`, 0 for
    /// an empty atlas.
    pub fn mean_occupancy_bp(&self) -> (m: u64)
        requires
            occ_sum(occupancy_seq(self.entries@)) * 10_000 <= u64::MAX,
        ensures
            self.entries@.len() == 0 ==> m == 0,
            self.entries@.len() > 0 ==> m == occ_sum(occupancy_seq(self.entries@)) * 10_000
                / (self.entries@.len() as int),
    {
        if self.entries.len() == 0 {
            return 0;
        }
        let mut total: u64 = 0;
        let mut i: usize = 0;
        while i < self.entries.len()
            invariant
                0 <= i <= self.entries.len(),
                occ_sum(occupancy_seq(self.entries@)) * 10_000 <= u64::MAX,
                total == occ_sum(occupancy_seq(self.entries@).subrange(0, i as int)),
            decreases self.entries.len() - i,
        {
            proof {
                lemma_occ_sum_prefix(occupancy_seq(self.entries@), i as int + 1);
                lemma_occ_sum_nonneg(occupancy_seq(self.entries@));
            }
            total = total + self.entries[i].occupancy() as u64;
            i = i + 1;
        }
        assert(occupancy_seq(self.entries@).subrange(0, self.entries.len() as int) =~= occupancy_seq(
            self.entries@,
        ));
        (total * 10_000) / (self.entries.len() as u64)
    }
}

/// Some index below `n` is unpicked when fewer than `n` distinct
/// indices below `n` are picked.
proof fn lemma_some_unpicked(picked: Seq<usize>, n: int)
    requires
        n <= usize::MAX,
        picked.len() < n,
        picked.no_duplicates(),
        forall|i: int| 0 <= i < picked.len() ==> #[trigger] picked[i] < n,
    ensures
        exists|u: int| 0 <= u < n && unpicked(picked, u),
{
    if !(exists|u: int| 0 <= u < n && unpicked(picked, u)) {
        let s = Set::new(|u: usize| 0 <= u < n);
        assert forall|u: usize| #[trigger] s.contains(u) implies picked.to_set().contains(u) by {
            assert(!unpicked(picked, u as int));
            let m = choose|m: int| 0 <= m < picked.len() && picked[m] == u;
            assert(picked.contains(u));
        }
        assert(s =~= picked.to_set()) by {
            assert forall|u: usize| #[trigger] picked.to_set().contains(u) implies s.contains(u) by {
                let m = choose|m: int| 0 <= m < picked.len() && picked[m] == u;
            }
        }
        picked.unique_seq_to_set();
        vstd::set_lib::lemma_int_range(0, n);
        assert(s.len() == n) by {
            let r = vstd::set_lib::set_int_range(0, n);
            assert(s == r.map(|i: int| i as usize)) by {
                assert forall|u: usize| s.contains(u) <==> r.map(|i: int| i as usize).contains(u) by {
                    if s.contains(u) {
                        assert(r.contains(u as int));
                    }
                }
            }
            assert(vstd::relations::injective_on(|i: int| i as usize, r));
            vstd::set_lib::lemma_map_size(r, s, |i: int| i as usize);
        }
    }
}

/// Resolution-gain comparison between two atlases.
#[derive(Clone, Debug)]
pub struct ResolutionGainReport {
    /// Baseline Gini in basis points.
    pub baseline_gini_bp: i64,
    /// Extended Gini in basis points.
    pub extended_gini_bp: i64,
    /// Extended less baseline.
    pub gain_bp: i64,
    /// The gain reaches the threshold.
    pub admissible: bool,
}

impl ResolutionGainReport {
    /// The Gini gain from `baseline` to `extended` and whether it reaches
    /// `threshold_bp` (compared as a signed value).
    pub fn from_atlases(baseline: &ConfigAtlas, extended: &ConfigAtlas, threshold_bp: u64) -> (r:
        ResolutionGainReport)
        requires
            gini_fits(*baseline, 0x0100_0000_0000_0000),
            gini_fits(*extended, 0x0100_0000_0000_0000),
        ensures
            r.baseline_gini_bp == gini_bp_spec(*baseline),
            r.extended_gini_bp == gini_bp_spec(*extended),
            r.gain_bp == r.extended_gini_bp - r.baseline_gini_bp,
            r.admissible == (r.gain_bp >= threshold_bp as i64),
    {
        let baseline_gini_bp = baseline.gini_basis_points();
        let extended_gini_bp = extended.gini_basis_points();
        let gain_bp = extended_gini_bp - baseline_gini_bp;
        let admissible = gain_bp >= threshold_bp as i64;
        ResolutionGainReport { baseline_gini_bp, extended_gini_bp, gain_bp, admissible }
    }
}

/// The flat addresses of the events from the carry bits of their first
/// `k` heads.
pub open spec fn prefix_addresses(bits: Seq<Vec<[u8; 6]>>, k: nat) -> Seq<u64> {
    Seq::new(bits.len(), |e: int| packed_address(bits[e]@.subrange(0, k as int), k * 6) as u64)
}

/// Every event carries at least `k` heads of carry bits.
pub open spec fn heads_at_least(bits: Seq<Vec<[u8; 6]>>, k: nat) -> bool {
    forall|e: int| 0 <= e < bits.len() ==> #[trigger] bits[e]@.len() >= k
}

/// Flat addresses of the events from their first `k` heads.
fn addresses_of_first_heads(event_head_bits: &[Vec<[u8; 6]>], k: usize) -> (v: Vec<u64>)
    requires
        heads_at_least(event_head_bits@, k as nat),
        k <= 10,
    ensures
        v@ == prefix_addresses(event_head_bits@, k as nat),
{
    let mut v: Vec<u64> = Vec::new();
    let mut e: usize = 0;
    while e < event_head_bits.len()
        invariant
            heads_at_least(event_head_bits@, k as nat),
            k <= 10,
            0 <= e <= event_head_bits.len(),
            v.len() == e,
            forall|j: int| 0 <= j < e ==> #[trigger] v@[j] == prefix_addresses(event_head_bits@, k as nat)[j],
        decreases event_head_bits.len() - e,
    {
        let row = &event_head_bits[e];
        let mut heads: Vec<[u8; 6]> = Vec::new();
        let mut h: usize = 0;
        while h < k
            invariant
                k <= row@.len(),
                0 <= h <= k,
                heads@ == row@.subrange(0, h as int),
            decreases k - h,
        {
            heads.push(row[h]);
            h = h + 1;
            assert(heads@ =~= row@.subrange(0, h as int));
        }
        let a = ConfigAtlas::compute_address(heads.as_slice());
        v.push(a);
        e = e + 1;
    }
    assert(v@ =~= prefix_addresses(event_head_bits@, k as nat));
    v
}

/// The atlases of the first one, two, three and four heads over the
/// events, given each event's per-head carry bits.
pub fn head_progression(event_head_bits: &[Vec<[u8; 6]>]) -> (v: Vec<(usize, ConfigAtlas)>)
    requires
        heads_at_least(event_head_bits@, 4),
    ensures
        v@.len() == 4,
        forall|i: int|
            0 <= i < 4 ==> {
                &&& (#[trigger] v@[i]).0 == i + 1
                &&& v@[i].1.address_space.head_count == i + 1
                &&& v@[i].1.total_events == event_head_bits@.len()
                &&& groups_addresses(
                    v@[i].1.entries@,
                    prefix_addresses(event_head_bits@, (i + 1) as nat),
                )
            },
{
    let mut progression: Vec<(usize, ConfigAtlas)> = Vec::new();
    let mut k: usize = 1;
    while k <= 4
        invariant
            heads_at_least(event_head_bits@, 4),
            1 <= k <= 5,
            progression@.len() == k - 1,
            forall|i: int|
                0 <= i < k - 1 ==> {
                    &&& (#[trigger] progression@[i]).0 == i + 1
                    &&& progression@[i].1.address_space.head_count == i + 1
                    &&& progression@[i].1.total_events == event_head_bits@.len()
                    &&& groups_addresses(
                        progression@[i].1.entries@,
                        prefix_addresses(event_head_bits@, (i + 1) as nat),
                    )
                },
        decreases 5 - k,
    {
        let addrs = addresses_of_first_heads(event_head_bits, k);
        let atlas = ConfigAtlas::build_from_addresses(addrs.as_slice(), k);
        progression.push((k, atlas));
        k = k + 1;
    }
    progression
}

/// The sum of occupancies as a left fold.
pub open spec fn occ_add() -> spec_fn(int, usize) -> int {
    |acc: int, v: usize| acc + v
}

proof fn lemma_occ_sum_fold(x: Seq<usize>)
    ensures
        occ_sum(x) == x.fold_left(0int, occ_add()),
    decreases x.len(),
{
    if x.len() > 0 {
        lemma_occ_sum_fold(x.drop_last());
    }
}

/// Sorting the occupancies keeps their sum.
proof fn lemma_sorted_sum(x: Seq<usize>)
    ensures
        occ_sum(x.sort_by(occ_leq())) == occ_sum(x),
        x.sort_by(occ_leq()).len() == x.len(),
{
    assert(vstd::relations::total_ordering(occ_leq()));
    x.lemma_sort_by_ensures(occ_leq());
    lemma_occ_sum_fold(x);
    lemma_occ_sum_fold(x.sort_by(occ_leq()));
    assert(vstd::seq_lib::commutative_foldl(occ_add()));
    vstd::seq_lib::lemma_fold_left_permutation(x, x.sort_by(occ_leq()), occ_add(), 0int);
    broadcast use vstd::seq_lib::group_to_multiset_ensures;
    assert(x.sort_by(occ_leq()).to_multiset().len() == x.to_multiset().len());
}

/// Number of the first `m` entries holding address `v`.
pub open spec fn count_addr(entries: Seq<AtlasEntry>, v: u64, m: nat) -> nat
    decreases m,
{
    if m == 0 {
        0
    } else {
        count_addr(entries, v, (m - 1) as nat) + if entries[m - 1].address == v { 1nat } else { 0 }
    }
}

/// Events among the first `k` that the first `m` entries hold.
pub open spec fn held(entries: Seq<AtlasEntry>, addrs: Seq<u64>, m: nat, k: nat) -> nat
    decreases m,
{
    if m == 0 {
        0
    } else {
        held(entries, addrs, (m - 1) as nat, k) + indices_with(addrs, entries[m - 1].address, k).len()
    }
}

proof fn lemma_count_addr(entries: Seq<AtlasEntry>, v: u64, m: nat)
    requires
        m <= entries.len(),
        forall|i: int, j: int| 0 <= i < j < entries.len() ==> #[trigger] entries[i].address != #[trigger] entries[j].address,
    ensures
        count_addr(entries, v, m) == if exists|i: int| 0 <= i < m && (#[trigger] entries[i]).address == v {
            1nat
        } else {
            0nat
        },
    decreases m,
{
    if m > 0 {
        lemma_count_addr(entries, v, (m - 1) as nat);
        if entries[m - 1].address == v {
            assert forall|i: int| 0 <= i < m - 1 implies (#[trigger] entries[i]).address != v by {
                assert(entries[i].address != entries[m - 1].address);
            }
        }
    }
}

proof fn lemma_held_step(entries: Seq<AtlasEntry>, addrs: Seq<u64>, m: nat, k: nat)
    requires
        k < addrs.len(),
        m <= entries.len(),
    ensures
        held(entries, addrs, m, k + 1) == held(entries, addrs, m, k) + count_addr(entries, addrs[k as int], m),
    decreases m,
{
    if m > 0 {
        lemma_held_step(entries, addrs, (m - 1) as nat, k);
    }
}

proof fn lemma_held_all(entries: Seq<AtlasEntry>, addrs: Seq<u64>, k: nat)
    requires
        k <= addrs.len(),
        groups_addresses(entries, addrs),
    ensures
        held(entries, addrs, entries.len(), k) == k,
    decreases k,
{
    if k == 0 {
        lemma_held_zero(entries, addrs, entries.len());
    } else {
        lemma_held_all(entries, addrs, (k - 1) as nat);
        lemma_held_step(entries, addrs, entries.len(), (k - 1) as nat);
        lemma_count_addr(entries, addrs[k - 1], entries.len());
        assert(address_present(entries, addrs[k - 1]));
    }
}

proof fn lemma_held_zero(entries: Seq<AtlasEntry>, addrs: Seq<u64>, m: nat)
    ensures
        held(entries, addrs, m, 0) == 0,
    decreases m,
{
    if m > 0 {
        lemma_held_zero(entries, addrs, (m - 1) as nat);
    }
}

proof fn lemma_indices_len(addrs: Seq<u64>, a: u64, n: nat)
    ensures
        indices_with(addrs, a, n).len() <= n,
    decreases n,
{
    if n > 0 {
        lemma_indices_len(addrs, a, (n - 1) as nat);
    }
}

proof fn lemma_occ_is_held(entries: Seq<AtlasEntry>, addrs: Seq<u64>, m: nat)
    requires
        m <= entries.len(),
        addrs.len() <= usize::MAX,
        groups_addresses(entries, addrs),
    ensures
        occ_sum(occupancy_seq(entries.subrange(0, m as int))) == held(entries, addrs, m, addrs.len()),
    decreases m,
{
    if m > 0 {
        lemma_occ_is_held(entries, addrs, (m - 1) as nat);
        let o = occupancy_seq(entries.subrange(0, m as int));
        assert(o.drop_last() =~= occupancy_seq(entries.subrange(0, m - 1)));
        assert(entries[m - 1].event_indices@ == indices_with(addrs, entries[m - 1].address, addrs.len()));
        lemma_indices_len(addrs, entries[m - 1].address, addrs.len());
        assert(o.last() == entries[m - 1].event_indices@.len() as usize);
    }
}

/// An atlas built from `n` events holds every event exactly once: its
/// occupancies add up to `n`, and it has at most `n` entries.
pub proof fn lemma_atlas_counts(a: ConfigAtlas, addrs: Seq<u64>)
    requires
        addrs.len() <= usize::MAX,
        groups_addresses(a.entries@, addrs),
        a.entries@.len() <= addrs.len(),
    ensures
        occ_sum(sorted_occupancies(a)) == addrs.len(),
        sorted_occupancies(a).len() == a.entries@.len(),
{
    let e = a.entries@;
    lemma_occ_is_held(e, addrs, e.len());
    assert(e.subrange(0, e.len() as int) =~= e);
    lemma_held_all(e, addrs, addrs.len());
    lemma_sorted_sum(occupancy_seq(e));
}

/// The occupancy of each distinct address of `addrs`, in order of first
/// occurrence.
pub open spec fn address_occupancies(addrs: Seq<u64>) -> Seq<usize> {
    distinct_first(addrs, addrs.len()).map_values(|a: u64| indices_with(addrs, a, addrs.len()).len() as usize)
}

/// The Gini basis points of the atlas over events with addresses `addrs`.
pub open spec fn addresses_gini_bp(addrs: Seq<u64>) -> int {
    let (num, den) = gini_pair(address_occupancies(addrs).sort_by(occ_leq()));
    (num * 10000) / den
}

/// Tests a candidate fifth head against the four-head baseline: the
/// Gini gain from the four-head atlas to the five-head atlas, given each
/// event's four-head and five-head addresses.
pub fn test_candidate_head(four_head: &[u64], extended: &[u64], threshold_bp: u64) -> (r: ResolutionGainReport)
    requires
        four_head@.len() <= 0x0100_0000_0000_0000,
        extended@.len() <= 0x0100_0000_0000_0000,
    ensures
        r.baseline_gini_bp == addresses_gini_bp(four_head@),
        r.extended_gini_bp == addresses_gini_bp(extended@),
        r.gain_bp == r.extended_gini_bp - r.baseline_gini_bp,
        r.admissible == (r.gain_bp >= threshold_bp as i64),
{
    let baseline = ConfigAtlas::build_four_head(four_head);
    let ext = ConfigAtlas::build_from_addresses(extended, 5);
    proof {
        four_head@.lemma_cardinality_of_set();
        extended@.lemma_cardinality_of_set();
        lemma_atlas_counts(baseline, four_head@);
        lemma_atlas_counts(ext, extended@);
    }
    ResolutionGainReport::from_atlases(&baseline, &ext, threshold_bp)
}

} // verus!
