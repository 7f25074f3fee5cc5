//! The catalog of the cycles the bilinear generator reaches from the seed,
//! by increasing cycle, each with its residue address, carry signature,
//! level at the shadow prime, DKAM admissibility, Safe Basis lanes and
//! carry distance to the Tzolk'in and the Haab; and the queries on it.

use vstd::prelude::*;
use crate::factor::{distinct_prime_factors, prime_factors_spec};
use crate::h1_generator::{CarrySignature, differing_bits};
use crate::h1_stage8::{reachable_periods, collected, cycles_increasing, same_periods};
use crate::h5_level::{k_elim_level, level_spec};
use crate::substrate::{cram_address, carry_bits, pack_carry_bits, pack_spec, carry_spec, cram_spec,
    nullified_lanes, active_lanes, nullified_spec, active_spec};

verus! {

/// One catalog entry.
#[derive(Clone, Debug)]
pub struct CatalogEntry {
    pub name: &'static str,
    pub cycle: u64,
    pub generator_path: String,
    /// Residue address over the Safe Basis.
    pub cram: [u64; 6],
    /// Carry signature (six bits packed in a byte).
    pub carry_sig: u8,
    /// Level at the shadow prime 11.
    pub level_11: u32,
    /// At most three distinct prime factors.
    pub dkam_ok: bool,
    /// Safe Basis primes dividing the cycle.
    pub nullified: Vec<u64>,
    /// Safe Basis primes not dividing the cycle.
    pub active: Vec<u64>,
    /// Carry distance to the Tzolk'in (260).
    pub dist_to_tzolkin: u32,
    /// Carry distance to the Haab (365).
    pub dist_to_haab: u32,
}

/// Carry signature of a cycle as a byte.
pub open spec fn sig_of(c: u64) -> u8 {
    pack_spec(carry_spec(c)) as u8
}

/// The fields of an entry that follow from its cycle.
pub open spec fn entry_fields(e: CatalogEntry) -> bool {
    let c = e.cycle;
    &&& e.cram@ == cram_spec(c)
    &&& e.carry_sig as int == pack_spec(carry_spec(c))
    &&& e.level_11 == level_spec(c as nat, 11)
    &&& e.dkam_ok == (prime_factors_spec(c as nat).len() <= 3)
    &&& e.nullified@ == nullified_spec(c)
    &&& e.active@ == active_spec(c)
    &&& e.dist_to_tzolkin == differing_bits(e.carry_sig, sig_of(260), 8)
    &&& e.dist_to_haab == differing_bits(e.carry_sig, sig_of(365), 8)
}

/// At most three distinct prime factors: operator degree at most 2.
fn dkam_check(cycle: u64) -> (b: bool)
    ensures
        b == (prime_factors_spec(cycle as nat).len() <= 3),
{
    let factors = distinct_prime_factors(cycle);
    factors.len() <= 3
}

/// The catalog entry of a period.
fn catalog_entry(name: &'static str, cycle: u64, path: String, tz: u8, ha: u8) -> (e: CatalogEntry)
    requires
        tz == sig_of(260),
        ha == sig_of(365),
    ensures
        e.name == name,
        e.cycle == cycle,
        e.generator_path@ == path@,
        entry_fields(e),
{
    let cram = cram_address(cycle);
    let csig = pack_carry_bits(&carry_bits(cycle));
    let d_tz = CarrySignature(csig).hamming_distance(&CarrySignature(tz));
    let d_ha = CarrySignature(csig).hamming_distance(&CarrySignature(ha));
    CatalogEntry {
        name,
        cycle,
        generator_path: path,
        cram,
        carry_sig: csig,
        level_11: k_elim_level(cycle, 11),
        dkam_ok: dkam_check(cycle),
        nullified: nullified_lanes(cycle),
        active: active_lanes(cycle),
        dist_to_tzolkin: d_tz,
        dist_to_haab: d_ha,
    }
}

/// The catalog of the periods reachable within `max_cycle`: one entry
/// per period, by increasing cycle.
pub fn build_catalog(max_cycle: u64) -> (v: Vec<CatalogEntry>)
    ensures
        exists|p: Seq<(&'static str, u64, String)>|
            {
                &&& cycles_increasing(p)
                &&& same_periods(p, collected(max_cycle, 96))
                &&& v@.len() == p.len()
                &&& forall|i: int|
                    0 <= i < p.len() ==> {
                        &&& (#[trigger] v@[i]).name == p[i].0
                        &&& v@[i].cycle == p[i].1
                        &&& v@[i].generator_path@ == p[i].2@
                    }
            },
        forall|i: int| 0 <= i < v@.len() ==> entry_fields(#[trigger] v@[i]),
{
    let tz = pack_carry_bits(&carry_bits(260));
    let ha = pack_carry_bits(&carry_bits(365));
    let periods = reachable_periods(max_cycle);
    let mut out: Vec<CatalogEntry> = Vec::new();
    let mut i: usize = 0;
    while i < periods.len()
        invariant
            0 <= i <= periods.len(),
            tz == sig_of(260),
            ha == sig_of(365),
            out@.len() == i,
            forall|k: int|
                0 <= k < i ==> {
                    &&& (#[trigger] out@[k]).name == periods@[k].0
                    &&& out@[k].cycle == periods@[k].1
                    &&& out@[k].generator_path@ == periods@[k].2@
                    &&& entry_fields(out@[k])
                },
        decreases periods.len() - i,
    {
        let name = periods[i].0;
        let cycle = periods[i].1;
        let path = periods[i].2.clone();
        let e = catalog_entry(name, cycle, path, tz, ha);
        out.push(e);
        i = i + 1;
    }
    proof {
        assert(v_matches(out@, periods@));
    }
    out
}

/// Entry `k` of `v` carries the name, cycle and path of period `k`.
spec fn v_matches(v: Seq<CatalogEntry>, p: Seq<(&'static str, u64, String)>) -> bool {
    &&& v.len() == p.len()
    &&& forall|i: int|
        0 <= i < p.len() ==> {
            &&& (#[trigger] v[i]).name == p[i].0
            &&& v[i].cycle == p[i].1
            &&& v[i].generator_path@ == p[i].2@
        }
}

/// Entries selected by a predicate, kept by reference in catalog order.
pub open spec fn deref_all(v: Seq<&CatalogEntry>) -> Seq<CatalogEntry> {
    v.map_values(|e: &CatalogEntry| *e)
}

/// The entries whose carry signature is that of `target_cycle`.
pub fn same_carry_class(catalog: &[CatalogEntry], target_cycle: u64) -> (v: Vec<&CatalogEntry>)
    ensures
        deref_all(v@) == catalog@.filter(|e: CatalogEntry| e.carry_sig == sig_of(target_cycle)),
{
    let target_sig = pack_carry_bits(&carry_bits(target_cycle));
    let ghost pred = |e: CatalogEntry| e.carry_sig == sig_of(target_cycle);
    let mut out: Vec<&CatalogEntry> = Vec::new();
    let mut i: usize = 0;
    while i < catalog.len()
        invariant
            0 <= i <= catalog.len(),
            target_sig == sig_of(target_cycle),
            pred == (|e: CatalogEntry| e.carry_sig == sig_of(target_cycle)),
            deref_all(out@) == catalog@.subrange(0, i as int).filter(pred),
        decreases catalog.len() - i,
    {
        let ghost before = out@;
        proof {
            assert(catalog@.subrange(0, i as int + 1) =~= catalog@.subrange(0, i as int).push(catalog@[i as int]));
            catalog@.subrange(0, i as int).lemma_filter_push(catalog@[i as int], pred);
        }
        if catalog[i].carry_sig == target_sig {
            out.push(&catalog[i]);
            assert(deref_all(out@) =~= deref_all(before).push(catalog@[i as int]));
        }
        i = i + 1;
    }
    assert(catalog@.subrange(0, catalog.len() as int) =~= catalog@);
    out
}

/// The entries at level at most 2 at the shadow prime.
pub fn level2_periods(catalog: &[CatalogEntry]) -> (v: Vec<&CatalogEntry>)
    ensures
        deref_all(v@) == catalog@.filter(|e: CatalogEntry| e.level_11 <= 2),
{
    let ghost pred = |e: CatalogEntry| e.level_11 <= 2;
    let mut out: Vec<&CatalogEntry> = Vec::new();
    let mut i: usize = 0;
    while i < catalog.len()
        invariant
            0 <= i <= catalog.len(),
            pred == (|e: CatalogEntry| e.level_11 <= 2),
            deref_all(out@) == catalog@.subrange(0, i as int).filter(pred),
        decreases catalog.len() - i,
    {
        let ghost before = out@;
        proof {
            assert(catalog@.subrange(0, i as int + 1) =~= catalog@.subrange(0, i as int).push(catalog@[i as int]));
            catalog@.subrange(0, i as int).lemma_filter_push(catalog@[i as int], pred);
        }
        if catalog[i].level_11 <= 2 {
            out.push(&catalog[i]);
            assert(deref_all(out@) =~= deref_all(before).push(catalog@[i as int]));
        }
        i = i + 1;
    }
    assert(catalog@.subrange(0, catalog.len() as int) =~= catalog@);
    out
}

/// The entries within carry distance `max_dist` of the Tzolk'in or the
/// Haab.
pub fn near_canonical(catalog: &[CatalogEntry], max_dist: u32) -> (v: Vec<&CatalogEntry>)
    ensures
        deref_all(v@) == catalog@.filter(
            |e: CatalogEntry| e.dist_to_tzolkin <= max_dist || e.dist_to_haab <= max_dist,
        ),
{
    let ghost pred = |e: CatalogEntry| e.dist_to_tzolkin <= max_dist || e.dist_to_haab <= max_dist;
    let mut out: Vec<&CatalogEntry> = Vec::new();
    let mut i: usize = 0;
    while i < catalog.len()
        invariant
            0 <= i <= catalog.len(),
            pred == (|e: CatalogEntry| e.dist_to_tzolkin <= max_dist || e.dist_to_haab <= max_dist),
            deref_all(out@) == catalog@.subrange(0, i as int).filter(pred),
        decreases catalog.len() - i,
    {
        let ghost before = out@;
        proof {
            assert(catalog@.subrange(0, i as int + 1) =~= catalog@.subrange(0, i as int).push(catalog@[i as int]));
            catalog@.subrange(0, i as int).lemma_filter_push(catalog@[i as int], pred);
        }
        if catalog[i].dist_to_tzolkin <= max_dist || catalog[i].dist_to_haab <= max_dist {
            out.push(&catalog[i]);
            assert(deref_all(out@) =~= deref_all(before).push(catalog@[i as int]));
        }
        i = i + 1;
    }
    assert(catalog@.subrange(0, catalog.len() as int) =~= catalog@);
    out
}

/// Position of the class with signature `s` among the first `n` classes.
pub open spec fn class_index(c: Seq<(u8, Seq<u64>)>, s: u8, n: nat) -> Option<int>
    decreases n,
{
    if n == 0 {
        None
    } else {
        match class_index(c, s, (n - 1) as nat) {
            Some(k) => Some(k),
            None => if c[n - 1].0 == s {
                Some(n - 1)
            } else {
                None
            },
        }
    }
}

/// The carry-signature classes of the first `n` entries: one per
/// signature in order of first appearance, each with its cycles in
/// catalog order.
pub open spec fn classes_spec(cat: Seq<CatalogEntry>, n: nat) -> Seq<(u8, Seq<u64>)>
    decreases n,
{
    if n == 0 {
        seq![]
    } else {
        let prev = classes_spec(cat, (n - 1) as nat);
        let e = cat[n - 1];
        match class_index(prev, e.carry_sig, prev.len()) {
            Some(k) => prev.update(k, (e.carry_sig, prev[k].1.push(e.cycle))),
            None => prev.push((e.carry_sig, seq![e.cycle])),
        }
    }
}

/// The view of a class list.
pub open spec fn classes_view(v: Seq<(u8, Vec<u64>)>) -> Seq<(u8, Seq<u64>)> {
    v.map_values(|c: (u8, Vec<u64>)| (c.0, c.1@))
}

proof fn lemma_class_index(c: Seq<(u8, Seq<u64>)>, s: u8, n: nat)
    requires
        n <= c.len(),
    ensures
        class_index(c, s, n) matches Some(k) ==> 0 <= k < n && c[k].0 == s,
        class_index(c, s, n) is None ==> forall|j: int| 0 <= j < n ==> #[trigger] c[j].0 != s,
    decreases n,
{
    if n > 0 {
        lemma_class_index(c, s, (n - 1) as nat);
    }
}

proof fn lemma_classes_len(cat: Seq<CatalogEntry>, n: nat)
    requires
        n <= cat.len(),
    ensures
        classes_spec(cat, n).len() <= n,
    decreases n,
{
    if n > 0 {
        lemma_classes_len(cat, (n - 1) as nat);
        let prev = classes_spec(cat, (n - 1) as nat);
        lemma_class_index(prev, cat[n - 1].carry_sig, prev.len());
    }
}

/// The cycles grouped by carry signature, classes in order of first
/// appearance.
pub fn carry_signature_classes(catalog: &[CatalogEntry]) -> (v: Vec<(u8, Vec<u64>)>)
    ensures
        classes_view(v@) == classes_spec(catalog@, catalog@.len()),
{
    let mut out: Vec<(u8, Vec<u64>)> = Vec::new();
    let mut i: usize = 0;
    while i < catalog.len()
        invariant
            0 <= i <= catalog.len(),
            classes_view(out@) == classes_spec(catalog@, i as nat),
        decreases catalog.len() - i,
    {
        let sig = catalog[i].carry_sig;
        let cycle = catalog[i].cycle;
        let ghost prev = classes_view(out@);
        let mut k: usize = 0;
        let mut found = false;
        while k < out.len() && !found
            invariant
                0 <= k <= out.len(),
                prev == classes_view(out@),
                found ==> k < out.len() && out@[k as int].0 == sig && class_index(prev, sig, prev.len())
                    == Some(k as int),
                !found ==> class_index(prev, sig, k as nat) is None,
            decreases out.len() - k + if found { 0int } else { 1 },
        {
            if out[k].0 == sig {
                found = true;
                proof {
                    lemma_class_index_first(prev, sig, k as nat, prev.len());
                }
            } else {
                k = k + 1;
            }
        }
        if found {
            let (s, mut cycles) = out.remove(k);
            cycles.push(cycle);
            out.insert(k, (s, cycles));
            proof {
                assert(classes_view(out@) =~= prev.update(k as int, (sig, prev[k as int].1.push(cycle))));
            }
        } else {
            let single: Vec<u64> = vec![cycle];
            assert(single@ =~= seq![cycle]);
            out.push((sig, single));
            proof {
                assert(classes_view(out@) =~= prev.push((sig, seq![cycle])));
            }
        }
        i = i + 1;
    }
    out
}

/// Once the first match is at `k`, it stays the first match.
proof fn lemma_class_index_first(c: Seq<(u8, Seq<u64>)>, s: u8, k: nat, n: nat)
    requires
        k < n <= c.len(),
        c[k as int].0 == s,
        class_index(c, s, k) is None,
    ensures
        class_index(c, s, n) == Some(k as int),
    decreases n,
{
    if n > k + 1 {
        lemma_class_index_first(c, s, k, (n - 1) as nat);
    }
}

/// Summary statistics of a catalog.
#[derive(Clone, Debug)]
pub struct CatalogStats {
    pub total_entries: usize,
    pub distinct_carry_signatures: usize,
    pub level2_count: usize,
    pub level3_plus_count: usize,
    pub dkam_admissible_count: usize,
    pub tzolkin_carry_class_size: usize,
    pub haab_carry_class_size: usize,
}

/// Size of the class of signature `s` (0 when absent).
pub open spec fn class_size(c: Seq<(u8, Seq<u64>)>, s: u8) -> nat {
    match class_index(c, s, c.len()) {
        Some(k) => c[k].1.len(),
        None => 0,
    }
}

/// Number of entries satisfying a predicate.
fn count_where(catalog: &[CatalogEntry], which: u8) -> (n: usize)
    requires
        which < 3,
    ensures
        which == 0 ==> n == catalog@.filter(|e: CatalogEntry| e.level_11 <= 2).len(),
        which == 1 ==> n == catalog@.filter(|e: CatalogEntry| e.level_11 >= 3).len(),
        which == 2 ==> n == catalog@.filter(|e: CatalogEntry| e.dkam_ok).len(),
{
    let ghost pred = if which == 0 {
        |e: CatalogEntry| e.level_11 <= 2
    } else if which == 1 {
        |e: CatalogEntry| e.level_11 >= 3
    } else {
        |e: CatalogEntry| e.dkam_ok
    };
    let mut n: usize = 0;
    let mut i: usize = 0;
    while i < catalog.len()
        invariant
            0 <= i <= catalog.len(),
            which < 3,
            pred == (if which == 0 {
                |e: CatalogEntry| e.level_11 <= 2
            } else if which == 1 {
                |e: CatalogEntry| e.level_11 >= 3
            } else {
                |e: CatalogEntry| e.dkam_ok
            }),
            n == catalog@.subrange(0, i as int).filter(pred).len(),
            n <= i,
        decreases catalog.len() - i,
    {
        proof {
            assert(catalog@.subrange(0, i as int + 1) =~= catalog@.subrange(0, i as int).push(catalog@[i as int]));
            catalog@.subrange(0, i as int).lemma_filter_push(catalog@[i as int], pred);
        }
        let e = &catalog[i];
        let hit = if which == 0 {
            e.level_11 <= 2
        } else if which == 1 {
            e.level_11 >= 3
        } else {
            e.dkam_ok
        };
        if hit {
            n = n + 1;
        }
        i = i + 1;
    }
    assert(catalog@.subrange(0, catalog.len() as int) =~= catalog@);
    n
}

/// Size of the class of signature `s` in a class list.
fn class_size_of(classes: &Vec<(u8, Vec<u64>)>, s: u8) -> (n: usize)
    ensures
        n == class_size(classes_view(classes@), s),
{
    let ghost c = classes_view(classes@);
    let mut k: usize = 0;
    while k < classes.len()
        invariant
            0 <= k <= classes.len(),
            c == classes_view(classes@),
            class_index(c, s, k as nat) is None,
        decreases classes.len() - k,
    {
        if classes[k].0 == s {
            proof {
                lemma_class_index_first(c, s, k as nat, c.len());
            }
            return classes[k].1.len();
        }
        k = k + 1;
    }
    0
}

/// Entries at level at most 2 and those at level 3 or more partition the
/// catalog.
pub proof fn lemma_levels_partition(cat: Seq<CatalogEntry>)
    ensures
        cat.filter(|e: CatalogEntry| e.level_11 <= 2).len() + cat.filter(|e: CatalogEntry| e.level_11 >= 3).len()
            == cat.len(),
    decreases cat.len(),
{
    let lo = |e: CatalogEntry| e.level_11 <= 2;
    let hi = |e: CatalogEntry| e.level_11 >= 3;
    if cat.len() > 0 {
        lemma_levels_partition(cat.drop_last());
        assert(cat =~= cat.drop_last().push(cat.last()));
        cat.drop_last().lemma_filter_push(cat.last(), lo);
        cat.drop_last().lemma_filter_push(cat.last(), hi);
    }
}

/// The statistics of a catalog: entries, distinct signatures, level
/// counts, admissible count and the sizes of the Tzolk'in and Haab
/// carry classes.
pub fn catalog_stats(catalog: &[CatalogEntry]) -> (s: CatalogStats)
    ensures
        s.total_entries == catalog@.len(),
        s.distinct_carry_signatures == classes_spec(catalog@, catalog@.len()).len(),
        s.distinct_carry_signatures <= s.total_entries,
        s.level2_count == catalog@.filter(|e: CatalogEntry| e.level_11 <= 2).len(),
        s.level3_plus_count == catalog@.filter(|e: CatalogEntry| e.level_11 >= 3).len(),
        s.level2_count + s.level3_plus_count == s.total_entries,
        s.dkam_admissible_count == catalog@.filter(|e: CatalogEntry| e.dkam_ok).len(),
        s.tzolkin_carry_class_size == class_size(classes_spec(catalog@, catalog@.len()), sig_of(260)),
        s.haab_carry_class_size == class_size(classes_spec(catalog@, catalog@.len()), sig_of(365)),
{
    let classes = carry_signature_classes(catalog);
    let tz_sig = pack_carry_bits(&carry_bits(260));
    let ha_sig = pack_carry_bits(&carry_bits(365));
    proof {
        lemma_classes_len(catalog@, catalog@.len());
        lemma_levels_partition(catalog@);
    }
    CatalogStats {
        total_entries: catalog.len(),
        distinct_carry_signatures: classes.len(),
        level2_count: count_where(catalog, 0),
        level3_plus_count: count_where(catalog, 1),
        dkam_admissible_count: count_where(catalog, 2),
        tzolkin_carry_class_size: class_size_of(&classes, tz_sig),
        haab_carry_class_size: class_size_of(&classes, ha_sig),
    }
}

} // verus!
