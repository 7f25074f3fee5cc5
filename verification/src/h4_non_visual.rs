//! The numerical Goddess-section instruments: the entropy of the page
//! interval sequence, the residue path of the cumulative page totals,
//! their alignment with head cycles, and the per-prime residue
//! progressions (carry flux).

use vstd::prelude::*;
use crate::h3_mi::{entropy_nbp, entropy_spec, entropy_fits, count_sum};
use crate::substrate::{cram_address, cram_spec, SAFE_BASIS, safe_basis};

verus! {

/// The Goddess-section page intervals: the 148/177 eclipse half-year
/// alternation.
pub const GODDESS_SECTION_INTERVALS: [u64; 9] = [148, 177, 148, 177, 148, 177, 148, 177, 148];

/// Total of the Goddess-section intervals.
pub const GODDESS_SECTION_TOTAL: u64 = 1_448;

/// Eclipse year in whole days.
pub const ECLIPSE_YEAR_DAYS: u64 = 346;

/// The Haab as eighteen 20-day winals and the 5-day Wayeb.
pub const WAYEB_INTERVALS: [u64; 19] = [
    20, 20, 20, 20, 20, 20, 20, 20, 20, 20, 20, 20, 20, 20, 20, 20, 20, 20, 5,
];

/// The Goddess-section intervals as a sequence.
pub open spec fn goddess_intervals() -> Seq<u64> {
    seq![148u64, 177, 148, 177, 148, 177, 148, 177, 148]
}

/// The cumulative page totals `148, 325, …, 1448`.
pub open spec fn goddess_totals() -> Seq<u64> {
    seq![148u64, 325, 473, 650, 798, 975, 1123, 1300, 1448]
}

/// The running totals are the prefix sums of the intervals.
pub proof fn lemma_goddess_totals()
    ensures
        goddess_totals().len() == 9,
        goddess_totals()[0] == goddess_intervals()[0],
        forall|k: int|
            1 <= k < 9 ==> #[trigger] goddess_totals()[k] == goddess_totals()[k - 1]
                + goddess_intervals()[k],
        goddess_totals()[8] == GODDESS_SECTION_TOTAL,
{
}

/// Entropy of the interval sequence against the uniform null model.
#[derive(Clone, Debug)]
pub struct PeriodSequenceEntropy {
    /// Observed entropy of the interval counts.
    pub observed_entropy_nbp: i64,
    /// Null-model entropy (uniform over 148 and 177).
    pub null_entropy_nbp: i64,
    /// Null less observed.
    pub excess_structure_nbp: i64,
    /// The excess reaches 3000 nbp.
    pub structured: bool,
}

/// The period-entropy report owed: the observed entropy of the 148/177
/// split `[5, 4]` against the null `[1, 1]`, structured at 3000 nbp of
/// excess.
pub open spec fn entropy_report(r: PeriodSequenceEntropy) -> bool {
    &&& r.observed_entropy_nbp == entropy_spec(seq![5u64, 4u64])
    &&& r.null_entropy_nbp == entropy_spec(seq![1u64, 1u64])
    &&& r.excess_structure_nbp == r.null_entropy_nbp - r.observed_entropy_nbp
    &&& r.structured == (r.excess_structure_nbp >= 3000)
}

/// Instrument 1: entropy of the 148/177 counts `[5, 4]` against the
/// uniform `[1, 1]`.
pub fn instrument_1_period_entropy() -> (r: PeriodSequenceEntropy)
    ensures
        entropy_report(r),
{
    let intervals = GODDESS_SECTION_INTERVALS;
    let total = intervals.len() as u64;
    let mut count_148: u64 = 0;
    let mut i: usize = 0;
    while i < 9
        invariant
            0 <= i <= 9,
            intervals@ == goddess_intervals(),
            count_148 == goddess_intervals().subrange(0, i as int).filter(|x: u64| x == 148).len(),
            count_148 <= i,
        decreases 9 - i,
    {
        proof {
            assert(goddess_intervals().subrange(0, i as int + 1) =~= goddess_intervals().subrange(
                0,
                i as int,
            ).push(goddess_intervals()[i as int]));
            goddess_intervals().subrange(0, i as int).lemma_filter_push(
                goddess_intervals()[i as int],
                |x: u64| x == 148,
            );
        }
        if intervals[i] == 148 {
            count_148 = count_148 + 1;
        }
        i = i + 1;
    }
    proof {
        assert(goddess_intervals().subrange(0, 9) =~= goddess_intervals());
        reveal_with_fuel(vstd::seq::Seq::filter, 10);
        assert(goddess_intervals().filter(|x: u64| x == 148) =~= seq![148u64, 148, 148, 148, 148]);
    }
    let count_177 = total - count_148;
    let observed_counts = [count_148, count_177];
    let null_counts = [1u64, 1u64];
    proof {
        assert(observed_counts@ =~= seq![5u64, 4u64]);
        assert(null_counts@ =~= seq![1u64, 1u64]);
        lemma_small_counts_fit(seq![5u64, 4u64]);
        lemma_small_counts_fit(seq![1u64, 1u64]);
    }
    let observed_nbp = entropy_nbp(&observed_counts);
    let null_nbp = entropy_nbp(&null_counts);
    let excess = null_nbp - observed_nbp;
    PeriodSequenceEntropy {
        observed_entropy_nbp: observed_nbp,
        null_entropy_nbp: null_nbp,
        excess_structure_nbp: excess,
        structured: excess >= 3000,
    }
}

/// Two counts below 128 are in range for the entropy computation.
proof fn lemma_small_counts_fit(c: Seq<u64>)
    requires
        c.len() == 2,
        c[0] < 128,
        c[1] < 128,
    ensures
        entropy_fits(c),
{
    assert(c.drop_last().drop_last() =~= Seq::<u64>::empty());
    assert(count_sum(c) == c[0] + c[1]) by {
        reveal_with_fuel(count_sum, 3);
    }
}

/// Number of lanes on which two addresses differ.
pub open spec fn hamming(a: Seq<u64>, b: Seq<u64>) -> nat
    decreases a.len(),
{
    if a.len() == 0 {
        0
    } else {
        hamming(a.drop_last(), b.drop_last()) + if a.last() != b.last() {
            1nat
        } else {
            0nat
        }
    }
}

/// The largest Hamming distance between consecutive addresses among the
/// first `n` pages.
pub open spec fn max_consecutive_hamming_spec(addrs: Seq<Seq<u64>>, n: nat) -> nat
    decreases n,
{
    if n < 2 {
        0
    } else {
        let prev = max_consecutive_hamming_spec(addrs, (n - 1) as nat);
        let h = hamming(addrs[n - 2], addrs[n - 1]);
        if h > prev {
            h
        } else {
            prev
        }
    }
}

/// The residue addresses of the cumulative page totals.
pub open spec fn goddess_addresses() -> Seq<Seq<u64>> {
    Seq::new(9, |k: int| cram_spec(goddess_totals()[k]))
}

/// Residue path of the Goddess section.
#[derive(Clone, Debug)]
pub struct ResiduePatternSignature {
    /// `(cumulative total, residue address)` at each page boundary.
    pub page_signatures: Vec<(u64, [u64; 6])>,
    /// Number of distinct addresses on the path.
    pub distinct_addresses: usize,
    /// Largest Hamming distance between consecutive addresses.
    pub max_consecutive_hamming: u32,
    /// At most three distinct addresses and Hamming jumps of at most two.
    pub structured: bool,
}

fn hamming6(a: &[u64; 6], b: &[u64; 6]) -> (h: u32)
    ensures
        h == hamming(a@, b@),
        h <= 6,
{
    let mut h: u32 = 0;
    let mut i: usize = 0;
    while i < 6
        invariant
            0 <= i <= 6,
            h == hamming(a@.subrange(0, i as int), b@.subrange(0, i as int)),
            h <= i,
        decreases 6 - i,
    {
        proof {
            assert(a@.subrange(0, i as int + 1).drop_last() =~= a@.subrange(0, i as int));
            assert(b@.subrange(0, i as int + 1).drop_last() =~= b@.subrange(0, i as int));
        }
        if a[i] != b[i] {
            h = h + 1;
        }
        i = i + 1;
    }
    assert(a@.subrange(0, 6) =~= a@);
    assert(b@.subrange(0, 6) =~= b@);
    h
}

pub(crate) fn same_address(a: &[u64; 6], b: &[u64; 6]) -> (r: bool)
    ensures
        r == (a@ == b@),
{
    let h = hamming6(a, b);
    proof {
        lemma_hamming_zero(a@, b@);
    }
    h == 0
}

proof fn lemma_hamming_zero(a: Seq<u64>, b: Seq<u64>)
    requires
        a.len() == b.len(),
    ensures
        (hamming(a, b) == 0) == (a == b),
    decreases a.len(),
{
    if a.len() > 0 {
        lemma_hamming_zero(a.drop_last(), b.drop_last());
        if a == b {
            assert(a.drop_last() == b.drop_last());
        }
        if hamming(a, b) == 0 {
            assert(a.drop_last() =~= b.drop_last());
            assert(a =~= a.drop_last().push(a.last()));
            assert(b =~= b.drop_last().push(b.last()));
        }
    } else {
        assert(a =~= b);
    }
}

/// The residue-pattern report owed: each page total with its residue
/// address, the number of distinct addresses and the largest Hamming
/// step, structured at no more than 3 addresses and steps of at most 2.
pub open spec fn residue_report(r: ResiduePatternSignature) -> bool {
    &&& r.page_signatures@.len() == 9
    &&& forall|k: int|
        0 <= k < 9 ==> (#[trigger] r.page_signatures@[k]).0 == goddess_totals()[k]
            && r.page_signatures@[k].1@ == cram_spec(goddess_totals()[k])
    &&& r.distinct_addresses == goddess_addresses().to_set().len()
    &&& r.max_consecutive_hamming == max_consecutive_hamming_spec(goddess_addresses(), 9)
    &&& r.structured == (r.distinct_addresses <= 3 && r.max_consecutive_hamming <= 2)
}

/// Instrument 2: the residue path of the cumulative page totals.
pub fn instrument_2_residue_pattern() -> (r: ResiduePatternSignature)
    ensures
        residue_report(r),
{
    let intervals = GODDESS_SECTION_INTERVALS;
    let mut sigs: Vec<(u64, [u64; 6])> = Vec::new();
    let mut total: u64 = 0;
    let mut i: usize = 0;
    proof {
        lemma_goddess_totals();
    }
    while i < 9
        invariant
            0 <= i <= 9,
            intervals@ == goddess_intervals(),
            sigs.len() == i,
            i == 0 ==> total == 0,
            i > 0 ==> total == goddess_totals()[i - 1],
            forall|k: int|
                0 <= k < i ==> (#[trigger] sigs@[k]).0 == goddess_totals()[k] && sigs@[k].1@
                    == cram_spec(goddess_totals()[k]),
        decreases 9 - i,
    {
        proof {
            lemma_goddess_totals();
        }
        total = total + intervals[i];
        sigs.push((total, cram_address(total)));
        i = i + 1;
    }
    let mut distinct: usize = 0;
    let mut max_ham: u32 = 0;
    let mut j: usize = 0;
    let ghost addrs = goddess_addresses();
    assert(addrs.subrange(0, 0).to_set() =~= Set::<Seq<u64>>::empty());
    assert forall|k: int| 0 <= k < 9 implies (#[trigger] sigs@[k]).1@ == addrs[k] by {}
    while j < 9
        invariant
            0 <= j <= 9,
            sigs.len() == 9,
            addrs == goddess_addresses(),
            forall|k: int| 0 <= k < 9 ==> (#[trigger] sigs@[k]).1@ == addrs[k],
            distinct == addrs.subrange(0, j as int).to_set().len(),
            max_ham == max_consecutive_hamming_spec(addrs, j as nat),
            max_ham <= 6,
            distinct <= j,
        decreases 9 - j,
    {
        let mut seen = false;
        let mut m: usize = 0;
        while m < j
            invariant
                0 <= m <= j < 9,
                sigs.len() == 9,
                forall|k: int| 0 <= k < 9 ==> (#[trigger] sigs@[k]).1@ == addrs[k],
                seen == exists|q: int| 0 <= q < m && addrs[q] == addrs[j as int],
            decreases j - m,
        {
            if same_address(&sigs[m].1, &sigs[j].1) {
                seen = true;
            }
            m = m + 1;
        }
        proof {
            let pre = addrs.subrange(0, j as int);
            assert(addrs.subrange(0, j as int + 1) =~= pre.push(addrs[j as int]));
            pre.lemma_push_to_set_commute(addrs[j as int]);
            vstd::seq_lib::seq_to_set_is_finite(pre);
            if seen {
                let q = choose|q: int| 0 <= q < j && addrs[q] == addrs[j as int];
                assert(pre[q] == addrs[j as int]);
                assert(pre.to_set().insert(addrs[j as int]) =~= pre.to_set());
            } else {
                assert(!pre.to_set().contains(addrs[j as int]));
            }
        }
        if !seen {
            distinct = distinct + 1;
        }
        if j >= 1 {
            let h = hamming6(&sigs[j - 1].1, &sigs[j].1);
            if h > max_ham {
                max_ham = h;
            }
        }
        j = j + 1;
    }
    assert(addrs.subrange(0, 9) =~= addrs);
    let structured = distinct <= 3 && max_ham <= 2;
    ResiduePatternSignature {
        page_signatures: sigs,
        distinct_addresses: distinct,
        max_consecutive_hamming: max_ham,
        structured,
    }
}

/// Alignment of the page totals with head cycles.
#[derive(Clone, Debug)]
pub struct CycleAlignmentReport {
    /// Per head: its name and, per page, whether the total is a multiple
    /// of its cycle.
    pub alignments: Vec<(String, Vec<bool>)>,
    /// Number of aligned (page, head) pairs.
    pub total_alignments: usize,
    /// At least one alignment.
    pub any_alignment: bool,
    /// Alignments per (page × head), in basis points.
    pub alignment_density_bp: u64,
}

/// Page `k` is aligned with cycle `c`.
pub open spec fn page_aligned(k: int, c: u64) -> bool {
    goddess_totals()[k] % c == 0
}

/// Number of pages among the first `n` aligned with cycle `c`.
pub open spec fn aligned_pages(c: u64, n: nat) -> nat
    decreases n,
{
    if n == 0 {
        0
    } else {
        aligned_pages(c, (n - 1) as nat) + if page_aligned(n - 1, c) {
            1nat
        } else {
            0nat
        }
    }
}

/// Number of aligned (page, head) pairs over the first `h` heads.
pub open spec fn aligned_pairs(heads: Seq<(&'static str, u64)>, h: nat) -> nat
    decreases h,
{
    if h == 0 {
        0
    } else {
        aligned_pairs(heads, (h - 1) as nat) + aligned_pages(heads[h - 1].1, 9)
    }
}

proof fn lemma_aligned_bounds(heads: Seq<(&'static str, u64)>, h: nat)
    ensures
        aligned_pairs(heads, h) <= 9 * h,
    decreases h,
{
    if h > 0 {
        lemma_aligned_bounds(heads, (h - 1) as nat);
        lemma_aligned_pages_bound(heads[h - 1].1, 9);
    }
}

proof fn lemma_aligned_pages_bound(c: u64, n: nat)
    ensures
        aligned_pages(c, n) <= n,
    decreases n,
{
    if n > 0 {
        lemma_aligned_pages_bound(c, (n - 1) as nat);
    }
}

/// The cycle-alignment report owed for the heads (name, cycle): per head
/// and page whether the page total is a multiple of the cycle, the count
/// of such pairs, whether there is any, and their density.
pub open spec fn alignment_report(r: CycleAlignmentReport, heads: Seq<(&'static str, u64)>) -> bool {
    &&& r.alignments@.len() == heads.len()
    &&& forall|h: int|
        0 <= h < heads.len() ==> {
            &&& (#[trigger] r.alignments@[h]).0@ == heads[h].0@
            &&& r.alignments@[h].1@.len() == 9
            &&& forall|k: int| 0 <= k < 9 ==> r.alignments@[h].1@[k] == page_aligned(k, heads[h].1)
        }
    &&& r.total_alignments == aligned_pairs(heads, heads.len() as nat)
    &&& r.any_alignment == (r.total_alignments > 0)
    &&& r.alignment_density_bp == (r.total_alignments * 10000) / (9 * heads.len() as int)
}

/// Instrument 3: which page totals are whole multiples of each head's
/// cycle, for heads given as `(name, cycle)`.
pub fn instrument_3_cycle_alignment(heads: &[(&'static str, u64)]) -> (r: CycleAlignmentReport)
    requires
        1 <= heads@.len() <= 1_000_000,
        forall|h: int| 0 <= h < heads@.len() ==> (#[trigger] heads@[h]).1 > 0,
    ensures
        alignment_report(r, heads@),
{
    let mut page_totals: Vec<u64> = Vec::new();
    let mut cumulative: u64 = 0;
    let intervals = GODDESS_SECTION_INTERVALS;
    let mut i: usize = 0;
    proof {
        lemma_goddess_totals();
    }
    while i < 9
        invariant
            0 <= i <= 9,
            intervals@ == goddess_intervals(),
            page_totals.len() == i,
            i == 0 ==> cumulative == 0,
            i > 0 ==> cumulative == goddess_totals()[i - 1],
            forall|k: int| 0 <= k < i ==> #[trigger] page_totals@[k] == goddess_totals()[k],
        decreases 9 - i,
    {
        proof {
            lemma_goddess_totals();
        }
        cumulative = cumulative + intervals[i];
        page_totals.push(cumulative);
        i = i + 1;
    }
    let mut alignments: Vec<(String, Vec<bool>)> = Vec::new();
    let mut total: usize = 0;
    let mut h: usize = 0;
    while h < heads.len()
        invariant
            1 <= heads@.len() <= 1_000_000,
            forall|g: int| 0 <= g < heads@.len() ==> (#[trigger] heads@[g]).1 > 0,
            page_totals.len() == 9,
            forall|k: int| 0 <= k < 9 ==> #[trigger] page_totals@[k] == goddess_totals()[k],
            0 <= h <= heads.len(),
            alignments.len() == h,
            forall|g: int|
                0 <= g < h ==> {
                    &&& (#[trigger] alignments@[g]).0@ == heads@[g].0@
                    &&& alignments@[g].1@.len() == 9
                    &&& forall|k: int|
                        0 <= k < 9 ==> alignments@[g].1@[k] == page_aligned(k, heads@[g].1)
                },
            total == aligned_pairs(heads@, h as nat),
            total <= 9 * h,
        decreases heads.len() - h,
    {
        let (name, cycle) = heads[h];
        let mut aligns: Vec<bool> = Vec::new();
        let mut n: usize = 0;
        let mut k: usize = 0;
        while k < 9
            invariant
                cycle > 0,
                page_totals.len() == 9,
                forall|q: int| 0 <= q < 9 ==> #[trigger] page_totals@[q] == goddess_totals()[q],
                0 <= k <= 9,
                aligns.len() == k,
                forall|q: int| 0 <= q < k ==> aligns@[q] == page_aligned(q, cycle),
                n == aligned_pages(cycle, k as nat),
                n <= k,
            decreases 9 - k,
        {
            let a = page_totals[k] % cycle == 0;
            aligns.push(a);
            if a {
                n = n + 1;
            }
            k = k + 1;
        }
        alignments.push((crate::text::owned(name), aligns));
        total = total + n;
        h = h + 1;
    }
    let any = total > 0;
    assert(total * 10000 <= 9 * 1_000_000 * 10000) by (nonlinear_arith)
        requires
            total <= 9 * h,
            h <= 1_000_000,
    ;
    let density_bp = ((total as u64) * 10_000) / (9 * heads.len() as u64);
    CycleAlignmentReport {
        alignments,
        total_alignments: total,
        any_alignment: any,
        alignment_density_bp: density_bp,
    }
}

/// Residues of the page totals modulo `p`.
pub open spec fn page_residues(p: u64) -> Seq<u64> {
    Seq::new(9, |k: int| goddess_totals()[k] % p)
}

/// `r` is an arithmetic progression of at least two terms.
pub open spec fn is_ap(r: Seq<u64>) -> bool {
    r.len() >= 2 && forall|k: int| 1 <= k < r.len() ==> (#[trigger] r[k]) - r[k - 1] == r[1] - r[0]
}

/// Per-prime residue progressions of the page totals.
#[derive(Clone, Debug)]
pub struct CarryFluxReport {
    /// For each prime, the residues across pages.
    pub residue_sequences: Vec<(u64, Vec<u64>)>,
    /// For each prime, the common difference when the residues form an
    /// arithmetic progression.
    pub common_differences: Vec<(u64, Option<i64>)>,
    /// Number of primes with an arithmetic progression.
    pub ap_prime_count: usize,
    /// At least four such primes.
    pub structured: bool,
}

/// Number of Safe Basis primes among the first `n` whose residues form
/// an arithmetic progression.
pub open spec fn ap_primes(n: nat) -> nat
    decreases n,
{
    if n == 0 {
        0
    } else {
        ap_primes((n - 1) as nat) + if is_ap(page_residues(safe_basis()[n - 1])) {
            1nat
        } else {
            0nat
        }
    }
}

/// The carry-flux report owed: each Safe Basis prime with its page
/// residues and their common difference when they form an arithmetic
/// progression, the number of such primes, structured from 4 on.
pub open spec fn carry_flux_report(r: CarryFluxReport) -> bool {
    &&& r.residue_sequences@.len() == 6
    &&& r.common_differences@.len() == 6
    &&& forall|i: int|
        0 <= i < 6 ==> {
            &&& (#[trigger] r.residue_sequences@[i]).0 == safe_basis()[i]
            &&& r.residue_sequences@[i].1@ == page_residues(safe_basis()[i])
            &&& r.common_differences@[i].0 == safe_basis()[i]
            &&& r.common_differences@[i].1 == if is_ap(page_residues(safe_basis()[i])) {
                Some((page_residues(safe_basis()[i])[1] - page_residues(safe_basis()[i])[0]) as i64)
            } else {
                None::<i64>
            }
        }
    &&& r.ap_prime_count == ap_primes(6)
    &&& r.structured == (r.ap_prime_count >= 4)
}

/// Instrument 4: the residues of the page totals modulo each Safe Basis
/// prime, and which of them form arithmetic progressions.
pub fn instrument_4_carry_flux() -> (r: CarryFluxReport)
    ensures
        carry_flux_report(r),
{
    let intervals = GODDESS_SECTION_INTERVALS;
    let mut page_totals: Vec<u64> = Vec::new();
    let mut cumulative: u64 = 0;
    let mut i: usize = 0;
    proof {
        lemma_goddess_totals();
    }
    while i < 9
        invariant
            0 <= i <= 9,
            intervals@ == goddess_intervals(),
            page_totals.len() == i,
            i == 0 ==> cumulative == 0,
            i > 0 ==> cumulative == goddess_totals()[i - 1],
            forall|k: int| 0 <= k < i ==> #[trigger] page_totals@[k] == goddess_totals()[k],
        decreases 9 - i,
    {
        proof {
            lemma_goddess_totals();
        }
        cumulative = cumulative + intervals[i];
        page_totals.push(cumulative);
        i = i + 1;
    }
    let mut residue_seqs: Vec<(u64, Vec<u64>)> = Vec::new();
    let mut common_diffs: Vec<(u64, Option<i64>)> = Vec::new();
    let mut ap_count: usize = 0;
    let mut pi: usize = 0;
    while pi < 6
        invariant
            0 <= pi <= 6,
            page_totals.len() == 9,
            forall|k: int| 0 <= k < 9 ==> #[trigger] page_totals@[k] == goddess_totals()[k],
            residue_seqs.len() == pi,
            common_diffs.len() == pi,
            forall|q: int|
                0 <= q < pi ==> {
                    &&& (#[trigger] residue_seqs@[q]).0 == safe_basis()[q]
                    &&& residue_seqs@[q].1@ == page_residues(safe_basis()[q])
                    &&& common_diffs@[q].0 == safe_basis()[q]
                    &&& common_diffs@[q].1 == if is_ap(page_residues(safe_basis()[q])) {
                        Some(
                            (page_residues(safe_basis()[q])[1] - page_residues(
                                safe_basis()[q],
                            )[0]) as i64,
                        )
                    } else {
                        None::<i64>
                    }
                },
            ap_count == ap_primes(pi as nat),
            ap_count <= pi,
        decreases 6 - pi,
    {
        let p = SAFE_BASIS[pi];
        assert(p == safe_basis()[pi as int]);
        let mut residues: Vec<u64> = Vec::new();
        let mut k: usize = 0;
        while k < 9
            invariant
                p > 0,
                page_totals.len() == 9,
                forall|q: int| 0 <= q < 9 ==> #[trigger] page_totals@[q] == goddess_totals()[q],
                0 <= k <= 9,
                residues@ == page_residues(p).subrange(0, k as int),
            decreases 9 - k,
        {
            residues.push(page_totals[k] % p);
            k = k + 1;
            assert(residues@ =~= page_residues(p).subrange(0, k as int));
        }
        assert(residues@ =~= page_residues(p));
        assert(p <= 13);
        assert(forall|q: int| 0 <= q < 9 ==> #[trigger] residues@[q] < 13);
        let d: i64 = residues[1] as i64 - residues[0] as i64;
        let mut is_ap_run = true;
        let mut w: usize = 1;
        while w < 9
            invariant
                residues@ == page_residues(p),
                residues@.len() == 9,
                forall|q: int| 0 <= q < 9 ==> #[trigger] residues@[q] < 13,
                1 <= w <= 9,
                d == residues@[1] - residues@[0],
                is_ap_run == forall|q: int| 1 <= q < w ==> (#[trigger] residues@[q]) - residues@[q - 1] == d,
            decreases 9 - w,
        {
            if residues[w] as i64 - residues[w - 1] as i64 != d {
                is_ap_run = false;
            }
            w = w + 1;
        }
        let diff = if is_ap_run {
            Some(d)
        } else {
            None
        };
        if is_ap_run {
            ap_count = ap_count + 1;
        }
        residue_seqs.push((p, residues));
        common_diffs.push((p, diff));
        pi = pi + 1;
    }
    CarryFluxReport {
        residue_sequences: residue_seqs,
        common_differences: common_diffs,
        ap_prime_count: ap_count,
        structured: ap_count >= 4,
    }
}

/// The H4 numerical verdict.
#[derive(Clone, Copy, Debug, PartialEq, Eq, Structural)]
pub enum H4NonVisualVerdict {
    /// Three or four instruments pass.
    Supported,
    /// One or two instruments pass.
    Partial,
    /// No instrument passes.
    NotSupported,
}

impl H4NonVisualVerdict {
    /// Printable label of the verdict.
    pub fn label(&self) -> (s: &'static str)
        ensures
            s == (match self {
                H4NonVisualVerdict::Supported => "SUPPORTED (non-visual)",
                H4NonVisualVerdict::Partial => "PARTIAL (non-visual)",
                H4NonVisualVerdict::NotSupported => "NOT SUPPORTED (non-visual)",
            }),
    {
        match self {
            H4NonVisualVerdict::Supported => "SUPPORTED (non-visual)",
            H4NonVisualVerdict::Partial => "PARTIAL (non-visual)",
            H4NonVisualVerdict::NotSupported => "NOT SUPPORTED (non-visual)",
        }
    }
}

/// The verdict of `n` passing instruments.
pub open spec fn verdict_of(n: int) -> H4NonVisualVerdict {
    if 3 <= n <= 4 {
        H4NonVisualVerdict::Supported
    } else if 1 <= n <= 2 {
        H4NonVisualVerdict::Partial
    } else {
        H4NonVisualVerdict::NotSupported
    }
}

/// The four numerical instruments together.
#[derive(Clone, Debug)]
pub struct H4NonVisualReport {
    pub entropy: PeriodSequenceEntropy,
    pub residue: ResiduePatternSignature,
    pub alignment: CycleAlignmentReport,
    pub carry_flux: CarryFluxReport,
    /// Number of instruments over their threshold.
    pub instruments_passing: usize,
    /// The verdict.
    pub verdict: H4NonVisualVerdict,
}

/// Runs the four instruments over heads given as `(name, cycle)` and
/// grades the number that pass.
pub fn compute_h4_non_visual(heads: &[(&'static str, u64)]) -> (r: H4NonVisualReport)
    requires
        1 <= heads@.len() <= 1_000_000,
        forall|h: int| 0 <= h < heads@.len() ==> (#[trigger] heads@[h]).1 > 0,
    ensures
        r.instruments_passing == (if r.entropy.structured { 1int } else { 0 }) + (
        if r.residue.structured { 1int } else { 0 }) + (if r.alignment.any_alignment {
            1int
        } else {
            0
        }) + (if r.carry_flux.structured { 1int } else { 0 }),
        r.verdict == verdict_of(r.instruments_passing as int),
        entropy_report(r.entropy),
        residue_report(r.residue),
        alignment_report(r.alignment, heads@),
        carry_flux_report(r.carry_flux),
{
    let entropy = instrument_1_period_entropy();
    let residue = instrument_2_residue_pattern();
    let alignment = instrument_3_cycle_alignment(heads);
    let carry_flux = instrument_4_carry_flux();
    let passing: usize = (if entropy.structured { 1usize } else { 0 }) + (if residue.structured {
        1usize
    } else {
        0
    }) + (if alignment.any_alignment { 1usize } else { 0 }) + (if carry_flux.structured {
        1usize
    } else {
        0
    });
    let verdict = if passing >= 3 && passing <= 4 {
        H4NonVisualVerdict::Supported
    } else if passing >= 1 && passing <= 2 {
        H4NonVisualVerdict::Partial
    } else {
        H4NonVisualVerdict::NotSupported
    };
    H4NonVisualReport {
        entropy,
        residue,
        alignment,
        carry_flux,
        instruments_passing: passing,
        verdict,
    }
}

} // verus!
