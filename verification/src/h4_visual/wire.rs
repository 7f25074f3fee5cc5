//! Adapters from a page layout (the visual side) to the inputs and results
//! of the numerical Goddess-section instruments.

use vstd::prelude::*;
use crate::h4_visual::layout::{
    PageLayout, cumulative_addresses, cumulative_totals, interval_sum, totals_fit,
    goddess_layout_spec, lemma_canonical_layout,
};
use crate::h4_non_visual::{
    GODDESS_SECTION_INTERVALS, GODDESS_SECTION_TOTAL, ResiduePatternSignature,
    instrument_2_residue_pattern, goddess_intervals, goddess_totals, goddess_addresses,
    max_consecutive_hamming_spec, lemma_goddess_totals, same_address,
};
use crate::substrate::cram_spec;
use crate::text::{decimal_string, decimal_text, concat, owned};

verus! {

/// The intervals of a layout, in page order.
pub open spec fn intervals_of(layout: Seq<PageLayout>) -> Seq<u64> {
    layout.map_values(|p: PageLayout| p.interval)
}

/// The interval of each page, in order.
pub fn page_intervals(layout: &[PageLayout]) -> (v: Vec<u64>)
    ensures
        v@ == intervals_of(layout@),
{
    let mut v: Vec<u64> = Vec::new();
    let mut i: usize = 0;
    while i < layout.len()
        invariant
            0 <= i <= layout.len(),
            v@ == intervals_of(layout@.subrange(0, i as int)),
        decreases layout.len() - i,
    {
        v.push(layout[i].interval);
        i = i + 1;
        assert(v@ =~= intervals_of(layout@.subrange(0, i as int)));
    }
    assert(layout@.subrange(0, layout.len() as int) =~= layout@);
    v
}

/// The comma-separated decimal texts of a sequence of integers.
pub open spec fn list_body(s: Seq<u64>) -> Seq<char>
    decreases s.len(),
{
    if s.len() == 0 {
        seq![]
    } else if s.len() == 1 {
        decimal_text(s[0] as nat)
    } else {
        list_body(s.drop_last()) + seq![',', ' '] + decimal_text(s.last() as nat)
    }
}

/// A bracketed list `[a, b, c]` of decimal texts.
pub open spec fn list_text(s: Seq<u64>) -> Seq<char> {
    seq!['['] + list_body(s) + seq![']']
}

/// Renders a list of integers as `[a, b, c]`.
pub(crate) fn debug_list(v: &[u64]) -> (s: String)
    ensures
        s@ == list_text(v@),
{
    let mut body = String::new();
    let mut i: usize = 0;
    while i < v.len()
        invariant
            0 <= i <= v.len(),
            body@ == list_body(v@.subrange(0, i as int)),
        decreases v.len() - i,
    {
        let d = decimal_string(v[i]);
        proof {
            reveal_strlit(", ");
            assert(v@.subrange(0, i as int + 1).drop_last() =~= v@.subrange(0, i as int));
        }
        if i == 0 {
            body = d;
        } else {
            let sep = concat(body.as_str(), ", ");
            body = concat(sep.as_str(), d.as_str());
        }
        i = i + 1;
    }
    assert(v@.subrange(0, v.len() as int) =~= v@);
    let open = concat("[", body.as_str());
    let s = concat(open.as_str(), "]");
    proof {
        reveal_strlit("[");
        reveal_strlit("]");
    }
    s
}

/// Running sums depend only on the intervals.
proof fn lemma_interval_sum_by_intervals(a: Seq<PageLayout>, b: Seq<PageLayout>, n: nat)
    requires
        intervals_of(a) == intervals_of(b),
    ensures
        interval_sum(a, n) == interval_sum(b, n),
    decreases n,
{
    assert(a.len() == intervals_of(a).len());
    assert(b.len() == intervals_of(b).len());
    if n > 0 && n <= a.len() {
        lemma_interval_sum_by_intervals(a, b, (n - 1) as nat);
        assert(intervals_of(a)[n - 1] == a[n - 1].interval);
        assert(intervals_of(b)[n - 1] == b[n - 1].interval);
    }
}

/// The message for a layout whose intervals differ from the canonical ones.
pub open spec fn interval_mismatch_text(intervals: Seq<u64>) -> Seq<char> {
    "visual intervals "@ + list_text(intervals) + " != canonical "@ + list_text(goddess_intervals())
}

/// Checks that a layout reproduces the numerical Goddess-section pipeline:
/// its intervals, their total, the residue addresses of its running
/// totals and its final total. Fails exactly when its intervals differ
/// from the canonical sequence, which every later check then follows.
pub fn verify_against_non_visual_pipeline(layout: &[PageLayout]) -> (r: Result<(), String>)
    ensures
        r is Ok <==> intervals_of(layout@) == goddess_intervals(),
        r matches Err(e) ==> e@ == interval_mismatch_text(intervals_of(layout@)),
{
    let visual_intervals = page_intervals(layout);
    let canonical = GODDESS_SECTION_INTERVALS;
    let mut same = visual_intervals.len() == 9;
    let mut i: usize = 0;
    if same {
        while i < 9
            invariant
                0 <= i <= 9,
                visual_intervals@.len() == 9,
                canonical@ == goddess_intervals(),
                same == forall|k: int| 0 <= k < i ==> visual_intervals@[k] == canonical@[k],
            decreases 9 - i,
        {
            if visual_intervals[i] != canonical[i] {
                same = false;
            }
            i = i + 1;
        }
    }
    if !same {
        proof {
            if visual_intervals@ == goddess_intervals() {
                assert(visual_intervals@.len() == 9);
                assert(forall|k: int| 0 <= k < 9 ==> visual_intervals@[k] == canonical@[k]);
            }
        }
        let a = concat("visual intervals ", debug_list(visual_intervals.as_slice()).as_str());
        let b = concat(a.as_str(), " != canonical ");
        let c = concat(b.as_str(), debug_list(&canonical).as_str());
        return Err(c);
    }
    assert(visual_intervals@ =~= goddess_intervals());
    proof {
        lemma_canonical_layout();
        lemma_goddess_totals();
        assert forall|n: nat| #[trigger] interval_sum(layout@, n) == interval_sum(goddess_layout_spec(), n) by {
            lemma_interval_sum_by_intervals(layout@, goddess_layout_spec(), n);
        }
        assert(layout@.len() == 9) by {
            assert(intervals_of(layout@).len() == layout@.len());
        }
    }
    let mut total: u64 = 0;
    let mut j: usize = 0;
    while j < visual_intervals.len()
        invariant
            0 <= j <= 9,
            visual_intervals@ == goddess_intervals(),
            j == 0 ==> total == 0,
            j > 0 ==> total == goddess_totals()[j - 1],
        decreases 9 - j,
    {
        proof {
            lemma_goddess_totals();
        }
        total = total + visual_intervals[j];
        j = j + 1;
    }
    if total != GODDESS_SECTION_TOTAL {
        let a = concat("visual cumulative total ", decimal_string(total).as_str());
        let b = concat(a.as_str(), " != GODDESS_SECTION_TOTAL ");
        let c = concat(b.as_str(), decimal_string(GODDESS_SECTION_TOTAL).as_str());
        return Err(c);
    }
    let visual_cum = cumulative_addresses(layout);
    let profile = instrument_2_residue_pattern();
    let mut k: usize = 0;
    let mut addresses_match = true;
    while k < 9
        invariant
            0 <= k <= 9,
            visual_cum@.len() == 9,
            profile.page_signatures@.len() == 9,
            forall|q: int| 0 <= q < 9 ==> (#[trigger] visual_cum@[q])@ == cram_spec(goddess_totals()[q]),
            forall|q: int| 0 <= q < 9 ==> (#[trigger] profile.page_signatures@[q]).1@ == cram_spec(goddess_totals()[q]),
            addresses_match,
        decreases 9 - k,
    {
        if !same_address(&visual_cum[k], &profile.page_signatures[k].1) {
            addresses_match = false;
        }
        k = k + 1;
    }
    if !addresses_match {
        return Err(owned("visual cumulative addresses diverge from the numerical page addresses"));
    }
    let totals = cumulative_totals(layout);
    let final_total = totals[totals.len() - 1];
    if final_total != GODDESS_SECTION_TOTAL {
        let a = concat("visual final total ", decimal_string(final_total).as_str());
        let b = concat(a.as_str(), " != profile.total_days ");
        let c = concat(b.as_str(), decimal_string(GODDESS_SECTION_TOTAL).as_str());
        return Err(c);
    }
    Ok(())
}

/// The residue pattern of a layout that records the canonical intervals:
/// the signature of the numerical instrument.
pub fn residue_pattern_from_layout(layout: &[PageLayout]) -> (r: ResiduePatternSignature)
    requires
        intervals_of(layout@) == goddess_intervals(),
    ensures
        r.page_signatures@.len() == 9,
        forall|k: int|
            0 <= k < 9 ==> (#[trigger] r.page_signatures@[k]).0 == goddess_totals()[k]
                && r.page_signatures@[k].1@ == cram_spec(goddess_totals()[k]),
        r.distinct_addresses == goddess_addresses().to_set().len(),
        r.max_consecutive_hamming == max_consecutive_hamming_spec(goddess_addresses(), 9),
        r.structured == (r.distinct_addresses <= 3 && r.max_consecutive_hamming <= 2),
{
    instrument_2_residue_pattern()
}

} // verus!
