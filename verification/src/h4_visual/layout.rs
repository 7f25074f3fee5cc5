//! Page layouts of the Goddess section: each codex page with its figure
//! and the day-count interval it records, and the running totals and
//! residue addresses along a page sequence.

use vstd::prelude::*;
use crate::h4_visual::iconographic::{IconographicFigure, ALL_FIGURES, figure_of_page};
use crate::h4_non_visual::{goddess_intervals, goddess_totals, lemma_goddess_totals};
use crate::substrate::{cram_address, cram_spec};

verus! {

/// One codex page of the Goddess section.
#[derive(Clone, Copy, Debug, PartialEq, Eq, Hash, Structural)]
pub struct PageLayout {
    /// Codex page number (16 to 24 in the Goddess section).
    pub page_index: u8,
    /// Figure painted on the page.
    pub figure: IconographicFigure,
    /// Day-count interval the page records (148 or 177).
    pub interval: u64,
}

impl PageLayout {
    /// A page whose interval is its figure's eclipse half-year.
    pub fn from_figure(page_index: u8, figure: IconographicFigure) -> (p: Self)
        ensures
            p.page_index == page_index,
            p.figure == figure,
            p.interval == figure.interval_value(),
    {
        PageLayout { page_index, figure, interval: figure.associated_interval() }
    }

    /// Residue address of the page's interval on the Safe Basis.
    pub fn cram_address(&self) -> (a: [u64; 6])
        ensures
            a@ == cram_spec(self.interval),
    {
        cram_address(self.interval)
    }
}

/// The canonical layout: pages 16 to 24 with their figures.
pub open spec fn goddess_layout_spec() -> Seq<PageLayout> {
    Seq::new(
        9,
        |i: int|
            PageLayout {
                page_index: (16 + i) as u8,
                figure: figure_of_page((16 + i) as u8)->0,
                interval: (figure_of_page((16 + i) as u8)->0).interval_value(),
            },
    )
}

/// The canonical Goddess-section layout, pages 16 to 24.
pub fn goddess_section_layout() -> (v: Vec<PageLayout>)
    ensures
        v@ == goddess_layout_spec(),
{
    let figures = ALL_FIGURES;
    let mut v: Vec<PageLayout> = Vec::new();
    let mut i: usize = 0;
    while i < 9
        invariant
            0 <= i <= 9,
            figures@ == seq![
                IconographicFigure::MoonSign,
                IconographicFigure::WaterPot,
                IconographicFigure::WeavingShuttle,
                IconographicFigure::SnakeHeaddress,
                IconographicFigure::EclipseGlyph,
                IconographicFigure::BirthGlyph,
                IconographicFigure::HealingGlyph,
                IconographicFigure::FloodGlyph,
                IconographicFigure::BlankBridge,
            ],
            v@.len() == i,
            forall|k: int| 0 <= k < i ==> #[trigger] v@[k] == goddess_layout_spec()[k],
        decreases 9 - i,
    {
        let page = 16 + i as u8;
        v.push(PageLayout::from_figure(page, figures[i]));
        i = i + 1;
    }
    assert(v@ =~= goddess_layout_spec());
    v
}

/// Sum of the intervals of the first `n` pages.
pub open spec fn interval_sum(layout: Seq<PageLayout>, n: nat) -> nat
    decreases n,
{
    if n == 0 || n > layout.len() {
        0
    } else {
        interval_sum(layout, (n - 1) as nat) + layout[n - 1].interval as nat
    }
}

/// The running sums of a layout fit in `u64`.
pub open spec fn totals_fit(layout: Seq<PageLayout>) -> bool {
    interval_sum(layout, layout.len()) <= u64::MAX
}

proof fn lemma_interval_sum_monotone(layout: Seq<PageLayout>, m: nat, n: nat)
    requires
        m <= n <= layout.len(),
    ensures
        interval_sum(layout, m) <= interval_sum(layout, n),
    decreases n - m,
{
    if m < n {
        lemma_interval_sum_monotone(layout, m, (n - 1) as nat);
    }
}

/// The running total at each page boundary.
pub fn cumulative_totals(layout: &[PageLayout]) -> (t: Vec<u64>)
    requires
        totals_fit(layout@),
    ensures
        t@.len() == layout@.len(),
        forall|k: int| 0 <= k < layout@.len() ==> #[trigger] t@[k] == interval_sum(layout@, (k + 1) as nat),
{
    let mut t: Vec<u64> = Vec::new();
    let mut running: u64 = 0;
    let mut i: usize = 0;
    while i < layout.len()
        invariant
            0 <= i <= layout.len(),
            totals_fit(layout@),
            running == interval_sum(layout@, i as nat),
            t@.len() == i,
            forall|k: int| 0 <= k < i ==> #[trigger] t@[k] == interval_sum(layout@, (k + 1) as nat),
        decreases layout.len() - i,
    {
        proof {
            lemma_interval_sum_monotone(layout@, (i + 1) as nat, layout@.len());
        }
        running = running + layout[i].interval;
        t.push(running);
        i = i + 1;
    }
    t
}

/// The residue address of the running total at each page boundary.
pub fn cumulative_addresses(layout: &[PageLayout]) -> (a: Vec<[u64; 6]>)
    requires
        totals_fit(layout@),
    ensures
        a@.len() == layout@.len(),
        forall|k: int|
            0 <= k < layout@.len() ==> (#[trigger] a@[k])@ == cram_spec(
                interval_sum(layout@, (k + 1) as nat) as u64,
            ),
{
    let totals = cumulative_totals(layout);
    let mut a: Vec<[u64; 6]> = Vec::new();
    let mut i: usize = 0;
    while i < totals.len()
        invariant
            0 <= i <= totals.len(),
            totals@.len() == layout@.len(),
            forall|k: int| 0 <= k < layout@.len() ==> #[trigger] totals@[k] == interval_sum(layout@, (k + 1) as nat),
            a@.len() == i,
            forall|k: int| 0 <= k < i ==> (#[trigger] a@[k])@ == cram_spec(totals@[k]),
        decreases totals.len() - i,
    {
        a.push(cram_address(totals[i]));
        i = i + 1;
    }
    a
}

/// The canonical layout records the Goddess-section intervals, and its
/// running totals are the Goddess-section page totals.
pub proof fn lemma_canonical_layout()
    ensures
        goddess_layout_spec().len() == 9,
        goddess_layout_spec().map_values(|p: PageLayout| p.interval) == goddess_intervals(),
        totals_fit(goddess_layout_spec()),
        forall|k: int|
            0 <= k < 9 ==> #[trigger] interval_sum(goddess_layout_spec(), (k + 1) as nat)
                == goddess_totals()[k],
{
    let l = goddess_layout_spec();
    lemma_goddess_totals();
    assert(l.map_values(|p: PageLayout| p.interval) =~= goddess_intervals());
    assert forall|k: int| 0 <= k < 9 implies #[trigger] l[k].interval == goddess_intervals()[k] by {
        assert(l.map_values(|p: PageLayout| p.interval)[k] == l[k].interval);
    }
    assert(interval_sum(l, 0) == 0);
    assert(interval_sum(l, 1) == 148);
    assert(interval_sum(l, 2) == 325);
    assert(interval_sum(l, 3) == 473);
    assert(interval_sum(l, 4) == 650);
    assert(interval_sum(l, 5) == 798);
    assert(interval_sum(l, 6) == 975);
    assert(interval_sum(l, 7) == 1123);
    assert(interval_sum(l, 8) == 1300);
    assert(interval_sum(l, 9) == 1448);
}

} // verus!
