//! Decoding of glyph specifications for the extended Goddess section
//! (pages 13c–15): the specs are ordered by page, register and position,
//! their numerals are summed and addressed over the Safe Basis, and the
//! pages they touch are listed.

use vstd::prelude::*;
use crate::h4_visual::dayname::DayNameGlyph;
use crate::substrate::{cram_address, cram_spec};

verus! {

/// The four registers of a codex page, top to bottom ("13c" is the
/// c-register of page 13).
#[derive(Clone, Copy, Debug, PartialEq, Eq, Hash, Structural)]
pub enum PageRegister {
    A,
    B,
    C,
    D,
}

/// Kinds of glyphs in a page specification.
#[derive(Clone, Copy, Debug, PartialEq, Eq)]
pub enum GlyphKind {
    /// A day name of the 260-day count.
    DayName(DayNameGlyph),
    /// A bar-and-dot numeral.
    Numeral(u8),
    /// An iconographic figure by its identifier.
    NamedFigure(&'static str),
    /// A blank or eroded position.
    Blank,
}

/// One glyph at a page, register and position.
#[derive(Clone, Copy, Debug, PartialEq, Eq)]
pub struct GlyphSpec {
    pub page: u8,
    pub register: PageRegister,
    pub position: u8,
    pub kind: GlyphKind,
}

/// The analysis of a glyph-spec sequence.
#[derive(Clone, Debug)]
pub struct ExtendedSectionAnalysis {
    /// The specs ordered by page, register and position.
    pub specs_sorted: Vec<GlyphSpec>,
    /// The numerals, in that order.
    pub numerals: Vec<u8>,
    /// Sum of the numerals.
    pub numeral_sum: u64,
    /// Safe Basis address of the sum.
    pub cumulative_cram: [u64; 6],
    /// Pages touched, increasing and without repeats.
    pub pages_covered: Vec<u8>,
    /// No specs were given.
    pub empty: bool,
}

/// Ordinal of a register.
pub open spec fn register_ord(r: PageRegister) -> int {
    match r {
        PageRegister::A => 0,
        PageRegister::B => 1,
        PageRegister::C => 2,
        PageRegister::D => 3,
    }
}

/// The sort key (page, register, position) as one integer.
pub open spec fn spec_key(g: GlyphSpec) -> int {
    (g.page as int) * 65536 + register_ord(g.register) * 256 + g.position as int
}

/// Inserts `x` into `s` after every element whose key is at most its key,
/// scanning from the end.
pub open spec fn insert_sorted(s: Seq<GlyphSpec>, x: GlyphSpec) -> Seq<GlyphSpec>
    decreases s.len(),
{
    if s.len() == 0 {
        seq![x]
    } else if spec_key(s.last()) <= spec_key(x) {
        s.push(x)
    } else {
        insert_sorted(s.drop_last(), x).push(s.last())
    }
}

/// The stable ordering of `s` by key (insertion order on ties).
pub open spec fn stable_sorted(s: Seq<GlyphSpec>) -> Seq<GlyphSpec>
    decreases s.len(),
{
    if s.len() == 0 {
        seq![]
    } else {
        insert_sorted(stable_sorted(s.drop_last()), s.last())
    }
}

/// The numerals of a spec sequence, in order.
pub open spec fn numerals_of(s: Seq<GlyphSpec>) -> Seq<u8>
    decreases s.len(),
{
    if s.len() == 0 {
        seq![]
    } else {
        let prev = numerals_of(s.drop_last());
        match s.last().kind {
            GlyphKind::Numeral(n) => prev.push(n),
            _ => prev,
        }
    }
}

/// Sum of a numeral sequence.
pub open spec fn numeral_total(s: Seq<u8>) -> nat
    decreases s.len(),
{
    if s.len() == 0 {
        0
    } else {
        numeral_total(s.drop_last()) + s.last() as nat
    }
}

/// Pages of a spec sequence with consecutive repeats dropped.
pub open spec fn pages_dedup(s: Seq<GlyphSpec>) -> Seq<u8>
    decreases s.len(),
{
    if s.len() == 0 {
        seq![]
    } else {
        let prev = pages_dedup(s.drop_last());
        if prev.len() > 0 && prev.last() == s.last().page {
            prev
        } else {
            prev.push(s.last().page)
        }
    }
}

/// The key of a spec.
fn key(g: &GlyphSpec) -> (k: u32)
    ensures
        k == spec_key(*g),
{
    let r: u32 = match g.register {
        PageRegister::A => 0,
        PageRegister::B => 1,
        PageRegister::C => 2,
        PageRegister::D => 3,
    };
    (g.page as u32) * 65536 + r * 256 + g.position as u32
}

/// Stable insertion sort by key.
fn sort_specs(specs: &[GlyphSpec]) -> (v: Vec<GlyphSpec>)
    ensures
        v@ == stable_sorted(specs@),
{
    let mut v: Vec<GlyphSpec> = Vec::new();
    let mut i: usize = 0;
    while i < specs.len()
        invariant
            0 <= i <= specs.len(),
            v@ == stable_sorted(specs@.subrange(0, i as int)),
        decreases specs.len() - i,
    {
        let x = specs[i];
        let ghost prev = v@;
        proof {
            assert(specs@.subrange(0, i as int + 1).drop_last() =~= specs@.subrange(0, i as int));
        }
        v.push(x);
        let mut j: usize = v.len() - 1;
        proof {
            assert(v@ =~= prev.take(j as int) + seq![x] + prev.skip(j as int));
            assert(prev.skip(j as int) =~= Seq::<GlyphSpec>::empty());
            assert(prev.take(j as int) =~= prev);
        }
        while j > 0 && key(&v[j - 1]) > key(&x)
            invariant
                0 <= j <= prev.len(),
                v@.len() == prev.len() + 1,
                v@ == prev.take(j as int) + seq![x] + prev.skip(j as int),
                insert_sorted(prev, x) == insert_sorted(prev.take(j as int), x) + prev.skip(j as int),
            decreases j,
        {
            let ghost t = prev.take(j as int);
            proof {
                assert(t.last() == prev[j - 1]);
                assert(t.drop_last() =~= prev.take(j - 1));
                assert(prev.skip(j - 1) =~= seq![prev[j - 1]] + prev.skip(j as int));
                assert(insert_sorted(t, x) == insert_sorted(prev.take(j - 1), x).push(prev[j - 1]));
                assert(insert_sorted(prev.take(j - 1), x).push(prev[j - 1]) + prev.skip(j as int)
                    =~= insert_sorted(prev.take(j - 1), x) + prev.skip(j - 1));
            }
            let a = v[j - 1];
            let b = v[j];
            v.set(j - 1, b);
            v.set(j, a);
            j = j - 1;
            proof {
                assert(v@ =~= prev.take(j as int) + seq![x] + prev.skip(j as int));
            }
        }
        proof {
            let t = prev.take(j as int);
            if j > 0 {
                assert(t.last() == prev[j - 1]);
                assert(v@[j - 1] == prev[j - 1]);
                assert(insert_sorted(t, x) == t.push(x));
            } else {
                assert(t =~= Seq::<GlyphSpec>::empty());
                assert(insert_sorted(t, x) == seq![x]);
            }
            assert(v@ =~= insert_sorted(t, x) + prev.skip(j as int));
        }
        i = i + 1;
    }
    assert(specs@.subrange(0, specs.len() as int) =~= specs@);
    v
}

/// Orders the specs by page, register and position, extracts and sums
/// the numerals, addresses the sum over the Safe Basis and lists the
/// pages touched; an empty input gives the empty analysis.
pub fn decode_extended_section(specs: &[GlyphSpec]) -> (r: ExtendedSectionAnalysis)
    requires
        specs@.len() * 255 <= u64::MAX,
    ensures
        r.empty == (specs@.len() == 0),
        r.specs_sorted@ == stable_sorted(specs@),
        r.numerals@ == numerals_of(stable_sorted(specs@)),
        r.numeral_sum == numeral_total(numerals_of(stable_sorted(specs@))),
        specs@.len() > 0 ==> r.cumulative_cram@ == cram_spec(r.numeral_sum),
        specs@.len() == 0 ==> r.cumulative_cram@ == seq![0u64, 0, 0, 0, 0, 0],
        r.pages_covered@ == pages_dedup(stable_sorted(specs@)),
{
    if specs.len() == 0 {
        let zero: [u64; 6] = [0u64; 6];
        assert(zero@ =~= seq![0u64, 0, 0, 0, 0, 0]);
        return ExtendedSectionAnalysis {
            specs_sorted: Vec::new(),
            numerals: Vec::new(),
            numeral_sum: 0,
            cumulative_cram: zero,
            pages_covered: Vec::new(),
            empty: true,
        };
    }
    let sorted = sort_specs(specs);
    proof {
        lemma_sorted_len(specs@);
    }
    let mut numerals: Vec<u8> = Vec::new();
    let mut sum: u64 = 0;
    let mut pages: Vec<u8> = Vec::new();
    let mut i: usize = 0;
    while i < sorted.len()
        invariant
            0 <= i <= sorted.len(),
            sorted@.len() == specs@.len(),
            specs@.len() * 255 <= u64::MAX,
            numerals@ == numerals_of(sorted@.subrange(0, i as int)),
            sum == numeral_total(numerals@),
            numerals@.len() <= i,
            sum <= 255 * i,
            pages@ == pages_dedup(sorted@.subrange(0, i as int)),
        decreases sorted.len() - i,
    {
        let g = sorted[i];
        proof {
            assert(sorted@.subrange(0, i as int + 1).drop_last() =~= sorted@.subrange(0, i as int));
        }
        match g.kind {
            GlyphKind::Numeral(n) => {
                let ghost before = numerals@;
                numerals.push(n);
                assert(numerals@.drop_last() =~= before);
                sum = sum + n as u64;
            },
            _ => {},
        }
        if pages.len() == 0 || pages[pages.len() - 1] != g.page {
            pages.push(g.page);
        }
        i = i + 1;
    }
    assert(sorted@.subrange(0, sorted.len() as int) =~= sorted@);
    ExtendedSectionAnalysis {
        specs_sorted: sorted,
        numerals,
        numeral_sum: sum,
        cumulative_cram: cram_address(sum),
        pages_covered: pages,
        empty: false,
    }
}

proof fn lemma_insert_len(s: Seq<GlyphSpec>, x: GlyphSpec)
    ensures
        insert_sorted(s, x).len() == s.len() + 1,
    decreases s.len(),
{
    if s.len() > 0 && spec_key(s.last()) > spec_key(x) {
        lemma_insert_len(s.drop_last(), x);
    }
}

proof fn lemma_sorted_len(s: Seq<GlyphSpec>)
    ensures
        stable_sorted(s).len() == s.len(),
    decreases s.len(),
{
    if s.len() > 0 {
        lemma_sorted_len(s.drop_last());
        lemma_insert_len(stable_sorted(s.drop_last()), s.last());
    }
}

/// Keys do not decrease along `s`.
pub open spec fn keys_sorted(s: Seq<GlyphSpec>) -> bool {
    forall|i: int, j: int| 0 <= i < j < s.len() ==> spec_key(s[i]) <= spec_key(s[j])
}

proof fn lemma_insert_sorted(s: Seq<GlyphSpec>, x: GlyphSpec)
    requires
        keys_sorted(s),
    ensures
        keys_sorted(insert_sorted(s, x)),
        insert_sorted(s, x).to_multiset() == s.to_multiset().insert(x),
        forall|i: int| 0 <= i < insert_sorted(s, x).len() ==> spec_key(#[trigger] insert_sorted(s, x)[i])
            <= spec_key(x) || (s.len() > 0 && spec_key(insert_sorted(s, x)[i]) <= spec_key(s.last())),
    decreases s.len(),
{
    broadcast use vstd::seq_lib::group_to_multiset_ensures;
    if s.len() == 0 {
        assert(seq![x] =~= Seq::<GlyphSpec>::empty().push(x));
    } else if spec_key(s.last()) <= spec_key(x) {
    } else {
        let d = s.drop_last();
        lemma_insert_sorted(d, x);
        assert(s =~= d.push(s.last()));
        let r = insert_sorted(d, x);
        assert forall|i: int| 0 <= i < r.len() implies spec_key(#[trigger] r[i]) <= spec_key(s.last()) by {
            if d.len() > 0 {
                assert(spec_key(d.last()) <= spec_key(s.last()));
            }
        }
    }
}

/// The ordering is sorted by (page, register, position) and keeps every
/// spec: it is a permutation of the input.
pub proof fn lemma_stable_sorted(s: Seq<GlyphSpec>)
    ensures
        keys_sorted(stable_sorted(s)),
        stable_sorted(s).to_multiset() == s.to_multiset(),
    decreases s.len(),
{
    broadcast use vstd::seq_lib::group_to_multiset_ensures;
    if s.len() > 0 {
        lemma_stable_sorted(s.drop_last());
        lemma_insert_sorted(stable_sorted(s.drop_last()), s.last());
        assert(s =~= s.drop_last().push(s.last()));
    }
}

/// Placeholder specs for the undecoded pages 13, 14 and 15: a blank at
/// position 0 of registers A, B and C of each page.
pub fn placeholder_extended_specs() -> (v: Vec<GlyphSpec>)
    ensures
        v@.len() == 9,
        forall|k: int|
            0 <= k < 9 ==> (#[trigger] v@[k]) == (GlyphSpec {
                page: (13 + k / 3) as u8,
                register: if k % 3 == 0 {
                    PageRegister::A
                } else if k % 3 == 1 {
                    PageRegister::B
                } else {
                    PageRegister::C
                },
                position: 0,
                kind: GlyphKind::Blank,
            }),
{
    let mut out: Vec<GlyphSpec> = Vec::new();
    let mut page: u8 = 13;
    while page <= 15
        invariant
            13 <= page <= 16,
            out@.len() == 3 * (page - 13),
            forall|k: int|
                0 <= k < out@.len() ==> (#[trigger] out@[k]) == (GlyphSpec {
                    page: (13 + k / 3) as u8,
                    register: if k % 3 == 0 {
                        PageRegister::A
                    } else if k % 3 == 1 {
                        PageRegister::B
                    } else {
                        PageRegister::C
                    },
                    position: 0,
                    kind: GlyphKind::Blank,
                }),
        decreases 16 - page,
    {
        out.push(GlyphSpec { page, register: PageRegister::A, position: 0, kind: GlyphKind::Blank });
        out.push(GlyphSpec { page, register: PageRegister::B, position: 0, kind: GlyphKind::Blank });
        out.push(GlyphSpec { page, register: PageRegister::C, position: 0, kind: GlyphKind::Blank });
        page = page + 1;
    }
    out
}

} // verus!
