//! The sectional structure of the Dresden Codex: eleven named sections
//! over its 74 pages, and the pages with documented water damage.

use vstd::prelude::*;

verus! {

/// The eleven structural sections of the Dresden Codex.
#[derive(Clone, Copy, Debug, PartialEq, Eq, Hash, Structural)]
pub enum CodexSection {
    /// Pages 1-14: introduction and invocation.
    Introduction,
    /// Pages 15-23: Moon Goddess divinatory almanacs.
    MoonGoddess,
    /// Page 24: the deliberate structural blank.
    BlankBridge,
    /// Pages 25-28: New Year ceremonies.
    NewYear,
    /// Pages 29-45: farmer's almanacs and Chaak tables.
    Chaak,
    /// Pages 46-50: Venus tables.
    Venus,
    /// Pages 51-58: lunar and eclipse tables.
    Eclipse,
    /// Pages 58-59: Mars tables (page 58 shared with the eclipse tables).
    Mars78,
    /// Page 60: K'atun prophecy.
    Katun,
    /// Pages 61-73: rain tables and serpent numbers.
    Serpent,
    /// Page 74: the Great Deluge.
    Deluge,
}

/// All sections in codex order.
pub const ALL_SECTIONS: [CodexSection; 11] = [
    CodexSection::Introduction,
    CodexSection::MoonGoddess,
    CodexSection::BlankBridge,
    CodexSection::NewYear,
    CodexSection::Chaak,
    CodexSection::Venus,
    CodexSection::Eclipse,
    CodexSection::Mars78,
    CodexSection::Katun,
    CodexSection::Serpent,
    CodexSection::Deluge,
];

/// All sections in codex order, as a sequence.
pub open spec fn all_sections_spec() -> Seq<CodexSection> {
    seq![
        CodexSection::Introduction,
        CodexSection::MoonGoddess,
        CodexSection::BlankBridge,
        CodexSection::NewYear,
        CodexSection::Chaak,
        CodexSection::Venus,
        CodexSection::Eclipse,
        CodexSection::Mars78,
        CodexSection::Katun,
        CodexSection::Serpent,
        CodexSection::Deluge,
    ]
}

impl CodexSection {
    /// First page of the section.
    pub open spec fn first_spec(self) -> u8 {
        match self {
            CodexSection::Introduction => 1,
            CodexSection::MoonGoddess => 15,
            CodexSection::BlankBridge => 24,
            CodexSection::NewYear => 25,
            CodexSection::Chaak => 29,
            CodexSection::Venus => 46,
            CodexSection::Eclipse => 51,
            CodexSection::Mars78 => 58,
            CodexSection::Katun => 60,
            CodexSection::Serpent => 61,
            CodexSection::Deluge => 74,
        }
    }

    /// Last page of the section, inclusive.
    pub open spec fn last_spec(self) -> u8 {
        match self {
            CodexSection::Introduction => 14,
            CodexSection::MoonGoddess => 23,
            CodexSection::BlankBridge => 24,
            CodexSection::NewYear => 28,
            CodexSection::Chaak => 45,
            CodexSection::Venus => 50,
            CodexSection::Eclipse => 58,
            CodexSection::Mars78 => 59,
            CodexSection::Katun => 60,
            CodexSection::Serpent => 73,
            CodexSection::Deluge => 74,
        }
    }

    /// The first codex page of this section.
    pub fn first_page(&self) -> (p: u8)
        ensures
            p == self.first_spec(),
    {
        match self {
            CodexSection::Introduction => 1,
            CodexSection::MoonGoddess => 15,
            CodexSection::BlankBridge => 24,
            CodexSection::NewYear => 25,
            CodexSection::Chaak => 29,
            CodexSection::Venus => 46,
            CodexSection::Eclipse => 51,
            CodexSection::Mars78 => 58,
            CodexSection::Katun => 60,
            CodexSection::Serpent => 61,
            CodexSection::Deluge => 74,
        }
    }

    /// The last codex page of this section (inclusive).
    pub fn last_page(&self) -> (p: u8)
        ensures
            p == self.last_spec(),
    {
        match self {
            CodexSection::Introduction => 14,
            CodexSection::MoonGoddess => 23,
            CodexSection::BlankBridge => 24,
            CodexSection::NewYear => 28,
            CodexSection::Chaak => 45,
            CodexSection::Venus => 50,
            CodexSection::Eclipse => 58,
            CodexSection::Mars78 => 59,
            CodexSection::Katun => 60,
            CodexSection::Serpent => 73,
            CodexSection::Deluge => 74,
        }
    }

    /// All sections in codex order.
    pub fn all() -> (s: &'static [CodexSection])
        ensures
            s@ == all_sections_spec(),
    {
        let s: &[CodexSection] = &ALL_SECTIONS;
        assert(s@ =~= all_sections_spec());
        s
    }
}

/// The section of a page; page 58 goes to the eclipse tables.
pub open spec fn section_of_page(page: u8) -> Option<CodexSection> {
    if 1 <= page <= 14 {
        Some(CodexSection::Introduction)
    } else if 15 <= page <= 23 {
        Some(CodexSection::MoonGoddess)
    } else if page == 24 {
        Some(CodexSection::BlankBridge)
    } else if 25 <= page <= 28 {
        Some(CodexSection::NewYear)
    } else if 29 <= page <= 45 {
        Some(CodexSection::Chaak)
    } else if 46 <= page <= 50 {
        Some(CodexSection::Venus)
    } else if 51 <= page <= 58 {
        Some(CodexSection::Eclipse)
    } else if page == 59 {
        Some(CodexSection::Mars78)
    } else if page == 60 {
        Some(CodexSection::Katun)
    } else if 61 <= page <= 73 {
        Some(CodexSection::Serpent)
    } else if page == 74 {
        Some(CodexSection::Deluge)
    } else {
        None
    }
}

/// Maps a page to its section; page 58, claimed by both the eclipse and
/// the Mars tables, goes to the eclipse tables.
pub fn page_to_section(page: u8) -> (s: Option<CodexSection>)
    ensures
        s == section_of_page(page),
{
    if 1 <= page && page <= 14 {
        Some(CodexSection::Introduction)
    } else if 15 <= page && page <= 23 {
        Some(CodexSection::MoonGoddess)
    } else if page == 24 {
        Some(CodexSection::BlankBridge)
    } else if 25 <= page && page <= 28 {
        Some(CodexSection::NewYear)
    } else if 29 <= page && page <= 45 {
        Some(CodexSection::Chaak)
    } else if 46 <= page && page <= 50 {
        Some(CodexSection::Venus)
    } else if 51 <= page && page <= 58 {
        Some(CodexSection::Eclipse)
    } else if page == 59 {
        Some(CodexSection::Mars78)
    } else if page == 60 {
        Some(CodexSection::Katun)
    } else if 61 <= page && page <= 73 {
        Some(CodexSection::Serpent)
    } else if page == 74 {
        Some(CodexSection::Deluge)
    } else {
        None
    }
}

/// All sections whose page range holds `page`, in codex order.
pub fn page_sections(page: u8) -> (v: Vec<CodexSection>)
    ensures
        v@ == all_sections_spec().filter(|s: CodexSection| s.first_spec() <= page <= s.last_spec()),
{
    let all = CodexSection::all();
    let mut sections: Vec<CodexSection> = Vec::new();
    let mut i: usize = 0;
    while i < all.len()
        invariant
            all@ == all_sections_spec(),
            0 <= i <= all@.len(),
            sections@ == all@.subrange(0, i as int).filter(
                |s: CodexSection| s.first_spec() <= page <= s.last_spec(),
            ),
        decreases all@.len() - i,
    {
        let s = all[i];
        proof {
            assert(all@.subrange(0, i as int + 1) =~= all@.subrange(0, i as int).push(s));
            all@.subrange(0, i as int).lemma_filter_push(
                s,
                |s: CodexSection| s.first_spec() <= page <= s.last_spec(),
            );
        }
        if page >= s.first_page() && page <= s.last_page() {
            sections.push(s);
        }
        i = i + 1;
    }
    assert(all@.subrange(0, all@.len() as int) =~= all@);
    sections
}

/// The pages documented as water-damaged.
pub open spec fn damaged_page(page: u8) -> bool {
    page == 2 || page == 4 || page == 24 || page == 28 || page == 34 || page == 38 || page == 71
        || page == 72
}

/// Whether a page is documented as water-damaged.
pub fn is_water_damaged(page: u8) -> (b: bool)
    ensures
        b == damaged_page(page),
{
    page == 2 || page == 4 || page == 24 || page == 28 || page == 34 || page == 38 || page == 71
        || page == 72
}

/// Every page from 1 to 74 lies in some section, and in the sections
/// that consecutive sections meet or overlap by one page.
pub proof fn lemma_sections_cover_codex(page: u8)
    requires
        1 <= page <= 74,
    ensures
        section_of_page(page) matches Some(s) && s.first_spec() <= page <= s.last_spec(),
{
}

/// Consecutive sections leave no gap: each starts at or right after the
/// end of the previous one.
pub proof fn lemma_sections_contiguous(i: int)
    requires
        0 <= i < 10,
    ensures
        all_sections_spec()[i + 1].first_spec() == all_sections_spec()[i].last_spec()
            || all_sections_spec()[i + 1].first_spec() == all_sections_spec()[i].last_spec() + 1,
{
}

/// The sections whose page range holds `page`, in section order.
pub open spec fn sections_holding(page: u8) -> Seq<CodexSection> {
    all_sections_spec().filter(|s: CodexSection| s.first_spec() <= page <= s.last_spec())
}

/// The page map and the section ranges agree: a page has a section
/// exactly when it lies in `1..=74`, that section's range holds it, and
/// it is the only one holding it, save page 58, held by the eclipse and
/// the Mars tables, which goes to the eclipse tables.
pub proof fn lemma_page_sections_agree(page: u8)
    ensures
        section_of_page(page) is Some <==> 1 <= page <= 74,
        section_of_page(page) matches Some(s) ==> s.first_spec() <= page <= s.last_spec(),
        1 <= page <= 74 && page != 58 ==> sections_holding(page) == seq![section_of_page(page)->0],
        page == 58 ==> sections_holding(page) == seq![CodexSection::Eclipse, CodexSection::Mars78],
        (page < 1 || page > 74) ==> sections_holding(page) == Seq::<CodexSection>::empty(),
{
    reveal_with_fuel(Seq::<CodexSection>::filter, 12);
    let all = all_sections_spec();
    let pred = |s: CodexSection| s.first_spec() <= page <= s.last_spec();
    assert(all.len() == 11);
    assert(all.subrange(0, 0) =~= Seq::<CodexSection>::empty());
    assert(all.drop_last() =~= all.subrange(0, 10));
    assert(all.subrange(0, 10).drop_last() =~= all.subrange(0, 9));
    assert(all.subrange(0, 9).drop_last() =~= all.subrange(0, 8));
    assert(all.subrange(0, 8).drop_last() =~= all.subrange(0, 7));
    assert(all.subrange(0, 7).drop_last() =~= all.subrange(0, 6));
    assert(all.subrange(0, 6).drop_last() =~= all.subrange(0, 5));
    assert(all.subrange(0, 5).drop_last() =~= all.subrange(0, 4));
    assert(all.subrange(0, 4).drop_last() =~= all.subrange(0, 3));
    assert(all.subrange(0, 3).drop_last() =~= all.subrange(0, 2));
    assert(all.subrange(0, 2).drop_last() =~= all.subrange(0, 1));
    assert(all.subrange(0, 1).drop_last() =~= all.subrange(0, 0));
    assert(sections_holding(page) =~= (if 1 <= page <= 74 && page != 58 {
        seq![section_of_page(page)->0]
    } else if page == 58 {
        seq![CodexSection::Eclipse, CodexSection::Mars78]
    } else {
        Seq::<CodexSection>::empty()
    }));
}

} // verus!
