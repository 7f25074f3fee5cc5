//! Haab month glyphs: the eighteen winals and the Wayeb boundary period.

use vstd::prelude::*;
use crate::h4_visual::alphabet::{GlyphAlphabet, SemanticRole};

verus! {

/// Month glyphs for the 18 Haab winals plus the Wayeb boundary period.
#[derive(Clone, Copy, Debug, PartialEq, Eq, Hash, Structural)]
pub enum MonthGlyph {
    /// Pop.
    Pop,
    /// Wo.
    Wo,
    /// Sip.
    Sip,
    /// Sotz'.
    Sotz,
    /// Sek.
    Sek,
    /// Xul.
    Xul,
    /// Yaxk'in.
    Yaxkin,
    /// Mol.
    Mol,
    /// Ch'en.
    Chen,
    /// Yax.
    Yax,
    /// Sak.
    Sak,
    /// Keh.
    Keh,
    /// Mak.
    Mak,
    /// K'ank'in.
    Kankin,
    /// Muwan.
    Muwan,
    /// Pax.
    Pax,
    /// K'ayab.
    Kayab,
    /// Kumk'u.
    Kumku,
    /// Wayeb, the five-day year-end boundary period.
    Wayeb,
}

/// All Haab month glyphs in ordinal order.
pub const ALL_MONTHS: [MonthGlyph; 19] = [
    MonthGlyph::Pop,
    MonthGlyph::Wo,
    MonthGlyph::Sip,
    MonthGlyph::Sotz,
    MonthGlyph::Sek,
    MonthGlyph::Xul,
    MonthGlyph::Yaxkin,
    MonthGlyph::Mol,
    MonthGlyph::Chen,
    MonthGlyph::Yax,
    MonthGlyph::Sak,
    MonthGlyph::Keh,
    MonthGlyph::Mak,
    MonthGlyph::Kankin,
    MonthGlyph::Muwan,
    MonthGlyph::Pax,
    MonthGlyph::Kayab,
    MonthGlyph::Kumku,
    MonthGlyph::Wayeb,
];

impl MonthGlyph {
    /// Position of the month in the Haab.
    pub open spec fn ordinal_value(self) -> u64 {
        match self {
            MonthGlyph::Pop => 0,
            MonthGlyph::Wo => 1,
            MonthGlyph::Sip => 2,
            MonthGlyph::Sotz => 3,
            MonthGlyph::Sek => 4,
            MonthGlyph::Xul => 5,
            MonthGlyph::Yaxkin => 6,
            MonthGlyph::Mol => 7,
            MonthGlyph::Chen => 8,
            MonthGlyph::Yax => 9,
            MonthGlyph::Sak => 10,
            MonthGlyph::Keh => 11,
            MonthGlyph::Mak => 12,
            MonthGlyph::Kankin => 13,
            MonthGlyph::Muwan => 14,
            MonthGlyph::Pax => 15,
            MonthGlyph::Kayab => 16,
            MonthGlyph::Kumku => 17,
            MonthGlyph::Wayeb => 18,
        }
    }

    /// Role of the month: Wayeb is a boundary, every winal navigates.
    pub open spec fn role_value(self) -> SemanticRole {
        match self {
            MonthGlyph::Wayeb => SemanticRole::Boundary,
            _ => SemanticRole::Navigation,
        }
    }

    /// Ordinal position in the Haab month alphabet.
    pub fn ordinal(&self) -> (o: u64)
        ensures
            o == self.ordinal_value(),
    {
        match self {
            MonthGlyph::Pop => 0,
            MonthGlyph::Wo => 1,
            MonthGlyph::Sip => 2,
            MonthGlyph::Sotz => 3,
            MonthGlyph::Sek => 4,
            MonthGlyph::Xul => 5,
            MonthGlyph::Yaxkin => 6,
            MonthGlyph::Mol => 7,
            MonthGlyph::Chen => 8,
            MonthGlyph::Yax => 9,
            MonthGlyph::Sak => 10,
            MonthGlyph::Keh => 11,
            MonthGlyph::Mak => 12,
            MonthGlyph::Kankin => 13,
            MonthGlyph::Muwan => 14,
            MonthGlyph::Pax => 15,
            MonthGlyph::Kayab => 16,
            MonthGlyph::Kumku => 17,
            MonthGlyph::Wayeb => 18,
        }
    }

    /// Semantic role of this month glyph.
    pub fn semantic_role(&self) -> (r: SemanticRole)
        ensures
            r == self.role_value(),
    {
        match self {
            MonthGlyph::Wayeb => SemanticRole::Boundary,
            _ => SemanticRole::Navigation,
        }
    }
}

/// The month at position `n` of the Haab, `None` past 18.
pub fn from_ordinal(n: u64) -> (g: Option<MonthGlyph>)
    ensures
        n < 19 ==> (g matches Some(x) && x.ordinal_value() == n),
        n >= 19 ==> g is None,
{
    match n {
        0 => Some(MonthGlyph::Pop),
        1 => Some(MonthGlyph::Wo),
        2 => Some(MonthGlyph::Sip),
        3 => Some(MonthGlyph::Sotz),
        4 => Some(MonthGlyph::Sek),
        5 => Some(MonthGlyph::Xul),
        6 => Some(MonthGlyph::Yaxkin),
        7 => Some(MonthGlyph::Mol),
        8 => Some(MonthGlyph::Chen),
        9 => Some(MonthGlyph::Yax),
        10 => Some(MonthGlyph::Sak),
        11 => Some(MonthGlyph::Keh),
        12 => Some(MonthGlyph::Mak),
        13 => Some(MonthGlyph::Kankin),
        14 => Some(MonthGlyph::Muwan),
        15 => Some(MonthGlyph::Pax),
        16 => Some(MonthGlyph::Kayab),
        17 => Some(MonthGlyph::Kumku),
        18 => Some(MonthGlyph::Wayeb),
        _ => None,
    }
}

impl<const K: usize> GlyphAlphabet<K> for MonthGlyph {
    open spec fn ordinal_spec(&self) -> u64 {
        self.ordinal_value()
    }

    fn ordinal(&self) -> (o: u64) {
        MonthGlyph::ordinal(self)
    }

    open spec fn role_spec(&self) -> SemanticRole {
        MonthGlyph::role_value(*self)
    }

    fn semantic_role(&self) -> (r: SemanticRole) {
        MonthGlyph::semantic_role(self)
    }
}

/// Distinct months have distinct ordinals.
pub proof fn lemma_month_ordinal_injective(a: MonthGlyph, b: MonthGlyph)
    ensures
        a.ordinal_value() == b.ordinal_value() ==> a == b,
{
}

} // verus!
