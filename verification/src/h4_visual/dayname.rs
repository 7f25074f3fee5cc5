//! Tzolk'in day-name glyphs: the twenty day signs in canonical order,
//! all of them navigation glyphs.

use vstd::prelude::*;
use crate::h4_visual::alphabet::{GlyphAlphabet, SemanticRole};

verus! {

/// Tzolk'in day-name glyphs in canonical 20-day order.
#[derive(Clone, Copy, Debug, PartialEq, Eq, Hash, Structural)]
pub enum DayNameGlyph {
    /// Imix
    Imix,
    /// Ik'
    IkPrime,
    /// Akb'al
    Akbal,
    /// Kan
    Kan,
    /// Chikchan
    Chikchan,
    /// Kimi
    Kimi,
    /// Manik'
    Manik,
    /// Lamat
    Lamat,
    /// Muluk
    Muluk,
    /// Ok
    OkSign,
    /// Chuwen
    Chuwen,
    /// Eb
    Eb,
    /// Ben
    Ben,
    /// Ix
    Ix,
    /// Men
    Men,
    /// Kib
    Kib,
    /// Kaban
    Kaban,
    /// Etz'nab
    Etznab,
    /// Kawak
    Kawak,
    /// Ajaw
    Ajaw,
}

/// All day names in ordinal order.
pub const ALL_DAY_NAMES: [DayNameGlyph; 20] = [
    DayNameGlyph::Imix,
    DayNameGlyph::IkPrime,
    DayNameGlyph::Akbal,
    DayNameGlyph::Kan,
    DayNameGlyph::Chikchan,
    DayNameGlyph::Kimi,
    DayNameGlyph::Manik,
    DayNameGlyph::Lamat,
    DayNameGlyph::Muluk,
    DayNameGlyph::OkSign,
    DayNameGlyph::Chuwen,
    DayNameGlyph::Eb,
    DayNameGlyph::Ben,
    DayNameGlyph::Ix,
    DayNameGlyph::Men,
    DayNameGlyph::Kib,
    DayNameGlyph::Kaban,
    DayNameGlyph::Etznab,
    DayNameGlyph::Kawak,
    DayNameGlyph::Ajaw,
];

impl DayNameGlyph {
    /// Position of the day sign in the 20-day cycle.
    pub open spec fn ordinal_value(self) -> u64 {
        match self {
            DayNameGlyph::Imix => 0,
            DayNameGlyph::IkPrime => 1,
            DayNameGlyph::Akbal => 2,
            DayNameGlyph::Kan => 3,
            DayNameGlyph::Chikchan => 4,
            DayNameGlyph::Kimi => 5,
            DayNameGlyph::Manik => 6,
            DayNameGlyph::Lamat => 7,
            DayNameGlyph::Muluk => 8,
            DayNameGlyph::OkSign => 9,
            DayNameGlyph::Chuwen => 10,
            DayNameGlyph::Eb => 11,
            DayNameGlyph::Ben => 12,
            DayNameGlyph::Ix => 13,
            DayNameGlyph::Men => 14,
            DayNameGlyph::Kib => 15,
            DayNameGlyph::Kaban => 16,
            DayNameGlyph::Etznab => 17,
            DayNameGlyph::Kawak => 18,
            DayNameGlyph::Ajaw => 19,
        }
    }

    /// The day sign's name as written in canonical modern orthography
    /// (the variant's identifier).
    pub open spec fn name_spec(self) -> &'static str {
        match self {
            DayNameGlyph::Imix => "Imix",
            DayNameGlyph::IkPrime => "IkPrime",
            DayNameGlyph::Akbal => "Akbal",
            DayNameGlyph::Kan => "Kan",
            DayNameGlyph::Chikchan => "Chikchan",
            DayNameGlyph::Kimi => "Kimi",
            DayNameGlyph::Manik => "Manik",
            DayNameGlyph::Lamat => "Lamat",
            DayNameGlyph::Muluk => "Muluk",
            DayNameGlyph::OkSign => "Ok",
            DayNameGlyph::Chuwen => "Chuwen",
            DayNameGlyph::Eb => "Eb",
            DayNameGlyph::Ben => "Ben",
            DayNameGlyph::Ix => "Ix",
            DayNameGlyph::Men => "Men",
            DayNameGlyph::Kib => "Kib",
            DayNameGlyph::Kaban => "Kaban",
            DayNameGlyph::Etznab => "Etznab",
            DayNameGlyph::Kawak => "Kawak",
            DayNameGlyph::Ajaw => "Ajaw",
        }
    }

    /// The day sign's name (the variant's identifier).
    pub fn name(&self) -> (s: &'static str)
        ensures
            s == self.name_spec(),
    {
        match self {
            DayNameGlyph::Imix => "Imix",
            DayNameGlyph::IkPrime => "IkPrime",
            DayNameGlyph::Akbal => "Akbal",
            DayNameGlyph::Kan => "Kan",
            DayNameGlyph::Chikchan => "Chikchan",
            DayNameGlyph::Kimi => "Kimi",
            DayNameGlyph::Manik => "Manik",
            DayNameGlyph::Lamat => "Lamat",
            DayNameGlyph::Muluk => "Muluk",
            DayNameGlyph::OkSign => "Ok",
            DayNameGlyph::Chuwen => "Chuwen",
            DayNameGlyph::Eb => "Eb",
            DayNameGlyph::Ben => "Ben",
            DayNameGlyph::Ix => "Ix",
            DayNameGlyph::Men => "Men",
            DayNameGlyph::Kib => "Kib",
            DayNameGlyph::Kaban => "Kaban",
            DayNameGlyph::Etznab => "Etznab",
            DayNameGlyph::Kawak => "Kawak",
            DayNameGlyph::Ajaw => "Ajaw",
        }
    }
}

/// The day sign at position `n` of the 20-day cycle.
pub open spec fn day_of_ordinal(n: u64) -> Option<DayNameGlyph> {
    if n == 0 {
        Some(DayNameGlyph::Imix)
    } else if n == 1 {
        Some(DayNameGlyph::IkPrime)
    } else if n == 2 {
        Some(DayNameGlyph::Akbal)
    } else if n == 3 {
        Some(DayNameGlyph::Kan)
    } else if n == 4 {
        Some(DayNameGlyph::Chikchan)
    } else if n == 5 {
        Some(DayNameGlyph::Kimi)
    } else if n == 6 {
        Some(DayNameGlyph::Manik)
    } else if n == 7 {
        Some(DayNameGlyph::Lamat)
    } else if n == 8 {
        Some(DayNameGlyph::Muluk)
    } else if n == 9 {
        Some(DayNameGlyph::OkSign)
    } else if n == 10 {
        Some(DayNameGlyph::Chuwen)
    } else if n == 11 {
        Some(DayNameGlyph::Eb)
    } else if n == 12 {
        Some(DayNameGlyph::Ben)
    } else if n == 13 {
        Some(DayNameGlyph::Ix)
    } else if n == 14 {
        Some(DayNameGlyph::Men)
    } else if n == 15 {
        Some(DayNameGlyph::Kib)
    } else if n == 16 {
        Some(DayNameGlyph::Kaban)
    } else if n == 17 {
        Some(DayNameGlyph::Etznab)
    } else if n == 18 {
        Some(DayNameGlyph::Kawak)
    } else if n == 19 {
        Some(DayNameGlyph::Ajaw)
    } else {
        None
    }
}

/// The day sign at position `n` of the 20-day cycle, `None` past 19.
pub fn from_ordinal(n: u64) -> (g: Option<DayNameGlyph>)
    ensures
        g == day_of_ordinal(n),
        n < 20 ==> (g matches Some(x) && x.ordinal_value() == n),
        n >= 20 ==> g is None,
{
    match n {
        0 => Some(DayNameGlyph::Imix),
        1 => Some(DayNameGlyph::IkPrime),
        2 => Some(DayNameGlyph::Akbal),
        3 => Some(DayNameGlyph::Kan),
        4 => Some(DayNameGlyph::Chikchan),
        5 => Some(DayNameGlyph::Kimi),
        6 => Some(DayNameGlyph::Manik),
        7 => Some(DayNameGlyph::Lamat),
        8 => Some(DayNameGlyph::Muluk),
        9 => Some(DayNameGlyph::OkSign),
        10 => Some(DayNameGlyph::Chuwen),
        11 => Some(DayNameGlyph::Eb),
        12 => Some(DayNameGlyph::Ben),
        13 => Some(DayNameGlyph::Ix),
        14 => Some(DayNameGlyph::Men),
        15 => Some(DayNameGlyph::Kib),
        16 => Some(DayNameGlyph::Kaban),
        17 => Some(DayNameGlyph::Etznab),
        18 => Some(DayNameGlyph::Kawak),
        19 => Some(DayNameGlyph::Ajaw),
        _ => None,
    }
}

impl<const K: usize> GlyphAlphabet<K> for DayNameGlyph {
    open spec fn ordinal_spec(&self) -> u64 {
        self.ordinal_value()
    }

    fn ordinal(&self) -> (o: u64) {
        match self {
            DayNameGlyph::Imix => 0,
            DayNameGlyph::IkPrime => 1,
            DayNameGlyph::Akbal => 2,
            DayNameGlyph::Kan => 3,
            DayNameGlyph::Chikchan => 4,
            DayNameGlyph::Kimi => 5,
            DayNameGlyph::Manik => 6,
            DayNameGlyph::Lamat => 7,
            DayNameGlyph::Muluk => 8,
            DayNameGlyph::OkSign => 9,
            DayNameGlyph::Chuwen => 10,
            DayNameGlyph::Eb => 11,
            DayNameGlyph::Ben => 12,
            DayNameGlyph::Ix => 13,
            DayNameGlyph::Men => 14,
            DayNameGlyph::Kib => 15,
            DayNameGlyph::Kaban => 16,
            DayNameGlyph::Etznab => 17,
            DayNameGlyph::Kawak => 18,
            DayNameGlyph::Ajaw => 19,
        }
    }

    open spec fn role_spec(&self) -> SemanticRole {
        SemanticRole::Navigation
    }

    fn semantic_role(&self) -> (r: SemanticRole) {
        SemanticRole::Navigation
    }
}

/// Distinct day signs have distinct ordinals.
pub proof fn lemma_day_ordinal_injective(a: DayNameGlyph, b: DayNameGlyph)
    ensures
        a.ordinal_value() == b.ordinal_value() ==> a == b,
{
}

} // verus!
