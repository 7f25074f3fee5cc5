//! The iconographic figure alphabet of the Goddess section: one figure
//! per codex page 16 to 24, each tied to a near (148-day) or far
//! (177-day) eclipse half-year.

use vstd::prelude::*;
use crate::h4_visual::alphabet::{GlyphAlphabet, SemanticRole};

verus! {

/// One iconographic figure per Goddess-section page, pages 16 to 24.
#[derive(Clone, Copy, Debug, PartialEq, Eq, Hash, Structural)]
pub enum IconographicFigure {
    /// Page 16: lunar disc / crescent.
    MoonSign,
    /// Page 17: Ix Chel as water-bearer.
    WaterPot,
    /// Page 18: weaving / textile attribute.
    WeavingShuttle,
    /// Page 19: serpent-coif identifying ornament.
    SnakeHeaddress,
    /// Page 20: eclipse mark for the 148/177 alternation.
    EclipseGlyph,
    /// Page 21: childbirth / midwifery attribute.
    BirthGlyph,
    /// Page 22: medicine / healing.
    HealingGlyph,
    /// Page 23: flood / overflow.
    FloodGlyph,
    /// Page 24: the deliberate blank page that closes the Goddess section;
    /// a boundary glyph.
    BlankBridge,
}

/// All Goddess-section figures in page order.
pub const ALL_FIGURES: [IconographicFigure; 9] = [
    IconographicFigure::MoonSign,
    IconographicFigure::WaterPot,
    IconographicFigure::WeavingShuttle,
    IconographicFigure::SnakeHeaddress,
    IconographicFigure::EclipseGlyph,
    IconographicFigure::BirthGlyph,
    IconographicFigure::HealingGlyph,
    IconographicFigure::FloodGlyph,
    IconographicFigure::BlankBridge,
];

/// The figure painted on codex page `page`, for pages 16 to 24.
pub open spec fn figure_of_page(page: u8) -> Option<IconographicFigure> {
    if page == 16 {
        Some(IconographicFigure::MoonSign)
    } else if page == 17 {
        Some(IconographicFigure::WaterPot)
    } else if page == 18 {
        Some(IconographicFigure::WeavingShuttle)
    } else if page == 19 {
        Some(IconographicFigure::SnakeHeaddress)
    } else if page == 20 {
        Some(IconographicFigure::EclipseGlyph)
    } else if page == 21 {
        Some(IconographicFigure::BirthGlyph)
    } else if page == 22 {
        Some(IconographicFigure::HealingGlyph)
    } else if page == 23 {
        Some(IconographicFigure::FloodGlyph)
    } else if page == 24 {
        Some(IconographicFigure::BlankBridge)
    } else {
        None
    }
}

/// Maps a codex page number to its Goddess-section figure.
pub fn from_page(page: u8) -> (f: Option<IconographicFigure>)
    ensures
        f == figure_of_page(page),
{
    match page {
        16 => Some(IconographicFigure::MoonSign),
        17 => Some(IconographicFigure::WaterPot),
        18 => Some(IconographicFigure::WeavingShuttle),
        19 => Some(IconographicFigure::SnakeHeaddress),
        20 => Some(IconographicFigure::EclipseGlyph),
        21 => Some(IconographicFigure::BirthGlyph),
        22 => Some(IconographicFigure::HealingGlyph),
        23 => Some(IconographicFigure::FloodGlyph),
        24 => Some(IconographicFigure::BlankBridge),
        _ => None,
    }
}

impl IconographicFigure {
    /// Position of the figure in page order.
    pub open spec fn ordinal_value(self) -> u64 {
        match self {
            IconographicFigure::MoonSign => 0,
            IconographicFigure::WaterPot => 1,
            IconographicFigure::WeavingShuttle => 2,
            IconographicFigure::SnakeHeaddress => 3,
            IconographicFigure::EclipseGlyph => 4,
            IconographicFigure::BirthGlyph => 5,
            IconographicFigure::HealingGlyph => 6,
            IconographicFigure::FloodGlyph => 7,
            IconographicFigure::BlankBridge => 8,
        }
    }

    /// Eclipse-glyph and blank-bridge figures are boundaries; the rest content.
    pub open spec fn role_value(self) -> SemanticRole {
        match self {
            IconographicFigure::EclipseGlyph | IconographicFigure::BlankBridge => SemanticRole::Boundary,
            _ => SemanticRole::Content,
        }
    }

    /// Near half-year (148) on even ordinals, far half-year (177) on odd ones.
    pub open spec fn interval_value(self) -> u64 {
        if self.ordinal_value() % 2 == 0 {
            148
        } else {
            177
        }
    }

    /// Ordinal position in the figure alphabet.
    pub fn ordinal(&self) -> (o: u64)
        ensures
            o == self.ordinal_value(),
    {
        match self {
            IconographicFigure::MoonSign => 0,
            IconographicFigure::WaterPot => 1,
            IconographicFigure::WeavingShuttle => 2,
            IconographicFigure::SnakeHeaddress => 3,
            IconographicFigure::EclipseGlyph => 4,
            IconographicFigure::BirthGlyph => 5,
            IconographicFigure::HealingGlyph => 6,
            IconographicFigure::FloodGlyph => 7,
            IconographicFigure::BlankBridge => 8,
        }
    }

    /// Semantic role of the figure.
    pub fn semantic_role(&self) -> (r: SemanticRole)
        ensures
            r == self.role_value(),
    {
        match self {
            IconographicFigure::EclipseGlyph | IconographicFigure::BlankBridge => SemanticRole::Boundary,
            _ => SemanticRole::Content,
        }
    }

    /// Maps a codex page number to its Goddess-section figure.
    pub fn from_page(page: u8) -> (f: Option<IconographicFigure>)
        ensures
            f == figure_of_page(page),
    {
        from_page(page)
    }

    /// The eclipse half-year the figure's page records.
    pub fn associated_interval(&self) -> (d: u64)
        ensures
            d == self.interval_value(),
    {
        match self {
            IconographicFigure::MoonSign
            | IconographicFigure::WeavingShuttle
            | IconographicFigure::EclipseGlyph
            | IconographicFigure::HealingGlyph
            | IconographicFigure::BlankBridge => 148,
            IconographicFigure::WaterPot
            | IconographicFigure::SnakeHeaddress
            | IconographicFigure::BirthGlyph
            | IconographicFigure::FloodGlyph => 177,
        }
    }
}

/// Page numbers and figures correspond one to one on pages 16 to 24.
pub proof fn lemma_page_figure_round_trip(page: u8)
    requires
        16 <= page <= 24,
    ensures
        figure_of_page(page) matches Some(f) && f.ordinal_value() == page - 16,
{
}

impl<const K: usize> GlyphAlphabet<K> for IconographicFigure {
    open spec fn ordinal_spec(&self) -> u64 {
        self.ordinal_value()
    }

    open spec fn role_spec(&self) -> SemanticRole {
        self.role_value()
    }

    fn ordinal(&self) -> (o: u64) {
        IconographicFigure::ordinal(self)
    }

    fn semantic_role(&self) -> (r: SemanticRole) {
        IconographicFigure::semantic_role(self)
    }
}

} // verus!
