//! The visual transducer: finite glyph alphabets mapped to Safe Basis
//! residue addresses, page layouts of the Goddess section, and the
//! basis lift to larger prime bases.

pub mod alphabet;
pub mod bardot;
pub mod dayname;
pub mod iconographic;
pub mod layout;
pub mod lift;
pub mod month;
pub mod wire;
