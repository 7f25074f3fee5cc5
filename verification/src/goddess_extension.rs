//! The extension of the Goddess section: the visual decoder covers pages
//! 16–24 (24 being the blank bridge), while the Moon Goddess section runs
//! from page 13c through 23. The pages 13c–15 stay undecoded until their
//! source material is available.

use vstd::prelude::*;

verus! {

/// Availability of the source material for a range of pages.
#[derive(Clone, Copy, Debug, PartialEq, Eq, Hash, Structural)]
pub enum SourceMaterialStatus {
    /// The material is at hand and decoded.
    Available,
    /// The material is known (a named reference) but not at hand.
    Pending,
    /// The material was searched for and not found.
    NotFound,
}

/// Pages the visual decoder covers.
pub const H4_COVERED_PAGES: [u8; 9] = [16, 17, 18, 19, 20, 21, 22, 23, 24];

/// Pages of the extended Moon Goddess range (page 13 stands for its
/// lower register, 13c).
pub const GODDESS_EXTENDED_PAGES: [u8; 11] = [13, 14, 15, 16, 17, 18, 19, 20, 21, 22, 23];

/// Pages of the extended range that are not decoded yet.
pub const UNDECODED_GODDESS_PAGES: [u8; 3] = [13, 14, 15];

/// The gap between the decoder's coverage and the extended range.
#[derive(Clone, Debug, PartialEq, Eq)]
pub struct GoddessExtensionGap {
    /// Pages not yet decoded.
    pub undecoded_pages: Vec<u8>,
    /// Pages the visual decoder covers.
    pub h4_covered_pages: Vec<u8>,
    /// The blank-bridge page that closes the covered range.
    pub blank_bridge_page: u8,
    /// Availability of the material for the undecoded pages.
    pub source_material_status: SourceMaterialStatus,
    /// The named reference for the extended range.
    pub canonical_reference: &'static str,
}

/// Copies a page list.
fn pages_vec(pages: &[u8]) -> (v: Vec<u8>)
    ensures
        v@ == pages@,
{
    let mut v: Vec<u8> = Vec::new();
    let mut i: usize = 0;
    while i < pages.len()
        invariant
            0 <= i <= pages.len(),
            v@ == pages@.subrange(0, i as int),
        decreases pages.len() - i,
    {
        v.push(pages[i]);
        i = i + 1;
        assert(v@ =~= pages@.subrange(0, i as int));
    }
    assert(pages@.subrange(0, pages.len() as int) =~= pages@);
    v
}

impl GoddessExtensionGap {
    /// The current gap: pages 13–15 undecoded with their material
    /// pending, pages 16–24 covered, 24 the blank bridge.
    pub fn current() -> (g: Self)
        ensures
            g.undecoded_pages@ == UNDECODED_GODDESS_PAGES@,
            g.h4_covered_pages@ == H4_COVERED_PAGES@,
            g.blank_bridge_page == 24,
            g.source_material_status == SourceMaterialStatus::Pending,
            g.canonical_reference@ == "Barnhart 2005 (via vault Dresden.md Moon Goddess audit)"@,
    {
        let undecoded: [u8; 3] = UNDECODED_GODDESS_PAGES;
        let covered: [u8; 9] = H4_COVERED_PAGES;
        GoddessExtensionGap {
            undecoded_pages: pages_vec(&undecoded),
            h4_covered_pages: pages_vec(&covered),
            blank_bridge_page: 24,
            source_material_status: SourceMaterialStatus::Pending,
            canonical_reference: "Barnhart 2005 (via vault Dresden.md Moon Goddess audit)",
        }
    }
}

} // verus!
