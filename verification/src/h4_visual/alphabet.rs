//! The glyph-alphabet contract: every glyph has an ordinal and a semantic
//! role, and its residue address over a basis is the residue of its
//! ordinal modulo each basis prime.

use vstd::prelude::*;
use crate::substrate::{cram_address, cram_spec};

verus! {

/// Semantic classification of a glyph's role in the codex.
#[derive(Clone, Copy, Debug, PartialEq, Eq, Hash, Structural)]
pub enum SemanticRole {
    /// Position, coordinate or navigation glyphs (day names, months).
    Navigation,
    /// Payload or attribute glyphs (numerals, iconographic figures).
    Content,
    /// Glyphs that demarcate configuration regions.
    Boundary,
}

/// The residue of `ord` modulo each prime of `basis`.
pub open spec fn basis_address(ord: u64, basis: Seq<u64>) -> Seq<u64> {
    Seq::new(basis.len(), |i: int| ((ord as int) % (basis[i] as int)) as u64)
}

/// A finite glyph alphabet over a basis of `K` primes.
pub trait GlyphAlphabet<const K: usize> {
    /// The ordinal of the glyph, as a value.
    spec fn ordinal_spec(&self) -> u64;

    /// Ordinal of this glyph in its alphabet.
    fn ordinal(&self) -> (o: u64)
        ensures
            o == self.ordinal_spec(),
    ;

    /// The semantic role of the glyph, as a value.
    spec fn role_spec(&self) -> SemanticRole;

    /// Semantic role of this glyph.
    fn semantic_role(&self) -> (r: SemanticRole)
        ensures
            r == self.role_spec(),
    ;

    /// Residue address of the glyph's ordinal over `basis`.
    fn address(&self, basis: &[u64; K]) -> (addr: [u64; K])
        requires
            forall|i: int| 0 <= i < K ==> #[trigger] basis@[i] > 0,
        ensures
            addr@ == basis_address(self.ordinal_spec(), basis@),
    {
        let ord = self.ordinal();
        let mut addr: [u64; K] = [0u64; K];
        let mut i: usize = 0;
        while i < K
            invariant
                forall|j: int| 0 <= j < K ==> #[trigger] basis@[j] > 0,
                ord == self.ordinal_spec(),
                0 <= i <= K,
                addr@.len() == K,
                forall|j: int| 0 <= j < i ==> #[trigger] addr@[j] == ord % basis@[j],
            decreases K - i,
        {
            addr[i] = ord % basis[i];
            i = i + 1;
        }
        assert(basis@.len() == K);
        assert forall|j: int| 0 <= j < K implies #[trigger] addr@[j] == basis_address(
            ord,
            basis@,
        )[j] by {
            assert(addr@[j] == ord % basis@[j]);
            assert(basis_address(ord, basis@)[j] == ord % basis@[j]);
        }
        assert(addr@ =~= basis_address(ord, basis@));
        addr
    }
}

/// Safe Basis address of a glyph: the residue address of its ordinal.
pub fn safe_address<G: GlyphAlphabet<6>>(g: &G) -> (addr: [u64; 6])
    ensures
        addr@ == cram_spec(g.ordinal_spec()),
{
    cram_address(g.ordinal())
}

} // verus!
