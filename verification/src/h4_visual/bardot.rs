//! Maya bar-and-dot numerals `0..=19`: bars count fives, dots count ones.

use vstd::prelude::*;
use crate::h4_visual::alphabet::{GlyphAlphabet, SemanticRole};

verus! {

/// Maya base-20 bar-and-dot numeral.
#[derive(Clone, Copy, Debug, PartialEq, Eq, Hash, Structural)]
pub struct BarDotNumeral(pub u8);

impl BarDotNumeral {
    /// A numeral of value `v`, `None` past 19.
    pub fn new(v: u8) -> (n: Option<BarDotNumeral>)
        ensures
            v <= 19 ==> n == Some(BarDotNumeral(v)),
            v > 19 ==> n is None,
    {
        if v <= 19 {
            Some(BarDotNumeral(v))
        } else {
            None
        }
    }

    /// Number of five-value bars.
    pub fn bar_count(&self) -> (b: u8)
        ensures
            b == self.0 / 5,
    {
        self.0 / 5
    }

    /// Number of one-value dots.
    pub fn dot_count(&self) -> (d: u8)
        ensures
            d == self.0 % 5,
    {
        self.0 % 5
    }
}

/// Bars and dots add back up to the numeral's value.
pub proof fn lemma_bars_and_dots(n: BarDotNumeral)
    ensures
        5 * (n.0 / 5) + n.0 % 5 == n.0,
{
}

impl<const K: usize> GlyphAlphabet<K> for BarDotNumeral {
    open spec fn ordinal_spec(&self) -> u64 {
        self.0 as u64
    }

    open spec fn role_spec(&self) -> SemanticRole {
        SemanticRole::Content
    }

    fn ordinal(&self) -> (o: u64) {
        self.0 as u64
    }

    fn semantic_role(&self) -> (r: SemanticRole) {
        SemanticRole::Content
    }
}

} // verus!
