//! Arithmetic certificates for the DPM-PRIME stack: ten lemmas, ten
//! theorems and the validation identities, each checked by direct integer
//! computation and returned with an explicit witness.
//!
//! Every claim a certificate checks is also stated as a spec predicate and
//! proved, so a certificate's result is fixed by its contract.

pub mod lemmas;
pub mod theorems;
pub mod validation;

use vstd::prelude::*;
use crate::engines::ramanujan::{gcd, gcd_spec};
use crate::text::owned;

verus! {

/// The outcome of evaluating a theorem of the stack.
#[derive(Clone, Debug, PartialEq, Eq)]
pub enum TheoremResult {
    /// Every claim holds by direct integer arithmetic.
    Pass {
        /// One-line summary of the verified content.
        witness: String,
    },
    /// The arithmetic holds, but the theorem also rests on structural
    /// infrastructure outside this library.
    Conditional {
        /// What the arithmetic verifies.
        verified: String,
        /// What remains pending elsewhere.
        pending: String,
    },
    /// A claim does not hold.
    Fail {
        /// The failing assertion.
        reason: String,
    },
}

/// `r` passes with witness text `w`.
pub open spec fn passes_with(r: TheoremResult, w: Seq<char>) -> bool {
    r matches TheoremResult::Pass { witness } && witness@ == w
}

impl TheoremResult {
    /// A passing result with the given witness.
    pub fn pass(witness: &str) -> (r: Self)
        ensures
            passes_with(r, witness@),
    {
        TheoremResult::Pass { witness: owned(witness) }
    }

    /// The result is a clean pass.
    pub fn is_pass(&self) -> (b: bool)
        ensures
            b == (*self is Pass),
    {
        match self {
            TheoremResult::Pass { .. } => true,
            _ => false,
        }
    }

    /// The result is conditionally accepted.
    pub fn is_conditional(&self) -> (b: bool)
        ensures
            b == (*self is Conditional),
    {
        match self {
            TheoremResult::Conditional { .. } => true,
            _ => false,
        }
    }
}

/// Least common multiple as `a / gcd(a, b) · b`.
pub open spec fn lcm_spec(a: nat, b: nat) -> nat {
    (a / gcd_spec(a, b)) * b
}

/// `a / gcd(a, b) · b`, for positive `a` and a product that fits.
pub(crate) fn lcm(a: u64, b: u64) -> (l: u64)
    requires
        a > 0,
        a * b <= u64::MAX,
    ensures
        l == lcm_spec(a as nat, b as nat),
{
    let g = gcd(a, b);
    proof {
        lemma_gcd_positive(a as nat, b as nat);
        vstd::arithmetic::div_mod::lemma_div_is_ordered_by_denominator(a as int, 1, g as int);
        assert((a / g) * b <= a * b) by (nonlinear_arith)
            requires
                a / g <= a,
        ;
    }
    a / g * b
}

/// The gcd of a positive number with anything is positive.
pub proof fn lemma_gcd_positive(a: nat, b: nat)
    requires
        a > 0,
    ensures
        gcd_spec(a, b) > 0,
    decreases b,
{
    if b > 0 {
        lemma_gcd_positive(b, a % b);
    }
}

/// The lcm of `a` and `b` from their gcd `g`.
pub proof fn lemma_lcm_value(a: nat, b: nat, g: nat)
    requires
        gcd_spec(a, b) == g,
    ensures
        lcm_spec(a, b) == (a / g) * b,
{
}

/// The gcds and lcms of the stack's constants.
pub proof fn lemma_stack_values()
    ensures
        gcd_spec(260, 365) == 5,
        gcd_spec(584, 365) == 73,
        gcd_spec(11_960, 93) == 1,
        gcd_spec(1_872_000, 18_980) == 260,
        gcd_spec(4, 5) == 1 && gcd_spec(4, 13) == 1 && gcd_spec(4, 73) == 1,
        gcd_spec(5, 13) == 1 && gcd_spec(5, 73) == 1 && gcd_spec(13, 73) == 1,
        lcm_spec(65, 365) == 4_745,
        lcm_spec(130, 365) == 9_490,
        lcm_spec(195, 365) == 14_235,
        lcm_spec(260, 365) == 18_980,
        lcm_spec(325, 365) == 23_725,
        lcm_spec(91, 365) == 33_215,
        lcm_spec(143, 365) == 52_195,
        lcm_spec(182, 365) == 66_430,
        lcm_spec(584, 365) == 2_920,
        lcm_spec(9, 7) == 63,
        lcm_spec(63, 13) == 819,
        lcm_spec(11_960, 93) == 1_112_280,
{
    reveal_with_fuel(gcd_spec, 10);
    assert(gcd_spec(65, 365) == 5 && gcd_spec(130, 365) == 5 && gcd_spec(195, 365) == 5);
    assert(gcd_spec(260, 365) == 5 && gcd_spec(325, 365) == 5 && gcd_spec(584, 365) == 73);
    assert(gcd_spec(91, 365) == 1 && gcd_spec(143, 365) == 1 && gcd_spec(182, 365) == 1);
    assert(gcd_spec(9, 7) == 1);
    assert(gcd_spec(63, 13) == 1);
    assert(gcd_spec(19, 18) == 1);
    assert(gcd_spec(56, 37) == 1);
    assert(gcd_spec(11_960, 93) == 1);
    assert(gcd_spec(1_872_000, 18_980) == 260);
    assert(gcd_spec(4, 5) == 1 && gcd_spec(4, 13) == 1 && gcd_spec(4, 73) == 1);
    assert(gcd_spec(5, 13) == 1 && gcd_spec(5, 73) == 1 && gcd_spec(13, 73) == 1);
    lemma_lcm_value(65, 365, 5);
    lemma_lcm_value(130, 365, 5);
    lemma_lcm_value(195, 365, 5);
    lemma_lcm_value(260, 365, 5);
    lemma_lcm_value(325, 365, 5);
    lemma_lcm_value(91, 365, 1);
    lemma_lcm_value(143, 365, 1);
    lemma_lcm_value(182, 365, 1);
    lemma_lcm_value(584, 365, 73);
    lemma_lcm_value(9, 7, 1);
    lemma_lcm_value(63, 13, 1);
    lemma_lcm_value(11_960, 93, 1);
}

/// The names of the ten theorems, in order.
pub open spec fn theorem_names() -> Seq<&'static str> {
    seq!["T1", "T2", "T3", "T4", "T5", "T6", "T7", "T8", "T9", "T10"]
}

/// Runs the ten theorems in order, each with its name: nine pass and the
/// fourth is conditional.
pub fn run_full_stack() -> (v: Vec<(&'static str, TheoremResult)>)
    ensures
        v@.len() == 10,
        forall|k: int| 0 <= k < 10 ==> (#[trigger] v@[k]).0 == theorem_names()[k],
        passes_with(v@[0].1, theorems::t1_witness()),
        passes_with(v@[1].1, theorems::t2_witness()),
        passes_with(v@[2].1, theorems::t3_witness()),
        theorems::t4_outcome(v@[3].1),
        passes_with(v@[4].1, theorems::t5_witness()),
        passes_with(v@[5].1, theorems::t6_witness()),
        passes_with(v@[6].1, theorems::t7_witness()),
        passes_with(v@[7].1, lemmas::l8_witness()),
        passes_with(v@[8].1, lemmas::l9_witness()),
        passes_with(v@[9].1, theorems::t10_witness()),
{
    let v = vec![
        ("T1", theorems::t1_calendar_round_as_crt_torus()),
        ("T2", theorems::t2_tzolkin_minimum()),
        ("T3", theorems::t3_819_three_tier()),
        ("T4", theorems::t4_long_count_covers_calendar_round()),
        ("T5", theorems::t5_eclipse_two_phase_lift()),
        ("T6", theorems::t6_venus_sun_73()),
        ("T7", theorems::t7_eleven_astronomically_absent()),
        ("T8", theorems::t8_saturn_shadow_power()),
        ("T9", theorems::t9_mars_closes_tzolkin()),
        ("T10", theorems::t10_s_r_distribution()),
    ];
    v
}

} // verus!
