//! The Tzolk'in as the CRT product `ℤ/13 × ℤ/20`: a tone lane and a
//! day-sign lane whose 260 residue pairs are the 260 days of the cycle.

use vstd::prelude::*;
use vstd::arithmetic::div_mod::{lemma_fundamental_div_mod, lemma_mod_mod, lemma_mod_multiples_basic};
use crate::engines::lane::{Lane, MayaState, same_lane, valid_state};
use crate::engines::pisano::{
    PisanoError, fib, fibonacci_mod_sequence, is_pisano_period, returns_to_origin,
};
use crate::h4_visual::dayname::{DayNameGlyph, day_of_ordinal, from_ordinal};
use crate::text::{concat, decimal_string, decimal_text};

verus! {

/// Errors of the Tzolk'in engine.
#[derive(Clone, Debug, PartialEq, Eq, Structural)]
pub enum TzolkinError {
    /// Tone outside `1..=13`.
    ToneOutOfRange(u64),
    /// Day-sign ordinal outside `0..=19`.
    GlyphOutOfRange(u64),
    /// A state does not carry the `[tone, sign]` lanes.
    MalformedState,
    /// The Pisano helper failed.
    Pisano(PisanoError),
}

/// The Tzolk'in engine.
pub struct Tzolkin;

/// The tone lane `ℤ/13`.
pub open spec fn tone_lane_spec() -> Lane {
    Lane { name: "tone", modulus: 13, domain: "consciousness" }
}

/// The day-sign lane `ℤ/20`.
pub open spec fn sign_lane_spec() -> Lane {
    Lane { name: "sign", modulus: 20, domain: "identity" }
}

/// The lanes of a Tzolk'in state are exactly `[tone, sign]`.
pub open spec fn tzolkin_lanes(l: Seq<Lane>) -> bool {
    l.len() == 2 && same_lane(l[0], tone_lane_spec()) && same_lane(l[1], sign_lane_spec())
}

/// The residue pair of day `d`.
pub open spec fn tzolkin_residues(d: nat) -> Seq<u64> {
    seq![(d % 13) as u64, (d % 20) as u64]
}

/// The CRT day `(40·r₀ + 221·r₁) mod 260` of a residue pair.
pub open spec fn tzolkin_day(r: Seq<u64>) -> nat {
    ((40 * r[0] + 221 * r[1]) % 260) as nat
}

/// Two integers agreeing modulo 13 and modulo 20 agree modulo 260.
pub proof fn lemma_crt_13_20(z: int, y: int)
    requires
        (z - y) % 13 == 0,
        (z - y) % 20 == 0,
    ensures
        z % 260 == y % 260,
{
    let w = z - y;
    lemma_fundamental_div_mod(w, 13);
    lemma_fundamental_div_mod(w, 20);
    let j = w / 13;
    let k = w / 20;
    assert(k == 13 * (2 * j - 3 * k));
    let m = 2 * j - 3 * k;
    assert(w == 260 * m);
    lemma_mod_multiples_basic(m, 260);
    lemma_fundamental_div_mod(y, 260);
    let q = y / 260;
    assert(z == 260 * (m + q) + y % 260);
    vstd::arithmetic::div_mod::lemma_fundamental_div_mod_converse(z, 260, m + q, y % 260);
}

/// The CRT day of the residue pair of `d` is `d mod 260`.
pub proof fn lemma_tzolkin_crt(d: nat)
    ensures
        tzolkin_day(tzolkin_residues(d)) == d % 260,
{
    let a = d % 13;
    let b = d % 20;
    lemma_fundamental_div_mod(d as int, 13);
    lemma_fundamental_div_mod(d as int, 20);
    let qa = d / 13;
    let qb = d / 20;
    let z = 40 * a + 221 * b;
    assert(z - d == 13 * (3 * a + 17 * b - qa));
    assert(z - d == 20 * (2 * a + 11 * b - qb));
    lemma_mod_multiples_basic(3 * a + 17 * b - qa, 13);
    lemma_mod_multiples_basic(2 * a + 11 * b - qb, 20);
    assert((13 * (3 * a + 17 * b - qa)) % 13 == 0);
    lemma_crt_13_20(z as int, d as int);
}

/// Days with the same residue pair are the same day of the 260-day cycle.
pub proof fn lemma_tzolkin_injective(d1: nat, d2: nat)
    requires
        tzolkin_residues(d1) == tzolkin_residues(d2),
    ensures
        d1 % 260 == d2 % 260,
{
    lemma_tzolkin_crt(d1);
    lemma_tzolkin_crt(d2);
}

/// The residue pair depends only on the day modulo 260.
pub proof fn lemma_tzolkin_periodic(d: nat)
    ensures
        tzolkin_residues(d + 260) == tzolkin_residues(d),
{
    assert((d + 260) % 13 == d % 13);
    assert((d + 260) % 20 == d % 20);
    assert(tzolkin_residues(d + 260) =~= tzolkin_residues(d));
}

impl Tzolkin {
    /// The tone lane `ℤ/13`.
    pub fn tone_lane() -> (l: Lane)
        ensures
            l == tone_lane_spec(),
    {
        Lane { name: "tone", modulus: 13, domain: "consciousness" }
    }

    /// The day-sign lane `ℤ/20`.
    pub fn sign_lane() -> (l: Lane)
        ensures
            l == sign_lane_spec(),
    {
        Lane { name: "sign", modulus: 20, domain: "identity" }
    }

    fn state_of(r0: u64, r1: u64) -> (s: MayaState)
        requires
            r0 < 13,
            r1 < 20,
        ensures
            s.res() == seq![r0, r1],
            s.lns() == seq![tone_lane_spec(), sign_lane_spec()],
    {
        let residues = vec![r0, r1];
        let lanes = vec![Self::tone_lane(), Self::sign_lane()];
        assert(valid_state(residues@, lanes@));
        MayaState::from_valid(residues, lanes)
    }

    /// A state from a 1-based tone `1..=13` and a 0-based day-sign
    /// ordinal `0..=19`.
    pub fn new(tone: u64, glyph_ordinal: u64) -> (r: Result<MayaState, TzolkinError>)
        ensures
            !(1 <= tone <= 13) ==> r == Err::<MayaState, TzolkinError>(
                TzolkinError::ToneOutOfRange(tone),
            ),
            1 <= tone <= 13 && glyph_ordinal >= 20 ==> r == Err::<MayaState, TzolkinError>(
                TzolkinError::GlyphOutOfRange(glyph_ordinal),
            ),
            1 <= tone <= 13 && glyph_ordinal < 20 ==> (r matches Ok(s) && s.res() == seq![
                (tone - 1) as u64,
                glyph_ordinal,
            ] && s.lns() == seq![tone_lane_spec(), sign_lane_spec()]),
    {
        if !(1 <= tone && tone <= 13) {
            return Err(TzolkinError::ToneOutOfRange(tone));
        }
        if glyph_ordinal >= 20 {
            return Err(TzolkinError::GlyphOutOfRange(glyph_ordinal));
        }
        Ok(Self::state_of((tone - 1) % 13, glyph_ordinal % 20))
    }

    /// A state from a tone and a typed day sign.
    pub fn from_glyph(tone: u64, glyph: DayNameGlyph) -> (r: Result<MayaState, TzolkinError>)
        ensures
            !(1 <= tone <= 13) ==> r == Err::<MayaState, TzolkinError>(
                TzolkinError::ToneOutOfRange(tone),
            ),
            1 <= tone <= 13 ==> (r matches Ok(s) && s.res() == seq![
                (tone - 1) as u64,
                glyph.ordinal_value(),
            ] && s.lns() == seq![tone_lane_spec(), sign_lane_spec()]),
    {
        let ord = <DayNameGlyph as crate::h4_visual::alphabet::GlyphAlphabet<6>>::ordinal(&glyph);
        Self::new(tone, ord)
    }

    /// The state of Tzolk'in day `day`, reduced modulo the cycle.
    pub fn from_day(day: u64) -> (s: MayaState)
        ensures
            s.res() == tzolkin_residues(day as nat),
            s.lns() == seq![tone_lane_spec(), sign_lane_spec()],
    {
        let s = Self::state_of(day % 13, day % 20);
        assert(s.res() =~= tzolkin_residues(day as nat));
        s
    }

    /// Checks that `state` carries exactly the `[tone, sign]` lanes.
    pub fn validate(state: &MayaState) -> (r: Result<(), TzolkinError>)
        ensures
            tzolkin_lanes(state.lns()) ==> r is Ok,
            !tzolkin_lanes(state.lns()) ==> r == Err::<(), TzolkinError>(
                TzolkinError::MalformedState,
            ),
    {
        let lanes = state.lanes();
        if state.lane_count() != 2 || !lanes[0].same(&Self::tone_lane()) || !lanes[1].same(
            &Self::sign_lane(),
        ) {
            return Err(TzolkinError::MalformedState);
        }
        Ok(())
    }

    /// The day `0..=259` of a Tzolk'in state by CRT.
    pub fn to_day_number(state: &MayaState) -> (r: Result<u64, TzolkinError>)
        ensures
            tzolkin_lanes(state.lns()) ==> r == Ok::<u64, TzolkinError>(
                tzolkin_day(state.res()) as u64,
            ),
            !tzolkin_lanes(state.lns()) ==> r == Err::<u64, TzolkinError>(
                TzolkinError::MalformedState,
            ),
    {
        Self::validate(state)?;
        let res = state.residues();
        let tone_0 = res[0];
        let sign = res[1];
        Ok((tone_0 * 40 + sign * 221) % 260)
    }

    /// Renders a state as `"<tone> <day sign>"`, the tone 1-based.
    pub fn display(state: &MayaState) -> (r: Result<String, TzolkinError>)
        ensures
            !tzolkin_lanes(state.lns()) ==> r == Err::<String, TzolkinError>(
                TzolkinError::MalformedState,
            ),
            tzolkin_lanes(state.lns()) ==> (r matches Ok(s) && day_of_ordinal(state.res()[1])
                matches Some(g) && s@ == decimal_text((state.res()[0] + 1) as nat) + seq![' ']
                + g.name_spec()@),
    {
        Self::validate(state)?;
        let res = state.residues();
        let tone = res[0] + 1;
        let sign_idx = res[1];
        let glyph = match from_ordinal(sign_idx) {
            Some(g) => g,
            None => {
                return Err(TzolkinError::GlyphOutOfRange(sign_idx));
            },
        };
        let s = concat(decimal_string(tone).as_str(), " ");
        let s = concat(s.as_str(), glyph.name());
        proof {
            reveal_strlit(" ");
        }
        Ok(s)
    }

    /// One Pisano period of Fibonacci residues modulo 13, the tone
    /// lane's intrinsic pattern.
    pub fn fibonacci_tone_pattern() -> (r: Result<Vec<u64>, TzolkinError>)
        ensures
            r is Ok,
            match r {
                Ok(seq) => {
                    &&& is_pisano_period(13, seq.len() as nat)
                    &&& forall|i: int| 0 <= i < seq.len() ==> #[trigger] seq@[i] as nat == fib(
                        i as nat,
                    ) % 13
                },
                Err(e) => e == TzolkinError::Pisano(PisanoError::ModulusTooLarge(13)) && forall|
                    k: nat,
                | 1 <= k <= 78 ==> !#[trigger] returns_to_origin(13, k),
            },
    {
        match fibonacci_mod_sequence(13) {
            Ok(seq) => Ok(seq),
            Err(e) => Err(TzolkinError::Pisano(e)),
        }
    }
}

} // verus!
