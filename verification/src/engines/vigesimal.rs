//! The Maya base-20 number system as the CRT product `ℤ/4 × ℤ/5`: a value
//! below 20 is its pair of residues, and addition and multiplication act
//! lane by lane.

use vstd::prelude::*;
use vstd::arithmetic::div_mod::{lemma_add_mod_noop, lemma_mul_mod_noop};
use crate::engines::lane::{Lane, MayaState, same_lane, valid_state};
use crate::engines::pisano::{
    PisanoError, fib, fibonacci_mod_sequence, is_pisano_period, returns_to_origin,
};

verus! {

/// Errors of the vigesimal engine.
#[derive(Clone, Debug, PartialEq, Eq, Structural)]
pub enum VigesimalError {
    /// A value to encode is 20 or more.
    OutOfRange(u64),
    /// A state does not carry the `[quad, pent]` lanes.
    MalformedState,
    /// The Pisano helper failed.
    Pisano(PisanoError),
}

/// The vigesimal engine.
pub struct Vigesimal;

/// The quadrant lane `ℤ/4`.
pub open spec fn quad_lane_spec() -> Lane {
    Lane { name: "quad", modulus: 4, domain: "spatial-quadrant" }
}

/// The pentadic lane `ℤ/5`.
pub open spec fn pent_lane_spec() -> Lane {
    Lane { name: "pent", modulus: 5, domain: "elemental" }
}

/// The lanes of a vigesimal state are exactly `[quad, pent]`.
pub open spec fn vigesimal_lanes(l: Seq<Lane>) -> bool {
    l.len() == 2 && same_lane(l[0], quad_lane_spec()) && same_lane(l[1], pent_lane_spec())
}

/// The residue pair of `v`.
pub open spec fn vigesimal_residues(v: nat) -> Seq<u64> {
    seq![(v % 4) as u64, (v % 5) as u64]
}

/// The CRT value `(5·r₀ + 16·r₁) mod 20` of a residue pair.
pub open spec fn vigesimal_value(r: Seq<u64>) -> nat {
    ((5 * r[0] + 16 * r[1]) % 20) as nat
}

/// Lane-wise sum of two residue pairs.
pub open spec fn vigesimal_sum(a: Seq<u64>, b: Seq<u64>) -> Seq<u64> {
    seq![((a[0] + b[0]) % 4) as u64, ((a[1] + b[1]) % 5) as u64]
}

/// Lane-wise product of two residue pairs.
pub open spec fn vigesimal_product(a: Seq<u64>, b: Seq<u64>) -> Seq<u64> {
    seq![((a[0] * b[0]) % 4) as u64, ((a[1] * b[1]) % 5) as u64]
}

/// The CRT value of the residue pair of `x` is `x mod 20`.
pub proof fn lemma_vigesimal_crt(x: nat)
    ensures
        vigesimal_value(vigesimal_residues(x)) == x % 20,
{
    let y = x % 20;
    vstd::arithmetic::div_mod::lemma_mod_mod(x as int, 4, 5);
    vstd::arithmetic::div_mod::lemma_mod_mod(x as int, 5, 4);
    assert(x % 4 == y % 4 && x % 5 == y % 5) by {
        assert(4 * 5 == 20 && 5 * 4 == 20);
    }
    assert(y < 20);
    assert((5 * (y % 4) + 16 * (y % 5)) % 20 == y) by (nonlinear_arith)
        requires
            y < 20,
    {
        assert(y == 0 || y == 1 || y == 2 || y == 3 || y == 4 || y == 5 || y == 6 || y == 7 || y
            == 8 || y == 9 || y == 10 || y == 11 || y == 12 || y == 13 || y == 14 || y == 15 || y
            == 16 || y == 17 || y == 18 || y == 19);
    }
}

/// Decoding inverts encoding on `[0, 20)`.
pub proof fn lemma_vigesimal_round_trip(v: nat)
    requires
        v < 20,
    ensures
        vigesimal_value(vigesimal_residues(v)) == v,
{
    lemma_vigesimal_crt(v);
    vstd::arithmetic::div_mod::lemma_small_mod(v, 20);
}

/// Lane-wise addition decodes to addition modulo 20.
pub proof fn lemma_vigesimal_add_homomorphic(a: nat, b: nat)
    ensures
        vigesimal_value(vigesimal_sum(vigesimal_residues(a), vigesimal_residues(b))) == (a + b)
            % 20,
{
    lemma_add_mod_noop(a as int, b as int, 4);
    lemma_add_mod_noop(a as int, b as int, 5);
    assert(vigesimal_sum(vigesimal_residues(a), vigesimal_residues(b)) =~= vigesimal_residues(
        a + b,
    ));
    lemma_vigesimal_crt(a + b);
}

/// Lane-wise multiplication decodes to multiplication modulo 20.
pub proof fn lemma_vigesimal_mul_homomorphic(a: nat, b: nat)
    ensures
        vigesimal_value(vigesimal_product(vigesimal_residues(a), vigesimal_residues(b))) == (a
            * b) % 20,
{
    lemma_mul_mod_noop(a as int, b as int, 4);
    lemma_mul_mod_noop(a as int, b as int, 5);
    assert(vigesimal_product(vigesimal_residues(a), vigesimal_residues(b)) =~= vigesimal_residues(
        a * b,
    ));
    lemma_vigesimal_crt(a * b);
}

impl Vigesimal {
    /// The quadrant lane `ℤ/4`, four spatial quadrants.
    pub fn quad_lane() -> (l: Lane)
        ensures
            l == quad_lane_spec(),
    {
        Lane { name: "quad", modulus: 4, domain: "spatial-quadrant" }
    }

    /// The pentadic lane `ℤ/5`, five elemental states.
    pub fn pent_lane() -> (l: Lane)
        ensures
            l == pent_lane_spec(),
    {
        Lane { name: "pent", modulus: 5, domain: "elemental" }
    }

    fn state_of(r0: u64, r1: u64) -> (s: MayaState)
        requires
            r0 < 4,
            r1 < 5,
        ensures
            s.res() == seq![r0, r1],
            s.lns() == seq![quad_lane_spec(), pent_lane_spec()],
    {
        let residues = vec![r0, r1];
        let lanes = vec![Self::quad_lane(), Self::pent_lane()];
        assert(valid_state(residues@, lanes@));
        MayaState::from_valid(residues, lanes)
    }

    /// Encodes `0 ≤ value < 20` as its residue pair over `[quad, pent]`.
    pub fn encode(value: u64) -> (r: Result<MayaState, VigesimalError>)
        ensures
            value >= 20 ==> r == Err::<MayaState, VigesimalError>(
                VigesimalError::OutOfRange(value),
            ),
            value < 20 ==> (r matches Ok(s) && s.res() == vigesimal_residues(value as nat)
                && s.lns() == seq![quad_lane_spec(), pent_lane_spec()]),
    {
        if value >= 20 {
            return Err(VigesimalError::OutOfRange(value));
        }
        let s = Self::state_of(value % 4, value % 5);
        assert(s.res() =~= vigesimal_residues(value as nat));
        Ok(s)
    }

    /// Checks that `state` carries exactly the `[quad, pent]` lanes.
    pub fn validate(state: &MayaState) -> (r: Result<(), VigesimalError>)
        ensures
            vigesimal_lanes(state.lns()) ==> r is Ok,
            !vigesimal_lanes(state.lns()) ==> r == Err::<(), VigesimalError>(
                VigesimalError::MalformedState,
            ),
    {
        let lanes = state.lanes();
        if state.lane_count() != 2 || !lanes[0].same(&Self::quad_lane()) || !lanes[1].same(
            &Self::pent_lane(),
        ) {
            return Err(VigesimalError::MalformedState);
        }
        Ok(())
    }

    /// CRT reconstruction `(5·r₀ + 16·r₁) mod 20` of a vigesimal state.
    pub fn decode(state: &MayaState) -> (r: Result<u64, VigesimalError>)
        ensures
            vigesimal_lanes(state.lns()) ==> r == Ok::<u64, VigesimalError>(
                vigesimal_value(state.res()) as u64,
            ),
            !vigesimal_lanes(state.lns()) ==> r == Err::<u64, VigesimalError>(
                VigesimalError::MalformedState,
            ),
    {
        Self::validate(state)?;
        let res = state.residues();
        let r1 = res[0];
        let r2 = res[1];
        Ok((r1 * 5 + r2 * 16) % 20)
    }

    /// Lane-wise addition of two vigesimal states.
    pub fn add(a: &MayaState, b: &MayaState) -> (r: Result<MayaState, VigesimalError>)
        ensures
            !vigesimal_lanes(a.lns()) || !vigesimal_lanes(b.lns()) ==> r == Err::<
                MayaState,
                VigesimalError,
            >(VigesimalError::MalformedState),
            vigesimal_lanes(a.lns()) && vigesimal_lanes(b.lns()) ==> (r matches Ok(s) && s.res()
                == vigesimal_sum(a.res(), b.res()) && s.lns() == seq![
                quad_lane_spec(),
                pent_lane_spec(),
            ]),
    {
        Self::validate(a)?;
        Self::validate(b)?;
        let ra = a.residues();
        let rb = b.residues();
        let s = Self::state_of((ra[0] + rb[0]) % 4, (ra[1] + rb[1]) % 5);
        assert(s.res() =~= vigesimal_sum(a.res(), b.res()));
        Ok(s)
    }

    /// Lane-wise multiplication of two vigesimal states.
    pub fn mul(a: &MayaState, b: &MayaState) -> (r: Result<MayaState, VigesimalError>)
        ensures
            !vigesimal_lanes(a.lns()) || !vigesimal_lanes(b.lns()) ==> r == Err::<
                MayaState,
                VigesimalError,
            >(VigesimalError::MalformedState),
            vigesimal_lanes(a.lns()) && vigesimal_lanes(b.lns()) ==> (r matches Ok(s) && s.res()
                == vigesimal_product(a.res(), b.res()) && s.lns() == seq![
                quad_lane_spec(),
                pent_lane_spec(),
            ]),
    {
        Self::validate(a)?;
        Self::validate(b)?;
        let ra = a.residues();
        let rb = b.residues();
        assert(ra[0] < 4 && rb[0] < 4 && ra[1] < 5 && rb[1] < 5);
        assert(ra[0] * rb[0] < 16 && ra[1] * rb[1] < 25) by (nonlinear_arith)
            requires
                ra[0] < 4,
                rb[0] < 4,
                ra[1] < 5,
                rb[1] < 5,
        ;
        let s = Self::state_of((ra[0] * rb[0]) % 4, (ra[1] * rb[1]) % 5);
        assert(s.res() =~= vigesimal_product(a.res(), b.res()));
        Ok(s)
    }

    /// The Fibonacci orbit through the vigesimal residue space: one state
    /// per step of the Pisano period of 20, state `k` encoding `F_k mod 20`.
    pub fn fibonacci_orbit() -> (r: Result<Vec<MayaState>, VigesimalError>)
        ensures
            r is Ok,
            match r {
                Ok(orbit) => {
                    &&& is_pisano_period(20, orbit.len() as nat)
                    &&& forall|k: int|
                        0 <= k < orbit.len() ==> (#[trigger] orbit@[k]).res() == vigesimal_residues(
                            fib(k as nat) % 20,
                        ) && orbit@[k].lns() == seq![quad_lane_spec(), pent_lane_spec()]
                },
                Err(e) => e == VigesimalError::Pisano(PisanoError::ModulusTooLarge(20)) && forall|
                    k: nat,
                | 1 <= k <= 120 ==> !#[trigger] returns_to_origin(20, k),
            },
    {
        let seq = match fibonacci_mod_sequence(20) {
            Ok(seq) => seq,
            Err(e) => {
                return Err(VigesimalError::Pisano(e));
            },
        };
        let mut orbit: Vec<MayaState> = Vec::new();
        let mut i: usize = 0;
        while i < seq.len()
            invariant
                0 <= i <= seq.len(),
                orbit.len() == i,
                forall|j: int| 0 <= j < seq.len() ==> #[trigger] seq@[j] as nat == fib(j as nat) % 20,
                forall|k: int|
                    0 <= k < i ==> (#[trigger] orbit@[k]).res() == vigesimal_residues(
                        fib(k as nat) % 20,
                    ) && orbit@[k].lns() == seq![quad_lane_spec(), pent_lane_spec()],
            decreases seq.len() - i,
        {
            let v = seq[i];
            assert(v < 20);
            let s = Self::state_of(v % 4, v % 5);
            assert(s.res() =~= vigesimal_residues(fib(i as nat) % 20));
            orbit.push(s);
            i = i + 1;
        }
        Ok(orbit)
    }
}

} // verus!
