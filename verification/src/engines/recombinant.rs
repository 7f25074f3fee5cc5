//! Winding-preserving residue arithmetic: a `RecombinantState` stands for
//! `x = r + K·M`, with `r` the CRT residue tuple over the lanes, `K` the
//! number of full `M`-cycles and `M` the product of the lane moduli, so
//! that accumulation is lossless even past `M`.

use vstd::prelude::*;
use crate::engines::lane::{Lane, MayaState, MayaStateError, same_lane, same_lanes, copy_lanes,
    valid_state};
use crate::h4_montgomery::{egcd_spec, lemma_egcd_bezout, lemma_signed_rem};
use crate::engines::ramanujan::gcd_spec;
use vstd::arithmetic::div_mod::{lemma_fundamental_div_mod, lemma_fundamental_div_mod_converse,
    lemma_mod_multiples_basic, lemma_mod_multiples_vanish, lemma_small_mod, lemma_mod_bound};

verus! {

/// Errors of recombinant arithmetic.
#[derive(Clone, Debug, PartialEq, Eq, Structural)]
pub enum RecombinantError {
    /// The underlying residue state could not be built.
    State(MayaStateError),
    /// The lane configurations of the operands differ.
    LaneMismatch,
    /// A result does not fit.
    Overflow,
}

impl From<MayaStateError> for RecombinantError {
    fn from(e: MayaStateError) -> (r: Self) {
        RecombinantError::State(e)
    }
}

impl vstd::std_specs::convert::FromSpecImpl<MayaStateError> for RecombinantError {
    open spec fn obeys_from_spec() -> bool {
        true
    }

    open spec fn from_spec(e: MayaStateError) -> RecombinantError {
        RecombinantError::State(e)
    }
}

/// Product of the first `n` lane moduli.
pub open spec fn prefix_product(l: Seq<Lane>, n: nat) -> nat
    decreases n,
{
    if n == 0 {
        1
    } else {
        prefix_product(l, (n - 1) as nat) * (l[n - 1].modulus as nat)
    }
}

/// Product of all lane moduli.
pub open spec fn lane_product(l: Seq<Lane>) -> nat {
    prefix_product(l, l.len())
}

/// The product of the first `n` moduli accumulated in `u128` with an
/// overflow check at each step: `None` at the first overflow.
pub open spec fn checked_product(l: Seq<Lane>, n: nat) -> Option<nat>
    decreases n,
{
    if n == 0 {
        Some(1)
    } else {
        match checked_product(l, (n - 1) as nat) {
            None => None,
            Some(p) => if p * (l[n - 1].modulus as nat) > u128::MAX {
                None
            } else {
                Some(p * (l[n - 1].modulus as nat))
            },
        }
    }
}

proof fn lemma_checked_product(l: Seq<Lane>, n: nat)
    requires
        n <= l.len(),
    ensures
        checked_product(l, n) matches Some(p) ==> p == prefix_product(l, n) && p <= u128::MAX,
        checked_product(l, n) is None ==> prefix_product(l, n) > u128::MAX || exists|j: int|
            0 <= j < n && l[j].modulus == 0,
    decreases n,
{
    if n > 0 {
        lemma_checked_product(l, (n - 1) as nat);
        if checked_product(l, (n - 1) as nat) is None {
            if prefix_product(l, (n - 1) as nat) > u128::MAX {
                if l[n - 1].modulus == 0 {
                } else {
                    assert(prefix_product(l, (n - 1) as nat) * l[n - 1].modulus >= prefix_product(
                        l,
                        (n - 1) as nat,
                    )) by (nonlinear_arith)
                        requires
                            l[n - 1].modulus >= 1,
                    ;
                }
            }
        }
    }
}

/// A nonzero product has no zero factor, and each prefix divides it
/// and is at most it.
proof fn lemma_prefix_nonzero(l: Seq<Lane>, n: nat, k: nat)
    requires
        k <= n <= l.len(),
        prefix_product(l, n) != 0,
    ensures
        forall|j: int| 0 <= j < n ==> #[trigger] l[j].modulus > 0,
        1 <= prefix_product(l, k) <= prefix_product(l, n),
    decreases n,
{
    if n > 0 {
        let p = prefix_product(l, (n - 1) as nat);
        let m = l[n - 1].modulus as nat;
        assert(p != 0 && m != 0) by (nonlinear_arith)
            requires
                p * m != 0,
        ;
        lemma_prefix_nonzero(l, (n - 1) as nat, if k < n { k } else { (n - 1) as nat });
        assert(p <= p * m) by (nonlinear_arith)
            requires
                m >= 1,
        ;
    }
}

/// The inverse `egcd(a, m).x mod m` that extended Euclid gives.
pub open spec fn inv_spec(a: nat, m: nat) -> nat {
    (egcd_spec(a, m).1 % (m as int)) as nat
}

/// Garner's mixed-radix digit for lane `i`, given the value `x` built
/// over the lanes before it: `(rᵢ − x)·P⁻¹ mod pᵢ`, `P` the product of
/// the moduli before lane `i`.
pub closed spec fn garner_step(x: nat, r: Seq<u64>, l: Seq<Lane>, i: nat) -> nat {
    let p = l[i as int].modulus as nat;
    let pre = prefix_product(l, i);
    let t = ((r[i as int] + 10 * p - x % p) % (p as int)) as nat;
    (t * inv_spec(pre % p, p)) % p
}

/// Garner's reconstruction over the first `n` lanes.
pub closed spec fn garner_partial(r: Seq<u64>, l: Seq<Lane>, n: nat) -> nat
    decreases n,
{
    if n == 0 {
        0
    } else {
        let x = garner_partial(r, l, (n - 1) as nat);
        x + garner_step(x, r, l, (n - 1) as nat) * prefix_product(l, (n - 1) as nat)
    }
}

/// Garner's mixed-radix reconstruction of the residue part; on coprime
/// lanes it is `residue_value(r, l)` (`lemma_garner_is_residue_value`).
pub closed spec fn garner_spec(r: Seq<u64>, l: Seq<Lane>) -> nat {
    garner_partial(r, l, l.len())
}

/// The value below `M` whose residues over the lanes are `r`: on
/// pairwise-coprime lanes there is exactly one.
pub open spec fn residue_value(r: Seq<u64>, l: Seq<Lane>) -> nat {
    choose|y: nat| y < lane_product(l) && residues_of(y, l) == r
}

/// A digit is below its lane's modulus, so the partial value stays below
/// the prefix product.
proof fn lemma_garner_bound(r: Seq<u64>, l: Seq<Lane>, n: nat)
    requires
        n <= l.len(),
        forall|j: int| 0 <= j < n ==> #[trigger] l[j].modulus > 0,
    ensures
        garner_partial(r, l, n) < prefix_product(l, n),
    decreases n,
{
    if n > 0 {
        let k = (n - 1) as nat;
        lemma_garner_bound(r, l, k);
        let x = garner_partial(r, l, k);
        let p = l[k as int].modulus as nat;
        let v = garner_step(x, r, l, k);
        let pre = prefix_product(l, k);
        assert(v < p);
        assert(x + v * pre < pre * p) by (nonlinear_arith)
            requires
                x < pre,
                v < p,
                v >= 0,
        ;
    }
}

/// Extended Euclid's coefficients `(x, y)` with `a·x + b·y = gcd(a, b)`.
fn egcd_coeffs(a: i128, b: i128) -> (r: (i128, i128))
    requires
        0 <= a <= u64::MAX,
        0 <= b <= u64::MAX,
    ensures
        r.0 == egcd_spec(a as nat, b as nat).1,
        r.1 == egcd_spec(a as nat, b as nat).2,
    decreases b,
{
    proof {
        lemma_egcd_bezout(a as nat, b as nat);
    }
    if b == 0 {
        return (1, 0);
    }
    let (x1, y1) = egcd_coeffs(b, a % b);
    proof {
        lemma_egcd_bezout(b as nat, (a % b) as nat);
        let q = a / b;
        assert(q * y1 <= a && -a <= q * y1 || q == 0) by (nonlinear_arith)
            requires
                -(if b > 1 { b as int } else { 1 }) <= y1 <= (if b > 1 { b as int } else { 1 }),
                q == a / b,
                b >= 1,
                a >= 0,
        {
            vstd::arithmetic::div_mod::lemma_fundamental_div_mod(a as int, b as int);
        }
    }
    (y1, x1 - (a / b) * y1)
}

/// `a⁻¹ mod m` by extended Euclid, reduced into `[0, m)`.
fn mod_inv(a: u64, m: u64) -> (r: u64)
    requires
        m > 0,
    ensures
        r == inv_spec(a as nat, m as nat),
{
    let (x, _) = egcd_coeffs(a as i128, m as i128);
    proof {
        lemma_egcd_bezout(a as nat, m as nat);
    }
    let mi = m as i128;
    let xm = x % mi;
    proof {
        lemma_signed_rem(x as int, mi as int, xm as int);
        vstd::arithmetic::div_mod::lemma_mod_bound(x as int, mi as int);
        if xm >= 0 {
            vstd::arithmetic::div_mod::lemma_mod_add_multiples_vanish(xm as int, mi as int);
            vstd::arithmetic::div_mod::lemma_small_mod(xm as nat, mi as nat);
        } else {
            vstd::arithmetic::div_mod::lemma_small_mod((xm + mi) as nat, mi as nat);
        }
    }
    let inv = (xm + mi) % mi;
    inv as u64
}

/// The product of the lane moduli in `u128`, refusing an overflow.
fn product_of_moduli(lanes: &[Lane]) -> (r: Result<u128, RecombinantError>)
    ensures
        match checked_product(lanes@, lanes@.len()) {
            Some(p) => r == Ok::<u128, RecombinantError>(p as u128),
            None => r == Err::<u128, RecombinantError>(RecombinantError::Overflow),
        },
{
    let mut prod: u128 = 1;
    let mut i: usize = 0;
    while i < lanes.len()
        invariant
            0 <= i <= lanes.len(),
            checked_product(lanes@, i as nat) == Some(prod as nat),
        decreases lanes.len() - i,
    {
        match prod.checked_mul(lanes[i].modulus as u128) {
            Some(p) => {
                prod = p;
            },
            None => {
                proof {
                    let mut k: nat = (i + 1) as nat;
                    assert(checked_product(lanes@, (i + 1) as nat) is None);
                    lemma_none_stays(lanes@, (i + 1) as nat, lanes@.len());
                }
                return Err(RecombinantError::Overflow);
            },
        }
        i = i + 1;
    }
    Ok(prod)
}

proof fn lemma_none_stays(l: Seq<Lane>, k: nat, n: nat)
    requires
        k <= n,
        checked_product(l, k) is None,
    ensures
        checked_product(l, n) is None,
    decreases n - k,
{
    if k < n {
        lemma_none_stays(l, k, (n - 1) as nat);
    }
}

/// The residues `r mod pᵢ` of `r` over the lanes.
pub open spec fn residues_of(r: nat, l: Seq<Lane>) -> Seq<u64> {
    Seq::new(l.len(), |i: int| (r % (l[i].modulus as nat)) as u64)
}

/// The residues of `r` over the lanes, one per lane.
fn residues_for(r: u64, lanes: &[Lane]) -> (v: Vec<u64>)
    requires
        forall|j: int| 0 <= j < lanes@.len() ==> #[trigger] lanes@[j].modulus > 0,
    ensures
        v@ == residues_of(r as nat, lanes@),
{
    let mut v: Vec<u64> = Vec::new();
    let mut i: usize = 0;
    while i < lanes.len()
        invariant
            0 <= i <= lanes.len(),
            forall|j: int| 0 <= j < lanes@.len() ==> #[trigger] lanes@[j].modulus > 0,
            v@ == residues_of(r as nat, lanes@.subrange(0, i as int)),
        decreases lanes.len() - i,
    {
        v.push(r % lanes[i].modulus);
        i = i + 1;
        assert(v@ =~= residues_of(r as nat, lanes@.subrange(0, i as int)));
    }
    assert(lanes@.subrange(0, lanes.len() as int) =~= lanes@);
    v
}

/// The residues of a `u128` value over the lanes, one per lane.
fn residues_for_wide(r: u128, lanes: &[Lane]) -> (v: Vec<u64>)
    requires
        forall|j: int| 0 <= j < lanes@.len() ==> #[trigger] lanes@[j].modulus > 0,
    ensures
        v@ == residues_of(r as nat, lanes@),
{
    let mut v: Vec<u64> = Vec::new();
    let mut i: usize = 0;
    while i < lanes.len()
        invariant
            0 <= i <= lanes.len(),
            forall|j: int| 0 <= j < lanes@.len() ==> #[trigger] lanes@[j].modulus > 0,
            v@ == residues_of(r as nat, lanes@.subrange(0, i as int)),
        decreases lanes.len() - i,
    {
        let m = lanes[i].modulus as u128;
        let d = r % m;
        proof {
            vstd::arithmetic::div_mod::lemma_mod_pos_bound(r as int, m as int);
        }
        v.push(d as u64);
        i = i + 1;
        assert(v@ =~= residues_of(r as nat, lanes@.subrange(0, i as int)));
    }
    assert(lanes@.subrange(0, lanes.len() as int) =~= lanes@);
    v
}

/// A winding-tracking residue state, lossless under accumulation.
#[derive(Debug)]
pub struct RecombinantState {
    state: MayaState,
    /// `K`, the number of full `M`-cycles: `x = r + K·M`.
    tuple_winding: u64,
}

/// `s` is the sum of `a` and `b` as `add` builds it: the windings add
/// with the carry of the residue sum past `M`, and the residues are those
/// of the sum modulo `M`.
pub open spec fn sum_state(a: RecombinantState, b: RecombinantState, s: RecombinantState) -> bool {
    let m = lane_product(a.lns());
    let sum = residue_value(a.res(), a.lns()) + residue_value(b.res(), a.lns());
    &&& s.lns() == a.lns()
    &&& s.wind() == a.wind() + b.wind() + sum / m
    &&& s.res() == residues_of(sum % m, a.lns())
}

/// The value a state stands for: `K·M + r`, with `r` the value below `M`
/// whose residues the state holds.
pub open spec fn state_value(res: Seq<u64>, l: Seq<Lane>, k: u64) -> nat {
    (k as nat) * lane_product(l) + residue_value(res, l)
}

impl RecombinantState {
    #[verifier::type_invariant]
    spec fn inv(&self) -> bool {
        lane_product(self.state.lns()) <= u128::MAX
    }

    /// The residue tuple.
    pub closed spec fn res(&self) -> Seq<u64> {
        self.state.res()
    }

    /// The lane configuration.
    pub closed spec fn lns(&self) -> Seq<Lane> {
        self.state.lns()
    }

    /// The tuple winding `K`.
    pub closed spec fn wind(&self) -> u64 {
        self.tuple_winding
    }

    /// The integer the state stands for.
    pub open spec fn value(&self) -> nat {
        state_value(self.res(), self.lns(), self.wind())
    }

    /// The invariants every state keeps: valid residues over lanes whose
    /// product fits in `u128`.
    fn well_formed(&self)
        ensures
            valid_state(self.res(), self.lns()),
            1 <= lane_product(self.lns()) <= u128::MAX,
    {
        proof {
            use_type_invariant(self);
        }
        let _ = self.state.lanes();
        proof {
            lemma_product_positive(self.lns(), self.lns().len());
        }
    }

    /// Builds the state of `x` over the lanes: `K = ⌊x / M⌋` and the
    /// residues of `x mod M`, `M` the product of the lane moduli. On
    /// coprime lanes the state stands for `x`.
    pub fn from_integer(x: u64, lanes: Vec<Lane>) -> (r: Result<Self, RecombinantError>)
        ensures
            match checked_product(lanes@, lanes@.len()) {
                None => r == Err::<Self, RecombinantError>(RecombinantError::Overflow),
                Some(m) => if m == 0 {
                    r == Err::<Self, RecombinantError>(
                        RecombinantError::State(MayaStateError::ZeroModulus { lane_idx: 0 }),
                    )
                } else {
                    r matches Ok(s) && s.lns() == lanes@ && s.wind() == (x as nat) / m && s.res()
                        == residues_of(x as nat % m, lanes@)
                },
            },
            coprime_lanes(lanes@) && lane_product(lanes@) <= u128::MAX ==> (r matches Ok(s) && s.value()
                == x),
    {
        let m: u128 = match product_of_moduli(lanes.as_slice()) {
            Ok(p) => p,
            Err(e) => {
                proof {
                    if coprime_lanes(lanes@) && lane_product(lanes@) <= u128::MAX {
                        lemma_checked_fits(lanes@, lanes@.len());
                    }
                }
                return Err(e);
            },
        };
        proof {
            lemma_checked_product(lanes@, lanes@.len());
            if coprime_lanes(lanes@) {
                lemma_product_positive(lanes@, lanes@.len());
            }
        }
        if m == 0 {
            return Err(RecombinantError::State(MayaStateError::ZeroModulus { lane_idx: 0 }));
        }
        proof {
            lemma_prefix_nonzero(lanes@, lanes@.len(), 0);
        }
        let x_wide = x as u128;
        let r_wide = x_wide % m;
        let k_wide = x_wide / m;
        proof {
            vstd::arithmetic::div_mod::lemma_mod_decreases(x as nat, m as nat);
            vstd::arithmetic::div_mod::lemma_div_is_ordered_by_denominator(x as int, 1, m as int);
        }
        let r = r_wide as u64;
        let k = k_wide as u64;
        let residues = residues_for(r, lanes.as_slice());
        let ghost res = residues@;
        let ghost lns = lanes@;
        match MayaState::new(residues, lanes) {
            Ok(state) => {
                proof {
                    lemma_product_positive(lns, lns.len());
                    if coprime_lanes(lns) {
                        lemma_mod_bound(x as int, m as int);
                        lemma_residue_value_of(r as nat, lns);
                        lemma_fundamental_div_mod(x as int, m as int);
                    }
                }
                Ok(RecombinantState { state, tuple_winding: k })
            },
            Err(e) => {
                proof {
                    lemma_residues_valid(r as nat, lns);
                }
                Err(RecombinantError::State(e))
            },
        }
    }

    /// The lane-modulus product `M`.
    pub fn modulus(&self) -> (m: u128)
        ensures
            m == lane_product(self.lns()),
    {
        self.well_formed();
        proof {
            lemma_checked_fits(self.lns(), self.lns().len());
        }
        match product_of_moduli(self.state.lanes()) {
            Ok(p) => p,
            Err(_) => 0,
        }
    }

    /// The exact integer `r + K·M`, or `Overflow` when it exceeds `u128`.
    /// On coprime lanes `r` is the value below `M` with the state's
    /// residues; on any lanes the result lies in `[K·M, (K+1)·M)`.
    pub fn to_integer(&self) -> (r: Result<u128, RecombinantError>)
        ensures
            coprime_lanes(self.lns()) && self.value() <= u128::MAX ==> r == Ok::<u128, RecombinantError>(
                self.value() as u128,
            ),
            coprime_lanes(self.lns()) && self.value() > u128::MAX ==> r == Err::<u128, RecombinantError>(
                RecombinantError::Overflow,
            ),
            r is Err ==> r == Err::<u128, RecombinantError>(RecombinantError::Overflow),
            r matches Ok(v) ==> (self.wind() as nat) * lane_product(self.lns()) <= v < (self.wind() as nat
                + 1) * lane_product(self.lns()),
    {
        self.well_formed();
        let m = self.modulus();
        let r = self.garner_reconstruct_residue();
        proof {
            if coprime_lanes(self.lns()) {
                lemma_garner_is_residue_value(self.res(), self.lns());
            }
            assert((self.wind() as nat + 1) * lane_product(self.lns()) == (self.wind() as nat) * lane_product(
                self.lns(),
            ) + lane_product(self.lns())) by (nonlinear_arith);
        }
        let k = self.tuple_winding as u128;
        match k.checked_mul(m) {
            Some(km) => match km.checked_add(r) {
                Some(v) => Ok(v),
                None => Err(RecombinantError::Overflow),
            },
            None => {
                proof {
                    assert(k * m <= k * m + r);
                }
                Err(RecombinantError::Overflow)
            },
        }
    }

    /// The underlying residue state.
    pub fn state(&self) -> (s: &MayaState)
        ensures
            s.res() == self.res(),
            s.lns() == self.lns(),
    {
        &self.state
    }

    /// The tuple winding `K`.
    pub fn winding(&self) -> (k: u64)
        ensures
            k == self.wind(),
    {
        self.tuple_winding
    }

    /// The sum of two states over the same lanes: windings add, plus the
    /// carry of the residue sum past `M`. On coprime lanes the sum stands
    /// for the sum of the two values.
    pub fn add(&self, other: &Self) -> (r: Result<Self, RecombinantError>)
        ensures
            !same_lanes(self.lns(), other.lns()) ==> r == Err::<Self, RecombinantError>(
                RecombinantError::LaneMismatch,
            ),
            same_lanes(self.lns(), other.lns()) && coprime_lanes(self.lns()) ==> ({
                let m = lane_product(self.lns());
                let sum = residue_value(self.res(), self.lns()) + residue_value(other.res(), self.lns());
                let w = self.wind() + other.wind() + sum / m;
                if sum > u128::MAX || w > u64::MAX {
                    r == Err::<Self, RecombinantError>(RecombinantError::Overflow)
                } else {
                    r matches Ok(s) && sum_state(*self, *other, s) && s.value() == self.value()
                        + other.value()
                }
            }),
            same_lanes(self.lns(), other.lns()) ==> (r is Err ==> r == Err::<Self, RecombinantError>(
                RecombinantError::Overflow,
            )) && (r matches Ok(s) ==> s.lns() == self.lns()),
    {
        self.well_formed();
        other.well_formed();
        if !lanes_equal(self.state.lanes(), other.state.lanes()) {
            return Err(RecombinantError::LaneMismatch);
        }
        let r_self = self.garner_reconstruct_residue();
        let r_other = other.garner_reconstruct_residue();
        let m = self.modulus();
        proof {
            lemma_same_lanes_product(self.lns(), other.lns(), self.lns().len());
            lemma_same_lanes_garner(other.res(), other.lns(), self.lns(), self.lns().len());
            lemma_same_lanes_sym(self.lns(), other.lns());
            lemma_same_lanes_garner(other.res(), self.lns(), other.lns(), self.lns().len());
            if coprime_lanes(self.lns()) {
                lemma_same_lanes_valid(other.res(), other.lns(), self.lns());
                lemma_garner_is_residue_value(self.res(), self.lns());
                lemma_garner_is_residue_value(other.res(), self.lns());
            }
        }
        let sum = match r_self.checked_add(r_other) {
            Some(s) => s,
            None => {
                return Err(RecombinantError::Overflow);
            },
        };
        proof {
            lemma_sum_carry(sum as nat, m as nat, garner_spec(self.res(), self.lns()),
                garner_spec(other.res(), self.lns()));
        }
        let carry = (sum / m) as u64;
        let new_r = sum % m;
        let new_winding = match self.tuple_winding.checked_add(other.tuple_winding) {
            Some(w) => match w.checked_add(carry) {
                Some(w2) => w2,
                None => {
                    return Err(RecombinantError::Overflow);
                },
            },
            None => {
                return Err(RecombinantError::Overflow);
            },
        };
        let lanes = copy_lanes(self.state.lanes());
        let residues = residues_for_wide(new_r, lanes.as_slice());
        let ghost res = residues@;
        let ghost lns = lanes@;
        match MayaState::new(residues, lanes) {
            Ok(state) => {
                let out = RecombinantState { state, tuple_winding: new_winding };
                proof {
                    if coprime_lanes(self.lns()) {
                        lemma_add_value(*self, *other, out);
                    }
                }
                Ok(out)
            },
            Err(e) => {
                proof {
                    lemma_residues_valid(new_r as nat, lns);
                }
                Err(RecombinantError::State(e))
            },
        }
    }

    /// Adds an integer: the sum with the state of `n` over the same lanes.
    /// On coprime lanes the result stands for the value plus `n`.
    pub fn add_integer(&self, n: u64) -> (r: Result<Self, RecombinantError>)
        ensures
            coprime_lanes(self.lns()) ==> ({
                let m = lane_product(self.lns());
                let sum = residue_value(self.res(), self.lns()) + (n as nat) % m;
                let w = self.wind() + (n as nat) / m + sum / m;
                if sum > u128::MAX || w > u64::MAX {
                    r == Err::<Self, RecombinantError>(RecombinantError::Overflow)
                } else {
                    r matches Ok(s) && s.lns() == self.lns() && s.wind() == w && s.res() == residues_of(
                        sum % m,
                        self.lns(),
                    ) && s.value() == self.value() + n
                }
            }),
            r is Err ==> r == Err::<Self, RecombinantError>(RecombinantError::Overflow),
            r matches Ok(s) ==> s.lns() == self.lns(),
    {
        self.well_formed();
        proof {
            lemma_checked_fits(self.lns(), self.lns().len());
            lemma_product_positive(self.lns(), self.lns().len());
        }
        let lanes = copy_lanes(self.state.lanes());
        let other = match Self::from_integer(n, lanes) {
            Ok(o) => o,
            Err(e) => {
                return Err(e);
            },
        };
        proof {
            lemma_same_lanes_refl(self.lns());
            if coprime_lanes(self.lns()) {
                let m = lane_product(self.lns());
                lemma_mod_bound(n as int, m as int);
                lemma_residue_value_of((n as nat) % m, self.lns());
            }
        }
        self.add(&other)
    }

    /// Garner's reconstruction of the residue part, in ascending lane
    /// order.
    fn garner_reconstruct_residue(&self) -> (g: u128)
        ensures
            g == garner_spec(self.res(), self.lns()),
            g < lane_product(self.lns()),
    {
        self.well_formed();
        let lanes = self.state.lanes();
        let residues = self.state.residues();
        let ghost l = lanes@;
        let ghost rs = residues@;
        let k = lanes.len();
        let mut x: u128 = 0;
        let mut prod: u128 = 1;
        let mut i: usize = 0;
        while i < k
            invariant
                0 <= i <= k,
                k == l.len(),
                l == lanes@,
                rs == residues@,
                valid_state(rs, l),
                1 <= lane_product(l) <= u128::MAX,
                x == garner_partial(rs, l, i as nat),
                prod == prefix_product(l, i as nat),
            decreases k - i,
        {
            proof {
                lemma_prefix_nonzero(l, l.len(), (i + 1) as nat);
                lemma_prefix_nonzero(l, l.len(), i as nat);
                lemma_garner_bound(rs, l, (i + 1) as nat);
            }
            let p_i = lanes[i].modulus as u128;
            let r_i = residues[i] as u128;
            let target_residue = (r_i + p_i * 10 - (x % p_i)) % p_i;
            let inv = mod_inv((prod % p_i) as u64, lanes[i].modulus);
            proof {
                assert(target_residue * (inv as u128) <= u128::MAX) by (nonlinear_arith)
                    requires
                        target_residue < p_i,
                        inv < p_i,
                        p_i <= u64::MAX,
                ;
            }
            let v = (target_residue * (inv as u128)) % p_i;
            proof {
                assert(v == garner_step(x as nat, rs, l, i as nat));
                assert(prod * p_i == prefix_product(l, (i + 1) as nat));
                assert(x + v * prod == garner_partial(rs, l, (i + 1) as nat));
            }
            x = x + v * prod;
            prod = prod * p_i;
            i = i + 1;
        }
        proof {
            lemma_garner_bound(rs, l, l.len());
        }
        x
    }
}

/// Lane configurations compare lane by lane.
fn lanes_equal(a: &[Lane], b: &[Lane]) -> (r: bool)
    ensures
        r == same_lanes(a@, b@),
{
    if a.len() != b.len() {
        return false;
    }
    let mut i: usize = 0;
    while i < a.len()
        invariant
            a@.len() == b@.len(),
            0 <= i <= a.len(),
            forall|j: int| 0 <= j < i ==> same_lane(#[trigger] a@[j], b@[j]),
        decreases a.len() - i,
    {
        if !a[i].same(&b[i]) {
            return false;
        }
        i = i + 1;
    }
    true
}

/// Lane configurations that agree have the same moduli products.
pub proof fn lemma_same_lanes_product(a: Seq<Lane>, b: Seq<Lane>, n: nat)
    requires
        same_lanes(a, b),
        n <= a.len(),
    ensures
        prefix_product(a, n) == prefix_product(b, n),
    decreases n,
{
    if n > 0 {
        lemma_same_lanes_product(a, b, (n - 1) as nat);
        assert(same_lane(a[n - 1], b[n - 1]));
    }
}

proof fn lemma_same_lanes_refl(l: Seq<Lane>)
    ensures
        same_lanes(l, l),
{
}

proof fn lemma_product_positive(l: Seq<Lane>, n: nat)
    requires
        n <= l.len(),
        forall|j: int| 0 <= j < l.len() ==> #[trigger] l[j].modulus > 0,
    ensures
        prefix_product(l, n) >= 1,
    decreases n,
{
    if n > 0 {
        lemma_product_positive(l, (n - 1) as nat);
        let p = prefix_product(l, (n - 1) as nat);
        assert(p * l[n - 1].modulus >= 1) by (nonlinear_arith)
            requires
                p >= 1,
                l[n - 1].modulus >= 1,
        ;
    }
}

/// When the full product fits, the checked product is that product.
proof fn lemma_checked_fits(l: Seq<Lane>, n: nat)
    requires
        n <= l.len(),
        forall|j: int| 0 <= j < l.len() ==> #[trigger] l[j].modulus > 0,
        prefix_product(l, l.len()) <= u128::MAX,
    ensures
        checked_product(l, n) == Some(prefix_product(l, n)),
    decreases n,
{
    lemma_product_positive(l, l.len());
    lemma_prefix_nonzero(l, l.len(), n);
    if n > 0 {
        lemma_checked_fits(l, (n - 1) as nat);
    }
}

/// The residues of any `r` over lanes with positive moduli are valid.
proof fn lemma_residues_valid(r: nat, l: Seq<Lane>)
    requires
        forall|j: int| 0 <= j < l.len() ==> #[trigger] l[j].modulus > 0,
    ensures
        valid_state(residues_of(r, l), l),
        crate::engines::lane::construction_error(residues_of(r, l), l) is None,
{
    assert forall|j: int| 0 <= j < l.len() implies #[trigger] residues_of(r, l)[j] < l[j].modulus by {
        vstd::arithmetic::div_mod::lemma_mod_pos_bound(r as int, l[j].modulus as int);
    }
    lemma_first_bad_none(residues_of(r, l), l, 0);
}

proof fn lemma_first_bad_none(r: Seq<u64>, l: Seq<Lane>, i: nat)
    requires
        valid_state(r, l),
    ensures
        crate::engines::lane::first_bad_lane(r, l, i) is None,
    decreases l.len() - i,
{
    if i < l.len() {
        lemma_first_bad_none(r, l, i + 1);
    }
}

/// The residue sum of two reconstructions below `M` carries at most one.
proof fn lemma_sum_carry(sum: nat, m: nat, a: nat, b: nat)
    requires
        sum == a + b,
        a < m,
        b < m,
    ensures
        sum / m <= 1,
        sum % m < m,
{
    vstd::arithmetic::div_mod::lemma_div_is_ordered(sum as int, (2 * m - 1) as int, m as int);
    vstd::arithmetic::div_mod::lemma_mod_pos_bound(sum as int, m as int);
    vstd::arithmetic::div_mod::lemma_fundamental_div_mod_converse((2 * m - 1) as int, m as int, 1, (m - 1) as int);
}

/// Lanes whose moduli are positive and pairwise coprime: the lanes on
/// which the residues determine a value below `M`.
pub open spec fn coprime_lanes(l: Seq<Lane>) -> bool {
    &&& forall|i: int| 0 <= i < l.len() ==> 1 <= #[trigger] l[i].modulus
    &&& forall|i: int, j: int|
        0 <= i < j < l.len() ==> gcd_spec(#[trigger] l[i].modulus as nat, #[trigger] l[j].modulus as nat) == 1
}

/// The gcd is positive and divides both arguments.
proof fn lemma_gcd_divides(a: nat, b: nat)
    requires
        a > 0 || b > 0,
    ensures
        gcd_spec(a, b) > 0,
        a % gcd_spec(a, b) == 0,
        b % gcd_spec(a, b) == 0,
    decreases b,
{
    if b == 0 {
        lemma_mod_multiples_basic(1, a as int);
        lemma_small_mod(0, a);
    } else {
        let r = a % b;
        lemma_gcd_divides(b, r);
        let g = gcd_spec(b, r);
        assert(gcd_spec(a, b) == g);
        lemma_fundamental_div_mod(a as int, b as int);
        lemma_fundamental_div_mod(b as int, g as int);
        lemma_fundamental_div_mod(r as int, g as int);
        let q = a / b;
        let sb = b / g;
        let sr = r / g;
        assert(a == g * (sb * q + sr)) by (nonlinear_arith)
            requires
                a == b * q + r,
                b == g * sb,
                r == g * sr,
        ;
        lemma_mod_multiples_basic((sb * q + sr) as int, g as int);
        assert((g * (sb * q + sr)) == (sb * q + sr) * g) by (nonlinear_arith);
    }
}

/// A Bézout combination equal to 1 makes the pair coprime.
proof fn lemma_coprime_from_bezout(a: nat, p: nat, x: int, y: int)
    requires
        a * x + p * y == 1,
    ensures
        gcd_spec(a, p) == 1,
{
    if a == 0 && p == 0 {
        assert(a * x + p * y == 0) by (nonlinear_arith)
            requires
                a == 0,
                p == 0,
        ;
    } else {
        lemma_gcd_divides(a, p);
        let g = gcd_spec(a, p);
        lemma_fundamental_div_mod(a as int, g as int);
        lemma_fundamental_div_mod(p as int, g as int);
        let sa = a / g;
        let sp = p / g;
        assert(g * (sa * x + sp * y) == 1) by (nonlinear_arith)
            requires
                a == g * sa,
                p == g * sp,
                a * x + p * y == 1,
        ;
        assert(g == 1) by (nonlinear_arith)
            requires
                g >= 1,
                g * (sa * x + sp * y) == 1,
        ;
    }
}

/// The product of the lanes before `n` is invertible modulo lane `j`
/// when `j` is not among them: a Bézout pair for them.
proof fn lemma_prefix_bezout(l: Seq<Lane>, n: nat, j: nat) -> (r: (int, int))
    requires
        coprime_lanes(l),
        n <= j < l.len(),
    ensures
        prefix_product(l, n) * r.0 + (l[j as int].modulus as nat) * r.1 == 1,
    decreases n,
{
    if n == 0 {
        (1, 0)
    } else {
        let (x1, y1) = lemma_prefix_bezout(l, (n - 1) as nat, j);
        let a = l[n - 1].modulus as nat;
        let p = l[j as int].modulus as nat;
        let pre = prefix_product(l, (n - 1) as nat);
        assert(gcd_spec(l[n - 1].modulus as nat, l[j as int].modulus as nat) == 1);
        lemma_egcd_bezout(a, p);
        let x2 = egcd_spec(a, p).1;
        let y2 = egcd_spec(a, p).2;
        assert((pre * a) * (x1 * x2) + p * (y1 + y2 - p * y1 * y2) == 1) by (nonlinear_arith)
            requires
                pre * x1 + p * y1 == 1,
                a * x2 + p * y2 == 1,
        ;
        (x1 * x2, y1 + y2 - p * y1 * y2)
    }
}

/// Every lane before `n` divides the prefix product.
proof fn lemma_prefix_divisible(l: Seq<Lane>, n: nat, j: nat)
    requires
        j < n <= l.len(),
        forall|i: int| 0 <= i < l.len() ==> #[trigger] l[i].modulus > 0,
    ensures
        prefix_product(l, n) % (l[j as int].modulus as nat) == 0,
    decreases n,
{
    let p = l[j as int].modulus as nat;
    let a = l[n - 1].modulus as nat;
    let pre = prefix_product(l, (n - 1) as nat);
    if j == n - 1 {
        lemma_mod_multiples_basic(pre as int, p as int);
    } else {
        lemma_prefix_divisible(l, (n - 1) as nat, j);
        lemma_fundamental_div_mod(pre as int, p as int);
        let k = pre / p;
        assert(pre * a == (k * a) * p) by (nonlinear_arith)
            requires
                pre == p * k,
        ;
        lemma_mod_multiples_basic((k * a) as int, p as int);
    }
}

/// Garner's digit for lane `i` makes the value agree with residue `i`.
proof fn lemma_garner_step_residue(r: Seq<u64>, l: Seq<Lane>, i: nat)
    requires
        coprime_lanes(l),
        valid_state(r, l),
        i < l.len(),
    ensures
        ({
            let x = garner_partial(r, l, i);
            (x + garner_step(x, r, l, i) * prefix_product(l, i)) % (l[i as int].modulus as nat) == r[i as int]
        }),
{
    let x = garner_partial(r, l, i);
    let p = l[i as int].modulus as nat;
    let pp = p as int;
    let big_p = prefix_product(l, i);
    let a = big_p % p;
    let ri = r[i as int] as int;
    // The prefix is invertible modulo p.
    let (bx, by) = lemma_prefix_bezout(l, i, i);
    let bp = big_p as int;
    let ai = a as int;
    lemma_fundamental_div_mod(bp, pp);
    let qp = bp / pp;
    assert(bp == pp * qp + ai);
    assert(ai * bx + pp * (by + qp * bx) == 1) by (nonlinear_arith)
        requires
            bp * bx + pp * by == 1,
            bp == pp * qp + ai,
    ;
    lemma_coprime_from_bezout(a, p, bx, by + qp * bx);
    lemma_egcd_bezout(a, p);
    let x0 = egcd_spec(a, p).1;
    let y0 = egcd_spec(a, p).2;
    let inv = inv_spec(a, p) as int;
    lemma_fundamental_div_mod(x0, pp);
    lemma_mod_bound(x0, pp);
    let q0 = x0 / pp;
    // The target digit.
    let xi = x as int;
    let xm = xi % pp;
    lemma_fundamental_div_mod(xi, pp);
    let qx = xi / pp;
    lemma_mod_bound(xi, pp);
    let num = ri + 10 * pp - xm;
    lemma_fundamental_div_mod(num, pp);
    lemma_mod_bound(num, pp);
    let t = num % pp;
    let qt = num / pp;
    assert(t * inv >= 0) by (nonlinear_arith)
        requires
            t >= 0,
            inv >= 0,
    ;
    let ti = t * inv;
    lemma_fundamental_div_mod(ti, pp);
    lemma_mod_bound(ti, pp);
    let v = ti % pp;
    let qv = ti / pp;
    assert(garner_step(x, r, l, i) == v);
    // x + t = rᵢ + p·(qx + 10 − qt).
    let k1 = qx + 10 - qt;
    assert(xi + t == ri + pp * k1) by (nonlinear_arith)
        requires
            xi == pp * qx + xm,
            num == ri + 10 * pp - xm,
            num == pp * qt + t,
            k1 == qx + 10 - qt,
    ;
    // a · inv = 1 + p·c.
    let c = -y0 - ai * q0;
    assert(ai * inv == 1 + pp * c) by (nonlinear_arith)
        requires
            ai * x0 + pp * y0 == 1,
            x0 == pp * q0 + inv,
            c == -y0 - ai * q0,
    ;
    // t · inv · P = t + p·k2.
    let k2 = ti * qp + t * c;
    assert(ti * bp == t + pp * k2) by (nonlinear_arith)
        requires
            ti == t * inv,
            bp == pp * qp + ai,
            ai * inv == 1 + pp * c,
            k2 == ti * qp + t * c,
    ;
    // v · P = t · inv · P − p·qv·P.
    assert(v * bp == ti * bp - pp * (qv * bp)) by (nonlinear_arith)
        requires
            ti == pp * qv + v,
    ;
    let k = k1 + k2 - qv * bp;
    assert(xi + v * bp == ri + pp * k) by (nonlinear_arith)
        requires
            xi + t == ri + pp * k1,
            ti * bp == t + pp * k2,
            v * bp == ti * bp - pp * (qv * bp),
            k == k1 + k2 - qv * bp,
    ;
    lemma_mod_multiples_vanish(k, ri, pp);
    lemma_small_mod(ri as nat, p);
}

/// Garner's value over the first `n` lanes has residue `r[j]` modulo
/// each of them.
proof fn lemma_garner_residues(r: Seq<u64>, l: Seq<Lane>, n: nat)
    requires
        coprime_lanes(l),
        valid_state(r, l),
        n <= l.len(),
    ensures
        forall|j: int| 0 <= j < n ==> garner_partial(r, l, n) % (#[trigger] l[j].modulus as nat) == r[j],
    decreases n,
{
    if n > 0 {
        let i = (n - 1) as nat;
        lemma_garner_residues(r, l, i);
        lemma_garner_step_residue(r, l, i);
        let x = garner_partial(r, l, i);
        let v = garner_step(x, r, l, i);
        let big_p = prefix_product(l, i);
        assert forall|j: int| 0 <= j < n implies garner_partial(r, l, n) % (#[trigger] l[j].modulus as nat)
            == r[j] by {
            if j < i {
                let pj = l[j].modulus as int;
                lemma_prefix_divisible(l, i, j as nat);
                lemma_fundamental_div_mod(big_p as int, pj);
                let k = big_p as int / pj;
                assert(x + v * big_p == pj * (v * k) + x) by (nonlinear_arith)
                    requires
                        big_p == pj * k,
                ;
                lemma_mod_multiples_vanish(v * k, x as int, pj);
            }
        }
    }
}

/// Chinese remainder: a number divisible by each of the first `n`
/// coprime lanes is divisible by their product.
proof fn lemma_crt_divides(l: Seq<Lane>, n: nat, d: int)
    requires
        coprime_lanes(l),
        n <= l.len(),
        forall|j: int| 0 <= j < n ==> d % (#[trigger] l[j].modulus as int) == 0,
    ensures
        d % (prefix_product(l, n) as int) == 0,
    decreases n,
{
    lemma_product_positive(l, n);
    if n == 0 {
        lemma_mod_multiples_basic(d, 1);
    } else {
        let i = (n - 1) as nat;
        lemma_crt_divides(l, i, d);
        let pre = prefix_product(l, i) as int;
        let a = l[i as int].modulus as int;
        lemma_product_positive(l, i);
        let (x, y) = lemma_prefix_bezout(l, i, i);
        lemma_fundamental_div_mod(d, pre);
        lemma_fundamental_div_mod(d, a);
        let s = d / pre;
        let t = d / a;
        assert(d == (x * t + y * s) * (pre * a)) by (nonlinear_arith)
            requires
                pre * x + a * y == 1,
                d == pre * s,
                d == a * t,
        ;
        lemma_mod_multiples_basic(x * t + y * s, pre * a);
    }
}

/// On coprime lanes Garner's reconstruction is the only value below `M`
/// with the given residues.
proof fn lemma_garner_unique(r: Seq<u64>, l: Seq<Lane>, y: nat)
    requires
        coprime_lanes(l),
        valid_state(r, l),
        y < lane_product(l),
        forall|j: int| 0 <= j < l.len() ==> y % (#[trigger] l[j].modulus as nat) == r[j],
    ensures
        y == garner_spec(r, l),
{
    let g = garner_spec(r, l);
    let m = lane_product(l);
    lemma_garner_bound(r, l, l.len());
    lemma_garner_residues(r, l, l.len());
    let d = y as int - g as int;
    assert forall|j: int| 0 <= j < l.len() implies d % (#[trigger] l[j].modulus as int) == 0 by {
        let pj = l[j].modulus as int;
        lemma_fundamental_div_mod(y as int, pj);
        lemma_fundamental_div_mod(g as int, pj);
        assert(g % (l[j].modulus as nat) == r[j]);
        assert(d == pj * ((y as int) / pj - (g as int) / pj)) by (nonlinear_arith)
            requires
                y == pj * ((y as int) / pj) + r[j],
                g == pj * ((g as int) / pj) + r[j],
                d == y - g,
        ;
        lemma_mod_multiples_basic((y as int) / pj - (g as int) / pj, pj);
        assert(pj * ((y as int) / pj - (g as int) / pj) == ((y as int) / pj - (g as int) / pj) * pj)
            by (nonlinear_arith);
    }
    lemma_crt_divides(l, l.len(), d);
    lemma_fundamental_div_mod(d, m as int);
    let k = d / (m as int);
    assert(d == 0) by (nonlinear_arith)
        requires
            d == (m as int) * k,
            -(m as int) < d < m as int,
    ;
}

/// On coprime lanes a value below `M` is the residue value of its own
/// residues.
pub proof fn lemma_residue_value_of(y: nat, l: Seq<Lane>)
    requires
        coprime_lanes(l),
        y < lane_product(l),
    ensures
        residue_value(residues_of(y, l), l) == y,
{
    let res = residues_of(y, l);
    lemma_residues_valid(y, l);
    assert forall|j: int| 0 <= j < l.len() implies y % (#[trigger] l[j].modulus as nat) == res[j] by {
        lemma_mod_bound(y as int, l[j].modulus as int);
    }
    assert(y < lane_product(l) && residues_of(y, l) == res);
    let y2 = residue_value(res, l);
    assert(y2 < lane_product(l) && residues_of(y2, l) == res);
    assert forall|j: int| 0 <= j < l.len() implies y2 % (#[trigger] l[j].modulus as nat) == res[j] by {
        lemma_mod_bound(y2 as int, l[j].modulus as int);
        assert(residues_of(y2, l)[j] == res[j]);
    }
    lemma_garner_unique(res, l, y);
    lemma_garner_unique(res, l, y2);
}

/// On coprime lanes Garner's reconstruction is the residue value: the
/// value below `M` whose residues are the given ones.
pub proof fn lemma_garner_is_residue_value(r: Seq<u64>, l: Seq<Lane>)
    requires
        coprime_lanes(l),
        valid_state(r, l),
    ensures
        garner_spec(r, l) == residue_value(r, l),
        residue_value(r, l) < lane_product(l),
        residues_of(residue_value(r, l), l) == r,
{
    let g = garner_spec(r, l);
    lemma_garner_bound(r, l, l.len());
    lemma_garner_residues(r, l, l.len());
    assert(residues_of(g, l) =~= r);
    lemma_residue_value_of(g, l);
}

/// Lane agreement is symmetric.
proof fn lemma_same_lanes_sym(a: Seq<Lane>, b: Seq<Lane>)
    requires
        same_lanes(a, b),
    ensures
        same_lanes(b, a),
{
    assert forall|i: int| 0 <= i < b.len() implies same_lane(#[trigger] b[i], a[i]) by {
        assert(same_lane(a[i], b[i]));
    }
}

/// Residues valid over lanes are valid over agreeing lanes, which are
/// coprime when the first are.
proof fn lemma_same_lanes_valid(r: Seq<u64>, a: Seq<Lane>, b: Seq<Lane>)
    requires
        same_lanes(b, a),
        valid_state(r, a),
    ensures
        valid_state(r, b),
{
    assert forall|i: int| 0 <= i < b.len() implies #[trigger] b[i].modulus > 0 && r[i] < b[i].modulus by {
        assert(same_lane(b[i], a[i]));
    }
}

/// Round trip: over coprime lanes whose product fits in `u128`, the state
/// `from_integer` builds for `x` (winding `⌊x / M⌋`, residues of
/// `x mod M`) stands for `x`, so `to_integer` gives `x` back.
pub proof fn lemma_from_integer_round_trip(x: u64, l: Seq<Lane>)
    requires
        coprime_lanes(l),
        lane_product(l) <= u128::MAX,
    ensures
        checked_product(l, l.len()) == Some(lane_product(l)),
        lane_product(l) > 0,
        state_value(residues_of(x as nat % lane_product(l), l), l, ((x as nat) / lane_product(l)) as u64)
            == x,
{
    let m = lane_product(l);
    lemma_product_positive(l, l.len());
    lemma_checked_fits(l, l.len());
    lemma_mod_bound(x as int, m as int);
    lemma_residue_value_of(x as nat % m, l);
    lemma_fundamental_div_mod(x as int, m as int);
    vstd::arithmetic::div_mod::lemma_div_is_ordered_by_denominator(x as int, 1, m as int);
}

/// Garner's reconstruction and the product depend only on the moduli.
proof fn lemma_same_lanes_garner(r: Seq<u64>, a: Seq<Lane>, b: Seq<Lane>, n: nat)
    requires
        same_lanes(a, b),
        n <= a.len(),
    ensures
        garner_partial(r, a, n) == garner_partial(r, b, n),
    decreases n,
{
    if n > 0 {
        lemma_same_lanes_garner(r, a, b, (n - 1) as nat);
        lemma_same_lanes_product(a, b, (n - 1) as nat);
        assert(same_lane(a[n - 1], b[n - 1]));
    }
}

/// Addition adds: over coprime lanes, the sum `add` builds stands for the
/// sum of the values, and the winding never decreases.
pub proof fn lemma_add_value(a: RecombinantState, b: RecombinantState, s: RecombinantState)
    requires
        coprime_lanes(a.lns()),
        lane_product(a.lns()) <= u128::MAX,
        valid_state(a.res(), a.lns()),
        valid_state(b.res(), b.lns()),
        same_lanes(a.lns(), b.lns()),
        sum_state(a, b, s),
    ensures
        s.value() == a.value() + b.value(),
        s.wind() >= a.wind(),
{
    let l = a.lns();
    let m = lane_product(l);
    lemma_product_positive(l, l.len());
    lemma_same_lanes_sym(l, b.lns());
    lemma_same_lanes_valid(b.res(), b.lns(), l);
    lemma_same_lanes_product(l, b.lns(), l.len());
    assert(coprime_lanes(b.lns())) by {
        assert forall|i: int, j: int| 0 <= i < j < b.lns().len() implies gcd_spec(
            #[trigger] b.lns()[i].modulus as nat,
            #[trigger] b.lns()[j].modulus as nat,
        ) == 1 by {
            assert(same_lane(l[i], b.lns()[i]));
            assert(same_lane(l[j], b.lns()[j]));
        }
        assert forall|i: int| 0 <= i < b.lns().len() implies 1 <= #[trigger] b.lns()[i].modulus by {
            assert(same_lane(l[i], b.lns()[i]));
        }
    }
    lemma_same_lanes_garner(b.res(), b.lns(), l, l.len());
    lemma_garner_is_residue_value(a.res(), l);
    lemma_garner_is_residue_value(b.res(), l);
    lemma_garner_is_residue_value(b.res(), b.lns());
    let ga = residue_value(a.res(), l);
    let gb = residue_value(b.res(), l);
    assert(gb == residue_value(b.res(), b.lns()));
    let sum = ga + gb;
    let y = sum % m;
    lemma_mod_bound(sum as int, m as int);
    lemma_residue_value_of(y, l);
    lemma_fundamental_div_mod(sum as int, m as int);
    assert(s.value() == a.value() + b.value()) by (nonlinear_arith)
        requires
            s.value() == (s.wind() as nat) * m + y,
            s.wind() == a.wind() + b.wind() + sum / m,
            a.value() == (a.wind() as nat) * m + ga,
            b.value() == (b.wind() as nat) * m + gb,
            sum == ga + gb,
            sum == m * (sum / m) + y,
    ;
}

/// Addition is associative on values: over coprime lanes, `(a + b) + c`
/// and `a + (b + c)` stand for the same integer, the sum of the three.
pub proof fn lemma_add_associative(
    a: RecombinantState,
    b: RecombinantState,
    c: RecombinantState,
    ab: RecombinantState,
    ab_c: RecombinantState,
    bc: RecombinantState,
    a_bc: RecombinantState,
)
    requires
        coprime_lanes(a.lns()),
        lane_product(a.lns()) <= u128::MAX,
        b.lns() == a.lns(),
        c.lns() == a.lns(),
        valid_state(a.res(), a.lns()),
        valid_state(b.res(), b.lns()),
        valid_state(c.res(), c.lns()),
        sum_state(a, b, ab),
        sum_state(ab, c, ab_c),
        sum_state(b, c, bc),
        sum_state(a, bc, a_bc),
    ensures
        ab_c.value() == a_bc.value(),
        ab_c.value() == a.value() + b.value() + c.value(),
{
    let l = a.lns();
    let m = lane_product(l);
    lemma_same_lanes_refl(l);
    lemma_product_positive(l, l.len());
    lemma_add_value(a, b, ab);
    lemma_add_value(b, c, bc);
    lemma_residues_valid((residue_value(a.res(), l) + residue_value(b.res(), l)) % m, l);
    lemma_residues_valid((residue_value(b.res(), l) + residue_value(c.res(), l)) % m, l);
    lemma_add_value(ab, c, ab_c);
    lemma_add_value(a, bc, a_bc);
}

} // verus!
