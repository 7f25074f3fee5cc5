//! The Montgomery quotient shadow of the Goddess section: for each
//! cumulative page total, its residues modulo 11 and 13 and the quotients
//! `x·11⁻¹ mod 13` and `x·13⁻¹ mod 11`, with their distribution.

use vstd::prelude::*;
use crate::engines::ramanujan::gcd_spec;
use crate::h3_mi::{
    entropy_nbp, entropy_spec, entropy_fits, counts_of, joint_spec, joint_total, count_sum,
    build_joint_distribution, counts_vec, lemma_joint_spec, lemma_count_sum_ge_elem,
};
use crate::h4_non_visual::{GODDESS_SECTION_INTERVALS, goddess_intervals, goddess_totals, lemma_goddess_totals};

verus! {

/// `11⁻¹ mod 13`.
pub const INV11_MOD13: u64 = 6;

/// `13⁻¹ mod 11`.
pub const INV13_MOD11: u64 = 6;

/// The extended Euclidean recursion: `(g, x, y)` with `g = gcd(a, b)`.
pub open spec fn egcd_spec(a: nat, b: nat) -> (int, int, int)
    decreases b,
{
    if b == 0 {
        (a as int, 1, 0)
    } else {
        let (g, x1, y1) = egcd_spec(b, a % b);
        (g, y1, x1 - (a / b) * y1)
    }
}

/// Bézout: the extended Euclidean coefficients combine to the gcd, and
/// stay below the larger argument.
#[verifier::spinoff_prover]
pub proof fn lemma_egcd_bezout(a: nat, b: nat)
    ensures
        egcd_spec(a, b).0 == gcd_spec(a, b),
        a * egcd_spec(a, b).1 + b * egcd_spec(a, b).2 == egcd_spec(a, b).0,
        -(if b > 1 { b as int } else { 1 }) <= egcd_spec(a, b).1 <= (if b > 1 { b as int } else { 1 }),
        -(if a > 1 { a as int } else { 1 }) <= egcd_spec(a, b).2 <= (if a > 1 { a as int } else { 1 }),
        b == 0 ==> egcd_spec(a, b).2 == 0,
    decreases b,
{
    if b > 0 {
        let r = a % b;
        let q = a / b;
        lemma_egcd_bezout(b, r);
        let (g, x1, y1) = egcd_spec(b, r);
        assert(egcd_spec(a, b) == (g, y1, x1 - q * y1));
        vstd::arithmetic::div_mod::lemma_fundamental_div_mod(a as int, b as int);
        assert(a * y1 + b * (x1 - q * y1) == b * x1 + r * y1) by (nonlinear_arith)
            requires
                a == b * q + r,
        ;
        let bx = if r > 1 { r as int } else { 1 };
        let by = if b > 1 { b as int } else { 1 };
        assert(-(q * by + bx) <= x1 - q * y1 <= q * by + bx) by (nonlinear_arith)
            requires
                -bx <= x1 <= bx,
                -by <= y1 <= by,
                q >= 0,
        ;
        if r == 0 {
            assert(y1 == 0);
            assert(x1 - q * y1 == x1) by (nonlinear_arith)
                requires
                    y1 == 0,
            ;
        } else {
            assert(q * by + bx == a) by (nonlinear_arith)
                requires
                    a == b * q + r,
                    by == b,
                    bx == r,
                    b >= 1,
                    r >= 1,
            ;
        }
    }
}

/// `|a|`.
pub open spec fn abs_int(a: int) -> int {
    if a >= 0 {
        a
    } else {
        -a
    }
}

/// Rust's truncating quotient `a / b` on signed integers: `|a| / |b|`,
/// negative when the signs differ.
pub open spec fn tquot(a: int, b: int) -> int {
    if (a >= 0) == (b >= 0) {
        abs_int(a) / abs_int(b)
    } else {
        -(abs_int(a) / abs_int(b))
    }
}

/// Rust's truncating remainder `a % b` on signed integers: `|a| mod |b|`
/// with the sign of `a`.
pub open spec fn trem(a: int, b: int) -> int {
    if a >= 0 {
        abs_int(a) % abs_int(b)
    } else {
        -(abs_int(a) % abs_int(b))
    }
}

/// Truncating division splits `a` into `b·q + r` with `|r| < |b|`, `r`
/// of the sign of `a` and `|a| = |b|·|q| + |r|`.
pub proof fn lemma_trunc_div(a: int, b: int)
    requires
        b != 0,
    ensures
        a == b * tquot(a, b) + trem(a, b),
        abs_int(trem(a, b)) < abs_int(b),
        abs_int(trem(a, b)) == abs_int(a) % abs_int(b),
        abs_int(tquot(a, b)) == abs_int(a) / abs_int(b),
        abs_int(a) == abs_int(b) * abs_int(tquot(a, b)) + abs_int(trem(a, b)),
        a >= 0 ==> trem(a, b) >= 0,
        a < 0 ==> trem(a, b) <= 0,
{
    let c = abs_int(a);
    let d = abs_int(b);
    vstd::arithmetic::div_mod::lemma_fundamental_div_mod(c, d);
    vstd::arithmetic::div_mod::lemma_mod_bound(c, d);
    vstd::arithmetic::div_mod::lemma_div_pos_is_pos(c, d);
    let q = c / d;
    let r = c % d;
    assert(a == b * tquot(a, b) + trem(a, b)) by (nonlinear_arith)
        requires
            c == d * q + r,
            c == (if a >= 0 { a } else { -a }),
            d == (if b >= 0 { b } else { -b }),
            tquot(a, b) == (if (a >= 0) == (b >= 0) { q } else { -q }),
            trem(a, b) == (if a >= 0 { r } else { -r }),
    ;
}

/// Rust's `(a / b, a % b)`, computed on the magnitudes.
fn trunc_div_rem(a: i64, b: i64) -> (r: (i64, i64))
    requires
        b != 0,
        b != i64::MIN,
        !(a == i64::MIN && b == -1),
    ensures
        r.0 == tquot(a as int, b as int),
        r.1 == trem(a as int, b as int),
{
    let ua: u64 = if a >= 0 { a as u64 } else { (-(a as i128)) as u64 };
    let ub: u64 = if b >= 0 { b as u64 } else { (-b) as u64 };
    let uq = ua / ub;
    let ur = ua % ub;
    proof {
        vstd::arithmetic::div_mod::lemma_div_is_ordered_by_denominator(ua as int, 1, ub as int);
        vstd::arithmetic::div_mod::lemma_mod_bound(ua as int, ub as int);
        if ub >= 2 {
            vstd::arithmetic::div_mod::lemma_div_is_ordered_by_denominator(ua as int, 2, ub as int);
        }
    }
    let sq: i128 = if (a >= 0) == (b >= 0) { uq as i128 } else { -(uq as i128) };
    let q: i64 = sq as i64;
    let rem: i64 = if a >= 0 { ur as i64 } else { -(ur as i64) };
    (q, rem)
}

/// Extended Euclid by Rust's truncating division, on signed integers:
/// `(g, x, y)` with `a·x + b·y = g` and `|g| = gcd(|a|, |b|)`.
pub open spec fn egcd_int(a: int, b: int) -> (int, int, int)
    decreases abs_int(b),
{
    if b == 0 {
        (a, 1, 0)
    } else {
        proof {
            lemma_trunc_div(a, b);
        }
        let (g, x1, y1) = egcd_int(b, trem(a, b));
        (g, y1, x1 - tquot(a, b) * y1)
    }
}

/// Bézout for the signed recursion, with coefficient bounds.
pub proof fn lemma_egcd_int(a: int, b: int)
    ensures
        a * egcd_int(a, b).1 + b * egcd_int(a, b).2 == egcd_int(a, b).0,
        abs_int(egcd_int(a, b).0) == gcd_spec(abs_int(a) as nat, abs_int(b) as nat),
        abs_int(egcd_int(a, b).1) <= (if abs_int(b) > 1 { abs_int(b) } else { 1 }),
        abs_int(egcd_int(a, b).2) <= (if abs_int(a) > 1 { abs_int(a) } else { 1 }),
        b == 0 ==> egcd_int(a, b).2 == 0,
    decreases abs_int(b),
{
    if b == 0 {
        assert(a * 1 + b * 0 == a) by (nonlinear_arith);
    } else {
        lemma_trunc_div(a, b);
        let r = trem(a, b);
        let q = tquot(a, b);
        lemma_egcd_int(b, r);
        let (g, x1, y1) = egcd_int(b, r);
        assert(egcd_int(a, b) == (g, y1, x1 - q * y1));
        assert(a * y1 + b * (x1 - q * y1) == b * x1 + r * y1) by (nonlinear_arith)
            requires
                a == b * q + r,
        ;
        assert(gcd_spec(abs_int(a) as nat, abs_int(b) as nat) == gcd_spec(abs_int(b) as nat, abs_int(r) as nat));
        let bx = if abs_int(r) > 1 { abs_int(r) } else { 1 };
        let by = if abs_int(b) > 1 { abs_int(b) } else { 1 };
        if r == 0 {
            assert(y1 == 0);
            assert(x1 - q * y1 == x1) by (nonlinear_arith)
                requires
                    y1 == 0,
            ;
        } else {
            assert(abs_int(x1 - q * y1) <= abs_int(a)) by (nonlinear_arith)
                requires
                    abs_int(x1) <= bx,
                    abs_int(y1) <= by,
                    abs_int(a) == abs_int(b) * abs_int(q) + abs_int(r),
                    abs_int(r) >= 1,
                    abs_int(r) < abs_int(b),
                    bx == abs_int(r),
                    by == abs_int(b),
                    abs_int(x1) == (if x1 >= 0 { x1 } else { -x1 }),
                    abs_int(y1) == (if y1 >= 0 { y1 } else { -y1 }),
                    abs_int(q) == (if q >= 0 { q } else { -q }),
                    abs_int(x1 - q * y1) == (if x1 - q * y1 >= 0 { x1 - q * y1 } else { -(x1 - q * y1) }),
            ;
        }
    }
}

/// Extended Euclid: `(g, x, y)` with `a·x + b·y = g` and `|g| = gcd(|a|, |b|)`,
/// following Rust's truncating division for negative arguments.
pub fn extended_gcd(a: i64, b: i64) -> (r: (i64, i64, i64))
    requires
        a != i64::MIN,
        b != i64::MIN,
    ensures
        r.0 == egcd_int(a as int, b as int).0,
        r.1 == egcd_int(a as int, b as int).1,
        r.2 == egcd_int(a as int, b as int).2,
        abs_int(r.0 as int) == gcd_spec(abs_int(a as int) as nat, abs_int(b as int) as nat),
        a * r.1 + b * r.2 == r.0,
        a >= 0 && b >= 0 ==> r.0 == gcd_spec(a as nat, b as nat),
    decreases abs_int(b as int),
{
    proof {
        lemma_egcd_int(a as int, b as int);
    }
    if b == 0 {
        return (a, 1, 0);
    }
    proof {
        lemma_trunc_div(a as int, b as int);
    }
    let (q, rem) = trunc_div_rem(a, b);
    let (g, x1, y1) = extended_gcd(b, rem);
    proof {
        lemma_egcd_int(b as int, rem as int);
        let qi = q as int;
        let bb = if abs_int(b as int) > 1 { abs_int(b as int) } else { 1 };
        assert(abs_int(qi * y1) <= abs_int(a as int)) by (nonlinear_arith)
            requires
                abs_int(y1 as int) <= bb,
                abs_int(a as int) == abs_int(b as int) * abs_int(qi) + abs_int(rem as int),
                bb == (if abs_int(b as int) > 1 { abs_int(b as int) } else { 1 }),
                abs_int(b as int) >= 1,
                abs_int(y1 as int) == (if y1 >= 0 { y1 as int } else { -y1 }),
                abs_int(qi) == (if qi >= 0 { qi } else { -qi }),
                abs_int(qi * y1) == (if qi * y1 >= 0 { qi * y1 } else { -(qi * y1) }),
                abs_int(b as int) == 1 ==> rem == 0,
                abs_int(rem as int) >= 0,
        ;
    }
    (g, y1, x1 - q * y1)
}

/// The reduction Rust's `((x % m) + m) % m` performs: the residue of `x`
/// modulo `|m|` taken with the sign of `m`.
pub open spec fn lifted_rem(x: int, m: int) -> int {
    trem(trem(x, m) + m, m)
}

/// Modular inverse of `a` modulo `m` through extended Euclid on
/// `(a % m, m)`: `((x % m) + m) % m`, which lies in `[0, m)` for `m > 0`
/// and in `(m, 0]` for `m < 0`; `a` times it is `g` modulo `m`, `g` the
/// signed gcd of the recursion (1 or −1 when `a` and `m` are coprime).
pub fn mod_inverse(a: i64, m: i64) -> (r: i64)
    requires
        m != 0,
        m != i64::MIN,
        !(a == i64::MIN && m == -1),
    ensures
        ({
            let e = egcd_int(trem(a as int, m as int), m as int);
            &&& r == lifted_rem(e.1, m as int)
            &&& (a * r - e.0) % abs_int(m as int) == 0
            &&& abs_int(e.0) == gcd_spec(abs_int(trem(a as int, m as int)) as nat, abs_int(m as int) as nat)
        }),
        m > 0 ==> 0 <= r < m,
        m < 0 ==> m < r <= 0,
{
    proof {
        lemma_trunc_div(a as int, m as int);
    }
    let (_, am) = trunc_div_rem(a, m);
    let (g, x, y) = extended_gcd(am, m);
    proof {
        lemma_trunc_div(x as int, m as int);
        lemma_egcd_int(am as int, m as int);
    }
    let (_, t) = trunc_div_rem(x, m);
    let r = if t != 0 && ((t < 0) != (m < 0)) {
        t + m
    } else {
        t
    };
    proof {
        lemma_lifted_rem(x as int, m as int);
        lemma_inverse_mod_int(a as int, am as int, m as int, x as int, y as int, g as int, r as int);
    }
    r
}

/// `lifted_rem` without overflow: `x % m`, plus `m` when their signs differ.
proof fn lemma_lifted_rem(x: int, m: int)
    requires
        m != 0,
    ensures
        ({
            let t = trem(x, m);
            lifted_rem(x, m) == (if t != 0 && ((t < 0) != (m < 0)) { t + m } else { t })
        }),
        m > 0 ==> 0 <= lifted_rem(x, m) < m,
        m < 0 ==> m < lifted_rem(x, m) <= 0,
        (lifted_rem(x, m) - x) % abs_int(m) == 0,
{
    let t = trem(x, m);
    lemma_trunc_div(x, m);
    let s = t + m;
    lemma_trunc_div(s, m);
    let v = trem(s, m);
    let w = tquot(s, m);
    let q = tquot(x, m);
    if t != 0 && ((t < 0) != (m < 0)) {
        // |s| < |m| with the sign of m: the quotient is 0.
        assert(abs_int(s) < abs_int(m));
        assert(abs_int(s) % abs_int(m) == abs_int(s)) by {
            vstd::arithmetic::div_mod::lemma_small_mod(abs_int(s) as nat, abs_int(m) as nat);
        }
        assert(v == s);
    } else {
        // s = t + m with |s| = |t| + |m|: remainder |t|, sign of s.
        assert(abs_int(s) == abs_int(t) + abs_int(m));
        assert(abs_int(s) % abs_int(m) == abs_int(t)) by {
            vstd::arithmetic::div_mod::lemma_fundamental_div_mod_converse(
                abs_int(s),
                abs_int(m),
                1,
                abs_int(t),
            );
        }
        if t == 0 {
            assert(v == 0);
        }
        assert(v == t);
    }
    let lr = lifted_rem(x, m);
    let k: int = if t != 0 && ((t < 0) != (m < 0)) { 1 - q } else { -q };
    assert(lr - x == abs_int(m) * (if m > 0 { k } else { -k })) by (nonlinear_arith)
        requires
            x == m * q + t,
            lr == (if t != 0 && ((t < 0) != (m < 0)) { t + m } else { t }),
            k == (if t != 0 && ((t < 0) != (m < 0)) { 1 - q } else { -q }),
            abs_int(m) == (if m >= 0 { m } else { -m }),
    ;
    let kk = if m > 0 { k } else { -k };
    vstd::arithmetic::div_mod::lemma_mod_multiples_basic(kk, abs_int(m));
    assert(abs_int(m) * kk == kk * abs_int(m)) by (nonlinear_arith);
}

/// `a` times the lifted coefficient is the signed gcd modulo `m`.
proof fn lemma_inverse_mod_int(a: int, am: int, m: int, x: int, y: int, g: int, r: int)
    requires
        m != 0,
        am == trem(a, m),
        am * x + m * y == g,
        (r - x) % abs_int(m) == 0,
    ensures
        (a * r - g) % abs_int(m) == 0,
{
    lemma_trunc_div(a, m);
    let q = tquot(a, m);
    let am_ = abs_int(m);
    vstd::arithmetic::div_mod::lemma_fundamental_div_mod(r - x, am_);
    let j = (r - x) / am_;
    let sm: int = if m > 0 { 1 } else { -1 };
    assert(a * r == a * x + a * (am_ * j)) by (nonlinear_arith)
        requires
            r - x == am_ * j,
    ;
    assert(a * x == m * (q * x) + am * x) by (nonlinear_arith)
        requires
            a == m * q + am,
    ;
    assert(m * (q * x) - m * y == m * (q * x - y)) by (nonlinear_arith);
    assert(m * (q * x - y) == am_ * (sm * (q * x - y))) by (nonlinear_arith)
        requires
            am_ == (if m >= 0 { m } else { -m }),
            sm == (if m > 0 { 1int } else { -1int }),
            m != 0,
    ;
    assert(a * (am_ * j) == am_ * (a * j)) by (nonlinear_arith);
    assert(a * r - g == am_ * (a * j) + am_ * (sm * (q * x - y)));
    assert(am_ * (a * j) + am_ * (sm * (q * x - y)) == am_ * (a * j + sm * (q * x - y))) by (nonlinear_arith);
    vstd::arithmetic::div_mod::lemma_mod_multiples_basic(a * j + sm * (q * x - y), am_);
    assert(am_ * (a * j + sm * (q * x - y)) == (a * j + sm * (q * x - y)) * am_) by (nonlinear_arith);
}

/// A truncating remainder of `x` by `m > 0`, lifted into `[0, m)`, is the
/// Euclidean remainder.
pub(crate) proof fn lemma_signed_rem(x: int, m: int, xm: int)
    requires
        m > 0,
        x >= 0 ==> xm == x % m,
        x < 0 ==> xm == -((-x) % m),
    ensures
        (if xm < 0 { xm + m } else { xm }) == x % m,
{
    if x < 0 {
        let t = (-x) % m;
        let k = (-x) / m;
        vstd::arithmetic::div_mod::lemma_fundamental_div_mod(-x, m);
        assert(0 <= t < m) by {
            vstd::arithmetic::div_mod::lemma_mod_pos_bound(-x, m);
        }
        if t == 0 {
            assert(x == (-k) * m + 0) by (nonlinear_arith)
                requires
                    -x == m * k + t,
                    t == 0,
            ;
            vstd::arithmetic::div_mod::lemma_fundamental_div_mod_converse(x, m, -k, 0);
        } else {
            assert(x == (-k - 1) * m + (m - t)) by (nonlinear_arith)
                requires
                    -x == m * k + t,
            ;
            vstd::arithmetic::div_mod::lemma_fundamental_div_mod_converse(x, m, -k - 1, m - t);
        }
    }
}

/// The two inverse constants invert 11 modulo 13 and 13 modulo 11.
pub proof fn lemma_inverse_constants()
    ensures
        (11 * INV11_MOD13) % 13 == 1,
        (13 * INV13_MOD11) % 11 == 1,
{
}

/// Residues and Montgomery quotients of a day count on lanes 11 and 13.
#[derive(Clone, Copy, Debug, PartialEq, Eq, Hash, Structural)]
pub struct MontgomeryQuad {
    /// Residue mod 11.
    pub r11: u64,
    /// Residue mod 13.
    pub r13: u64,
    /// Quotient on lane 13: `x·11⁻¹ mod 13`.
    pub q11: u64,
    /// Quotient on lane 11: `x·13⁻¹ mod 11`.
    pub q13: u64,
}

/// The quad of a day count.
pub open spec fn quad_spec(x: u64) -> MontgomeryQuad {
    MontgomeryQuad {
        r11: x % 11,
        r13: x % 13,
        q11: (((x % 13) * INV11_MOD13) % 13) as u64,
        q13: (((x % 11) * INV13_MOD11) % 11) as u64,
    }
}

/// The byproduct pair `(q₁₁, q₁₃)` of a day count.
pub open spec fn pair_spec(x: u64) -> (u64, u64) {
    (quad_spec(x).q11, quad_spec(x).q13)
}

impl MontgomeryQuad {
    pub fn from_day(x: u64) -> (q: Self)
        ensures
            q == quad_spec(x),
    {
        let r11 = x % 11;
        let r13 = x % 13;
        let q11 = (x % 13 * INV11_MOD13) % 13;
        let q13 = (x % 11 * INV13_MOD11) % 11;
        MontgomeryQuad { r11, r13, q11, q13 }
    }

    /// The `(q₁₁, q₁₃)` byproduct pair.
    pub fn byproduct_pair(&self) -> (p: (u64, u64))
        ensures
            p == (self.q11, self.q13),
    {
        (self.q11, self.q13)
    }
}

/// Each quotient undoes its inverse: `11·q₁₁ ≡ x (mod 13)` and
/// `13·q₁₃ ≡ x (mod 11)`.
pub proof fn lemma_quotients_invert(x: u64)
    ensures
        (11 * quad_spec(x).q11) % 13 == quad_spec(x).r13,
        (13 * quad_spec(x).q13) % 11 == quad_spec(x).r11,
{
    let a = x % 13;
    let b = x % 11;
    assert((11 * (((a * 6) % 13) as u64)) % 13 == a) by (bit_vector)
        requires
            a < 13,
    ;
    assert((13 * (((b * 6) % 11) as u64)) % 11 == b) by (bit_vector)
        requires
            b < 11,
    ;
}

/// The byproduct pair determines the residues on both lanes: two day
/// counts with the same pair agree modulo 11 and modulo 13.
pub proof fn lemma_pair_determines_residues(x: u64, y: u64)
    requires
        pair_spec(x) == pair_spec(y),
    ensures
        x % 11 == y % 11,
        x % 13 == y % 13,
{
    lemma_quotients_invert(x);
    lemma_quotients_invert(y);
}

/// The quads of the Goddess-section page totals.
pub open spec fn goddess_quads_spec() -> Seq<(u64, MontgomeryQuad)> {
    Seq::new(9, |k: int| (goddess_totals()[k], quad_spec(goddess_totals()[k])))
}

/// The byproduct pairs of the Goddess-section page totals.
pub open spec fn goddess_pairs_spec() -> Seq<(u64, u64)> {
    Seq::new(9, |k: int| pair_spec(goddess_totals()[k]))
}

/// Montgomery quad of each Goddess-section page total.
pub fn goddess_section_quads() -> (v: Vec<(u64, MontgomeryQuad)>)
    ensures
        v@ == goddess_quads_spec(),
{
    let intervals = GODDESS_SECTION_INTERVALS;
    let mut v: Vec<(u64, MontgomeryQuad)> = Vec::new();
    let mut total: u64 = 0;
    let mut i: usize = 0;
    proof {
        lemma_goddess_totals();
    }
    while i < 9
        invariant
            0 <= i <= 9,
            intervals@ == goddess_intervals(),
            v.len() == i,
            i == 0 ==> total == 0,
            i > 0 ==> total == goddess_totals()[i - 1],
            forall|k: int| 0 <= k < i ==> #[trigger] v@[k] == goddess_quads_spec()[k],
        decreases 9 - i,
    {
        proof {
            lemma_goddess_totals();
        }
        total = total + intervals[i];
        v.push((total, MontgomeryQuad::from_day(total)));
        i = i + 1;
    }
    assert(v@ =~= goddess_quads_spec());
    v
}

/// Number of distinct pairs in a pair sequence.
fn count_distinct_pairs(v: &[(u64, u64)]) -> (n: usize)
    ensures
        n == v@.to_set().len(),
{
    let mut distinct: usize = 0;
    let mut j: usize = 0;
    assert(v@.subrange(0, 0).to_set() =~= Set::<(u64, u64)>::empty());
    while j < v.len()
        invariant
            0 <= j <= v.len(),
            distinct == v@.subrange(0, j as int).to_set().len(),
            distinct <= j,
        decreases v.len() - j,
    {
        let mut seen = false;
        let mut m: usize = 0;
        while m < j
            invariant
                0 <= m <= j < v.len(),
                seen == exists|q: int| 0 <= q < m && v@[q] == v@[j as int],
            decreases j - m,
        {
            if v[m].0 == v[j].0 && v[m].1 == v[j].1 {
                seen = true;
            }
            m = m + 1;
        }
        proof {
            let pre = v@.subrange(0, j as int);
            assert(v@.subrange(0, j as int + 1) =~= pre.push(v@[j as int]));
            pre.lemma_push_to_set_commute(v@[j as int]);
            vstd::seq_lib::seq_to_set_is_finite(pre);
            if seen {
                let q = choose|q: int| 0 <= q < j && v@[q] == v@[j as int];
                assert(pre[q] == v@[j as int]);
                assert(pre.to_set().insert(v@[j as int]) =~= pre.to_set());
            } else {
                assert(!pre.to_set().contains(v@[j as int]));
            }
        }
        if !seen {
            distinct = distinct + 1;
        }
        j = j + 1;
    }
    assert(v@.subrange(0, v.len() as int) =~= v@);
    distinct
}

/// The byproduct pairs of a quad list, in order.
fn pairs_of(quads: &[(u64, MontgomeryQuad)]) -> (p: Vec<(u64, u64)>)
    ensures
        p@.len() == quads@.len(),
        forall|k: int| 0 <= k < quads@.len() ==> #[trigger] p@[k] == (quads@[k].1.q11, quads@[k].1.q13),
{
    let mut p: Vec<(u64, u64)> = Vec::new();
    let mut i: usize = 0;
    while i < quads.len()
        invariant
            0 <= i <= quads.len(),
            p@.len() == i,
            forall|k: int| 0 <= k < i ==> #[trigger] p@[k] == (quads@[k].1.q11, quads@[k].1.q13),
        decreases quads.len() - i,
    {
        p.push(quads[i].1.byproduct_pair());
        i = i + 1;
    }
    p
}

/// The Goddess-section byproduct pairs, in page order.
fn goddess_pairs() -> (p: Vec<(u64, u64)>)
    ensures
        p@ == goddess_pairs_spec(),
{
    let quads = goddess_section_quads();
    let p = pairs_of(quads.as_slice());
    assert(p@ =~= goddess_pairs_spec());
    p
}

/// Number of distinct byproduct pairs over the Goddess section.
pub fn distinct_byproduct_pairs() -> (n: usize)
    ensures
        n == goddess_pairs_spec().to_set().len(),
{
    let p = goddess_pairs();
    count_distinct_pairs(p.as_slice())
}

/// Entropy of the Goddess-section byproduct pairs: the pair distribution
/// counted in order of first occurrence.
pub open spec fn byproduct_entropy_spec() -> int {
    entropy_spec(counts_of(joint_spec(goddess_pairs_spec())))
}

/// Entropy of the byproduct-pair distribution over the Goddess-section
/// pages, in nat-basis-points.
pub fn byproduct_entropy_nbp() -> (h: i64)
    ensures
        h == byproduct_entropy_spec(),
        0 <= h <= 63 * 6931 + 240000,
{
    let p = goddess_pairs();
    let joint = build_joint_distribution(p.as_slice());
    let counts = counts_vec(joint.as_slice());
    proof {
        lemma_joint_spec(p@);
        let c = counts@;
        assert(count_sum(c) == 9);
    }
    entropy_nbp(counts.as_slice())
}

/// `k` bins of one count each.
pub open spec fn ones(k: nat) -> Seq<u64> {
    Seq::new(k, |i: int| 1u64)
}

proof fn lemma_count_sum_ones(k: nat)
    ensures
        count_sum(ones(k)) == k,
    decreases k,
{
    if k > 0 {
        assert(ones(k).drop_last() =~= ones((k - 1) as nat));
        lemma_count_sum_ones((k - 1) as nat);
    }
}

/// The uniform entropy over `min(n, 143)` bins: the most a pair
/// distribution over `n` pages can reach on the `11 × 13` pairs.
pub open spec fn max_entropy_spec(n: nat) -> int {
    entropy_spec(ones(if n < 143 { n } else { 143 }))
}

/// Maximum entropy of `n_pages` pages over the 143 possible pairs.
pub fn max_byproduct_entropy_nbp(n_pages: usize) -> (h: i64)
    ensures
        h == max_entropy_spec(n_pages as nat),
        0 <= h <= 63 * 6931 + 240000,
{
    let n_bins: usize = if n_pages < 143 {
        n_pages
    } else {
        143
    };
    let bins = vec![1u64; n_bins];
    proof {
        assert(bins@ =~= ones(n_bins as nat));
        lemma_count_sum_ones(n_bins as nat);
    }
    entropy_nbp(bins.as_slice())
}

/// The Montgomery clustering report of the Goddess section.
#[derive(Clone, Debug)]
pub struct MontgomeryReport {
    /// Per page: the total and its quad.
    pub page_quads: Vec<(u64, MontgomeryQuad)>,
    /// Number of distinct byproduct pairs.
    pub distinct_pairs: usize,
    /// Entropy of the pair distribution (nbp).
    pub pair_entropy_nbp: i64,
    /// Largest possible entropy (nbp).
    pub max_entropy_nbp: i64,
    /// Largest less observed entropy (nbp).
    pub entropy_reduction_nbp: i64,
    /// The reduction reaches 3000 nbp.
    pub clustered: bool,
    /// The `(q₁₁, q₁₃)` sequence across pages.
    pub byproduct_sequence: Vec<(u64, u64)>,
    /// The `q₁₁` values form an arithmetic progression.
    pub q11_line_pattern: bool,
}

/// A sequence of at least two values with a constant step.
pub open spec fn is_arithmetic_progression(s: Seq<u64>) -> bool {
    &&& s.len() >= 2
    &&& forall|i: int| 0 <= i < s.len() - 1 ==> #[trigger] s[i + 1] - s[i] == s[1] - s[0]
}

/// The `q₁₁` values of the Goddess-section pairs.
pub open spec fn goddess_q11_spec() -> Seq<u64> {
    goddess_pairs_spec().map_values(|p: (u64, u64)| p.0)
}

/// Builds the Montgomery report of the Goddess section.
pub fn compute_montgomery_report() -> (r: MontgomeryReport)
    ensures
        r.page_quads@ == goddess_quads_spec(),
        r.distinct_pairs == goddess_pairs_spec().to_set().len(),
        r.pair_entropy_nbp == byproduct_entropy_spec(),
        r.max_entropy_nbp == max_entropy_spec(9),
        r.entropy_reduction_nbp == r.max_entropy_nbp - r.pair_entropy_nbp,
        r.clustered == (r.entropy_reduction_nbp >= 3000),
        r.byproduct_sequence@ == goddess_pairs_spec(),
        r.q11_line_pattern == is_arithmetic_progression(goddess_q11_spec()),
{
    let quads = goddess_section_quads();
    let n = quads.len();
    let distinct = distinct_byproduct_pairs();
    let entropy = byproduct_entropy_nbp();
    let max_entropy = max_byproduct_entropy_nbp(n);
    let reduction = max_entropy - entropy;
    let clustered = reduction >= 3000;
    let seq = goddess_pairs();
    let ghost q11s = goddess_q11_spec();
    let d: i64 = seq[1].0 as i64 - seq[0].0 as i64;
    let mut line = true;
    let mut i: usize = 0;
    while i + 1 < seq.len()
        invariant
            seq@ == goddess_pairs_spec(),
            q11s == goddess_q11_spec(),
            q11s.len() == 9,
            0 <= i <= 8,
            d == q11s[1] - q11s[0],
            line == forall|k: int| 0 <= k < i ==> #[trigger] q11s[k + 1] - q11s[k] == d,
        decreases 9 - i,
    {
        proof {
            assert(q11s[i as int] == seq@[i as int].0);
            assert(q11s[i as int + 1] == seq@[i as int + 1].0);
        }
        let ghost before = line;
        if seq[i + 1].0 as i64 - seq[i].0 as i64 != d {
            line = false;
        }
        proof {
            if before && line {
                assert forall|k: int| 0 <= k < i + 1 implies #[trigger] q11s[k + 1] - q11s[k] == d by {
                    if k < i {
                        assert(q11s[k + 1] - q11s[k] == d);
                    }
                }
            }
            if !line {
                assert(!(q11s[i as int + 1] - q11s[i as int] == d) || !before);
            }
        }
        i = i + 1;
    }
    MontgomeryReport {
        page_quads: quads,
        distinct_pairs: distinct,
        pair_entropy_nbp: entropy,
        max_entropy_nbp: max_entropy,
        entropy_reduction_nbp: reduction,
        clustered,
        byproduct_sequence: seq,
        q11_line_pattern: line,
    }
}

/// The day counts of the sweep periods.
pub open spec fn sweep_days() -> Seq<u64> {
    seq![260u64, 365, 584, 819, 148, 177, 11960, 18980, 144000]
}

/// Montgomery quads of the calendar and eclipse periods.
pub fn period_montgomery_sweep() -> (v: Vec<(&'static str, u64, MontgomeryQuad)>)
    ensures
        v@.len() == 9,
        forall|k: int| 0 <= k < 9 ==> (#[trigger] v@[k]).1 == sweep_days()[k] && v@[k].2 == quad_spec(sweep_days()[k]),
        v@[0].0@ == "Tzolk'in"@,
        v@[1].0@ == "Haab"@,
        v@[2].0@ == "Venus synodic"@,
        v@[3].0@ == "Council-819"@,
        v@[4].0@ == "Eclipse-148"@,
        v@[5].0@ == "Eclipse-177"@,
        v@[6].0@ == "Eclipse-11960"@,
        v@[7].0@ == "Calendar Round"@,
        v@[8].0@ == "Baktun"@,
{
    let periods: [(&'static str, u64); 9] = [
        ("Tzolk'in", 260),
        ("Haab", 365),
        ("Venus synodic", 584),
        ("Council-819", 819),
        ("Eclipse-148", 148),
        ("Eclipse-177", 177),
        ("Eclipse-11960", 11_960),
        ("Calendar Round", 18_980),
        ("Baktun", 144_000),
    ];
    let mut v: Vec<(&'static str, u64, MontgomeryQuad)> = Vec::new();
    let mut i: usize = 0;
    while i < 9
        invariant
            0 <= i <= 9,
            periods@ == seq![
                ("Tzolk'in", 260u64),
                ("Haab", 365u64),
                ("Venus synodic", 584u64),
                ("Council-819", 819u64),
                ("Eclipse-148", 148u64),
                ("Eclipse-177", 177u64),
                ("Eclipse-11960", 11_960u64),
                ("Calendar Round", 18_980u64),
                ("Baktun", 144_000u64),
            ],
            v@.len() == i,
            forall|k: int| 0 <= k < i ==> #[trigger] v@[k] == (periods@[k].0, periods@[k].1, quad_spec(periods@[k].1)),
        decreases 9 - i,
    {
        let (name, days) = periods[i];
        v.push((name, days, MontgomeryQuad::from_day(days)));
        i = i + 1;
    }
    v
}

} // verus!
