//! The Maya Long Count: a linear baktun count over four cyclic tiers
//! (katun 20, tun 20, uinal 18, kin 20), with tier promotion on overflow.

use vstd::prelude::*;
use vstd::arithmetic::div_mod::{
    lemma_fundamental_div_mod, lemma_fundamental_div_mod_converse, lemma_mod_mod,
};
use crate::engines::lane::{Lane, MayaState, valid_state};
use crate::text::{concat, decimal_string, decimal_text};

verus! {

/// Days per baktun.
pub const KIN_PER_BAKTUN: u64 = 144_000;
/// Days per katun.
pub const KIN_PER_KATUN: u64 = 7_200;
/// Days per tun.
pub const KIN_PER_TUN: u64 = 360;
/// Days per uinal.
pub const KIN_PER_UINAL: u64 = 20;
/// Cyclic tier moduli in `[kin, uinal, tun, katun]` order.
pub const CYCLIC_MODULI: [u64; 4] = [20, 18, 20, 20];

/// Tier-ending markers of a Long Count position.
#[derive(Clone, Copy, Debug, PartialEq, Eq, Hash, Structural)]
pub enum PeriodEnding {
    /// `kin == 0`: end of a 20-day uinal.
    UinalEnd,
    /// `kin == uinal == 0`: end of a 360-day tun.
    TunEnd,
    /// `kin == uinal == tun == 0`: end of a 7,200-day katun.
    KatunEnd,
    /// All four cyclic tiers at 0: end of a 144,000-day baktun.
    BaktunEnd,
}

/// A Long Count position.
#[derive(Clone, Copy, Debug, PartialEq, Eq, Hash, Structural)]
pub struct LongCount {
    pub baktun: u64,
    pub katun: u8,
    pub tun: u8,
    pub uinal: u8,
    pub kin: u8,
}

/// Each cyclic tier is below its modulus.
pub open spec fn lc_wf(lc: LongCount) -> bool {
    lc.katun < 20 && lc.tun < 20 && lc.uinal < 18 && lc.kin < 20
}

/// Total days of a position:
/// `baktun·144000 + katun·7200 + tun·360 + uinal·20 + kin`.
pub open spec fn lc_days(lc: LongCount) -> int {
    lc.baktun * 144_000 + lc.katun * 7_200 + lc.tun * 360 + lc.uinal * 20 + lc.kin
}

/// The position of day `d` by mixed-radix decomposition.
pub open spec fn lc_from_days(d: nat) -> LongCount {
    LongCount {
        baktun: (d / 144_000) as u64,
        katun: ((d % 144_000) / 7_200) as u8,
        tun: ((d % 7_200) / 360) as u8,
        uinal: ((d % 360) / 20) as u8,
        kin: (d % 20) as u8,
    }
}

/// One day of tier promotion: kin carries at 20 into uinal, uinal at 18
/// into tun, tun at 20 into katun, katun at 20 into baktun.
pub open spec fn lc_step(lc: LongCount) -> LongCount {
    let kin1 = lc.kin + 1;
    let carry1 = kin1 >= 20;
    let kin = if carry1 { 0 } else { kin1 };
    let uinal1 = if carry1 { lc.uinal + 1 } else { lc.uinal as int };
    let carry2 = uinal1 >= 18;
    let uinal = if carry2 { 0 } else { uinal1 };
    let tun1 = if carry2 { lc.tun + 1 } else { lc.tun as int };
    let carry3 = tun1 >= 20;
    let tun = if carry3 { 0 } else { tun1 };
    let katun1 = if carry3 { lc.katun + 1 } else { lc.katun as int };
    let carry4 = katun1 >= 20;
    let katun = if carry4 { 0 } else { katun1 };
    let baktun = if carry4 { lc.baktun + 1 } else { lc.baktun as int };
    LongCount {
        baktun: baktun as u64,
        katun: katun as u8,
        tun: tun as u8,
        uinal: uinal as u8,
        kin: kin as u8,
    }
}

/// The tier promotion of `lc_step` stays within the field widths.
pub open spec fn lc_step_fits(lc: LongCount) -> bool {
    let carry1 = lc.kin + 1 >= 20;
    let uinal1 = if carry1 { lc.uinal + 1 } else { lc.uinal as int };
    let carry2 = uinal1 >= 18;
    let tun1 = if carry2 { lc.tun + 1 } else { lc.tun as int };
    let carry3 = tun1 >= 20;
    let katun1 = if carry3 { lc.katun + 1 } else { lc.katun as int };
    let carry4 = katun1 >= 20;
    &&& lc.kin < 255
    &&& uinal1 <= 255
    &&& tun1 <= 255
    &&& katun1 <= 255
    &&& (carry4 ==> lc.baktun < u64::MAX)
}

/// The tier-ending markers of a position, lowest tier first.
pub open spec fn endings_spec(lc: LongCount) -> Seq<PeriodEnding> {
    if lc.kin != 0 {
        seq![]
    } else if lc.uinal != 0 {
        seq![PeriodEnding::UinalEnd]
    } else if lc.tun != 0 {
        seq![PeriodEnding::UinalEnd, PeriodEnding::TunEnd]
    } else if lc.katun != 0 {
        seq![PeriodEnding::UinalEnd, PeriodEnding::TunEnd, PeriodEnding::KatunEnd]
    } else {
        seq![
            PeriodEnding::UinalEnd,
            PeriodEnding::TunEnd,
            PeriodEnding::KatunEnd,
            PeriodEnding::BaktunEnd,
        ]
    }
}

/// The cyclic lanes `[kin 20, uinal 18, tun 20, katun 20]`.
pub open spec fn cyclic_lanes_spec() -> Seq<Lane> {
    seq![
        Lane { name: "kin", modulus: 20, domain: "day" },
        Lane { name: "uinal", modulus: 18, domain: "month" },
        Lane { name: "tun", modulus: 20, domain: "year" },
        Lane { name: "katun", modulus: 20, domain: "era" },
    ]
}

/// The dotted rendering `baktun.katun.tun.uinal.kin`.
pub open spec fn lc_text(lc: LongCount) -> Seq<char> {
    decimal_text(lc.baktun as nat) + seq!['.'] + decimal_text(lc.katun as nat) + seq!['.']
        + decimal_text(lc.tun as nat) + seq!['.'] + decimal_text(lc.uinal as nat) + seq!['.']
        + decimal_text(lc.kin as nat)
}

/// Successive remainders of the mixed radix are plain remainders.
pub proof fn lemma_lc_nested_mods(d: nat)
    ensures
        (d % 144_000) % 7_200 == d % 7_200,
        (d % 7_200) % 360 == d % 360,
        (d % 360) % 20 == d % 20,
{
    lemma_mod_mod(d as int, 7_200, 20);
    lemma_mod_mod(d as int, 360, 20);
    lemma_mod_mod(d as int, 20, 18);
}

/// Decomposing a day count and summing the tiers back gives the day count.
pub proof fn lemma_lc_from_days_sums_back(d: nat)
    requires
        d <= u64::MAX,
    ensures
        lc_wf(lc_from_days(d)),
        lc_days(lc_from_days(d)) == d,
{
    lemma_lc_nested_mods(d);
    let q1 = d / 144_000;
    let r1 = d % 144_000;
    let q2 = r1 / 7_200;
    let r2 = d % 7_200;
    let q3 = r2 / 360;
    let r3 = d % 360;
    let q4 = r3 / 20;
    let r4 = d % 20;
    lemma_fundamental_div_mod(d as int, 144_000);
    lemma_fundamental_div_mod(r1 as int, 7_200);
    lemma_fundamental_div_mod(r2 as int, 360);
    lemma_fundamental_div_mod(r3 as int, 20);
    assert(r1 < 144_000 && r2 < 7_200 && r3 < 360 && r4 < 20);
    assert(q2 < 20 && q3 < 20 && q4 < 18);
    assert(q1 <= d);
    let lc = lc_from_days(d);
    assert(lc.baktun == q1 && lc.katun == q2 && lc.tun == q3 && lc.uinal == q4 && lc.kin == r4);
    assert(d == 144_000 * q1 + r1);
    assert(r1 == 7_200 * q2 + r2);
    assert(r2 == 360 * q3 + r3);
    assert(r3 == 20 * q4 + r4);
}

/// A well-formed position is the decomposition of its day count.
pub proof fn lemma_lc_days_decomposes(lc: LongCount)
    requires
        lc_wf(lc),
    ensures
        lc_from_days(lc_days(lc) as nat) == lc,
{
    let d = lc_days(lc);
    let r1 = lc.katun * 7_200 + lc.tun * 360 + lc.uinal * 20 + lc.kin;
    lemma_fundamental_div_mod_converse(d, 144_000, lc.baktun as int, r1);
    let r2 = lc.tun * 360 + lc.uinal * 20 + lc.kin;
    lemma_fundamental_div_mod_converse(r1, 7_200, lc.katun as int, r2);
    lemma_fundamental_div_mod_converse(d, 7_200, (lc.baktun * 20 + lc.katun) as int, r2);
    let r3 = lc.uinal * 20 + lc.kin;
    lemma_fundamental_div_mod_converse(r2, 360, lc.tun as int, r3);
    lemma_fundamental_div_mod_converse(
        d,
        360,
        (lc.baktun * 400 + lc.katun * 20 + lc.tun) as int,
        r3,
    );
    lemma_fundamental_div_mod_converse(r3, 20, lc.uinal as int, lc.kin as int);
    lemma_fundamental_div_mod_converse(
        d,
        20,
        (lc.baktun * 7_200 + lc.katun * 360 + lc.tun * 18 + lc.uinal) as int,
        lc.kin as int,
    );
}

/// Advancing by `a` then by `b` is advancing by `a + b`.
pub proof fn lemma_lc_advance_additive(lc: LongCount, a: nat, b: nat)
    requires
        lc_days(lc) + a + b <= u64::MAX,
    ensures
        lc_from_days((lc_days(lc_from_days((lc_days(lc) + a) as nat)) + b) as nat)
            == lc_from_days((lc_days(lc) + a + b) as nat),
{
    if lc_days(lc) + a >= 0 {
        lemma_lc_from_days_sums_back((lc_days(lc) + a) as nat);
    }
}

/// One step of tier promotion adds one day to a well-formed position.
pub proof fn lemma_lc_step_adds_one_day(lc: LongCount)
    requires
        lc_wf(lc),
        lc.baktun < u64::MAX,
    ensures
        lc_wf(lc_step(lc)),
        lc_days(lc_step(lc)) == lc_days(lc) + 1,
        lc_step(lc) == lc_from_days((lc_days(lc) + 1) as nat),
{
    lemma_lc_days_decomposes(lc_step(lc));
}

/// Each tier-ending marker is reported exactly when its tier and every
/// lower tier stand at 0, that is, exactly when the day count is a
/// multiple of the period that ends: a uinal (20 days), a tun (360), a
/// katun (7,200) or a baktun (144,000) (for a well-formed position).
pub proof fn lemma_period_endings_tiers(lc: LongCount)
    ensures
        endings_spec(lc).contains(PeriodEnding::UinalEnd) <==> lc.kin == 0,
        endings_spec(lc).contains(PeriodEnding::TunEnd) <==> (lc.kin == 0 && lc.uinal == 0),
        endings_spec(lc).contains(PeriodEnding::KatunEnd) <==> (lc.kin == 0 && lc.uinal == 0
            && lc.tun == 0),
        endings_spec(lc).contains(PeriodEnding::BaktunEnd) <==> (lc.kin == 0 && lc.uinal == 0
            && lc.tun == 0 && lc.katun == 0),
        lc_wf(lc) ==> (endings_spec(lc).contains(PeriodEnding::UinalEnd) <==> lc_days(lc) % 20
            == 0),
        lc_wf(lc) ==> (endings_spec(lc).contains(PeriodEnding::TunEnd) <==> lc_days(lc) % 360
            == 0),
        lc_wf(lc) ==> (endings_spec(lc).contains(PeriodEnding::KatunEnd) <==> lc_days(lc)
            % 7_200 == 0),
        lc_wf(lc) ==> (endings_spec(lc).contains(PeriodEnding::BaktunEnd) <==> lc_days(lc)
            % 144_000 == 0),
{
    let e = endings_spec(lc);
    assert forall|x: PeriodEnding| #[trigger] e.contains(x) <==> (
        (x == PeriodEnding::UinalEnd && lc.kin == 0)
        || (x == PeriodEnding::TunEnd && lc.kin == 0 && lc.uinal == 0)
        || (x == PeriodEnding::KatunEnd && lc.kin == 0 && lc.uinal == 0 && lc.tun == 0)
        || (x == PeriodEnding::BaktunEnd && lc.kin == 0 && lc.uinal == 0 && lc.tun == 0
            && lc.katun == 0)) by {
        if e.contains(x) {
            let i = choose|i: int| 0 <= i < e.len() && e[i] == x;
            assert(0 <= i < e.len() && e[i] == x);
        }
        if x == PeriodEnding::UinalEnd && lc.kin == 0 {
            assert(e[0] == x);
        }
        if x == PeriodEnding::TunEnd && lc.kin == 0 && lc.uinal == 0 {
            assert(e[1] == x);
        }
        if x == PeriodEnding::KatunEnd && lc.kin == 0 && lc.uinal == 0 && lc.tun == 0 {
            assert(e[2] == x);
        }
        if x == PeriodEnding::BaktunEnd && lc.kin == 0 && lc.uinal == 0 && lc.tun == 0
            && lc.katun == 0 {
            assert(e[3] == x);
        }
    }
    if lc_wf(lc) {
        lemma_period_days_multiples(lc);
    }
}

/// For a well-formed position, the day count modulo each period is made
/// of the tiers below it.
proof fn lemma_period_days_multiples(lc: LongCount)
    requires
        lc_wf(lc),
    ensures
        lc_days(lc) % 20 == lc.kin,
        lc_days(lc) % 360 == 20 * lc.uinal + lc.kin,
        lc_days(lc) % 7_200 == 360 * lc.tun + 20 * lc.uinal + lc.kin,
        lc_days(lc) % 144_000 == 7_200 * lc.katun + 360 * lc.tun + 20 * lc.uinal + lc.kin,
{
    let d = lc_days(lc) as nat;
    lemma_lc_days_decomposes(lc);
    lemma_lc_nested_mods(d);
    lemma_fundamental_div_mod(d as int, 20);
    lemma_fundamental_div_mod((d % 360) as int, 20);
    lemma_fundamental_div_mod((d % 7_200) as int, 360);
    lemma_fundamental_div_mod((d % 144_000) as int, 7_200);
    assert(lc.kin == d % 20);
    assert(d % 360 == 20 * lc.uinal + lc.kin);
    assert(d % 7_200 == 360 * lc.tun + d % 360);
    assert(d % 144_000 == 7_200 * lc.katun + d % 7_200);
}

impl LongCount {
    /// A position with each cyclic tier reduced modulo its tier modulus.
    pub fn new(baktun: u64, katun: u64, tun: u64, uinal: u64, kin: u64) -> (lc: LongCount)
        ensures
            lc == (LongCount {
                baktun,
                katun: (katun % 20) as u8,
                tun: (tun % 20) as u8,
                uinal: (uinal % 18) as u8,
                kin: (kin % 20) as u8,
            }),
            lc_wf(lc),
    {
        LongCount {
            baktun,
            katun: (katun % 20) as u8,
            tun: (tun % 20) as u8,
            uinal: (uinal % 18) as u8,
            kin: (kin % 20) as u8,
        }
    }

    /// Total day count.
    pub fn to_days(&self) -> (d: u64)
        requires
            lc_days(*self) <= u64::MAX,
        ensures
            d == lc_days(*self),
    {
        self.baktun * KIN_PER_BAKTUN + (self.katun as u64) * KIN_PER_KATUN + (self.tun as u64)
            * KIN_PER_TUN + (self.uinal as u64) * KIN_PER_UINAL + (self.kin as u64)
    }

    /// The position of a day count; inverse of `to_days`.
    pub fn from_days(days: u64) -> (lc: LongCount)
        ensures
            lc == lc_from_days(days as nat),
            lc_wf(lc),
            lc_days(lc) == days,
    {
        proof {
            lemma_lc_from_days_sums_back(days as nat);
            lemma_lc_nested_mods(days as nat);
        }
        let baktun = days / KIN_PER_BAKTUN;
        let d1 = days % KIN_PER_BAKTUN;
        let katun = (d1 / KIN_PER_KATUN) as u8;
        let d2 = d1 % KIN_PER_KATUN;
        let tun = (d2 / KIN_PER_TUN) as u8;
        let d3 = d2 % KIN_PER_TUN;
        let uinal = (d3 / KIN_PER_UINAL) as u8;
        let kin = (d3 % KIN_PER_UINAL) as u8;
        assert(d1 == days % 144_000 && d2 == days % 7_200 && d3 == days % 360);
        LongCount { baktun, katun, tun, uinal, kin }
    }

    /// Advances exactly one day through tier promotion.
    pub fn advance_one_day(&self) -> (lc: LongCount)
        requires
            lc_step_fits(*self),
        ensures
            lc == lc_step(*self),
    {
        let mut kin = self.kin + 1;
        let mut uinal = self.uinal;
        let mut tun = self.tun;
        let mut katun = self.katun;
        let mut baktun = self.baktun;
        if kin >= 20 {
            kin = 0;
            uinal = uinal + 1;
        }
        if uinal >= 18 {
            uinal = 0;
            tun = tun + 1;
        }
        if tun >= 20 {
            tun = 0;
            katun = katun + 1;
        }
        if katun >= 20 {
            katun = 0;
            baktun = baktun + 1;
        }
        LongCount { baktun, katun, tun, uinal, kin }
    }

    /// Advances by `days`: the position of `to_days() + days`.
    pub fn advance(&self, days: u64) -> (lc: LongCount)
        requires
            lc_days(*self) + days <= u64::MAX,
        ensures
            lc == lc_from_days((lc_days(*self) + days) as nat),
    {
        Self::from_days(self.to_days() + days)
    }

    /// The four cyclic tiers as a state over `[kin, uinal, tun, katun]`.
    pub fn cyclic_state(&self) -> (s: MayaState)
        requires
            lc_wf(*self),
        ensures
            s.lns() == cyclic_lanes_spec(),
            s.res() == seq![self.kin as u64, self.uinal as u64, self.tun as u64, self.katun as u64],
    {
        let lanes = vec![
            Lane { name: "kin", modulus: 20, domain: "day" },
            Lane { name: "uinal", modulus: 18, domain: "month" },
            Lane { name: "tun", modulus: 20, domain: "year" },
            Lane { name: "katun", modulus: 20, domain: "era" },
        ];
        let residues = vec![self.kin as u64, self.uinal as u64, self.tun as u64, self.katun as u64];
        assert(valid_state(residues@, lanes@));
        MayaState::from_valid(residues, lanes)
    }

    /// All tier-ending markers achieved at this position, lowest first.
    pub fn period_endings(&self) -> (v: Vec<PeriodEnding>)
        ensures
            v@ == endings_spec(*self),
            v@.contains(PeriodEnding::UinalEnd) <==> self.kin == 0,
            v@.contains(PeriodEnding::TunEnd) <==> (self.kin == 0 && self.uinal == 0),
            v@.contains(PeriodEnding::KatunEnd) <==> (self.kin == 0 && self.uinal == 0
                && self.tun == 0),
            v@.contains(PeriodEnding::BaktunEnd) <==> (self.kin == 0 && self.uinal == 0
                && self.tun == 0 && self.katun == 0),
            lc_wf(*self) ==> (v@.contains(PeriodEnding::KatunEnd) <==> lc_days(*self) % 7_200
                == 0),
            lc_wf(*self) ==> (v@.contains(PeriodEnding::BaktunEnd) <==> lc_days(*self)
                % 144_000 == 0),
    {
        let mut endings: Vec<PeriodEnding> = Vec::new();
        if self.kin == 0 {
            endings.push(PeriodEnding::UinalEnd);
            if self.uinal == 0 {
                endings.push(PeriodEnding::TunEnd);
                if self.tun == 0 {
                    endings.push(PeriodEnding::KatunEnd);
                    if self.katun == 0 {
                        endings.push(PeriodEnding::BaktunEnd);
                    }
                }
            }
        }
        assert(endings@ =~= endings_spec(*self));
        proof {
            lemma_period_endings_tiers(*self);
        }
        endings
    }

    /// The dotted rendering `baktun.katun.tun.uinal.kin`.
    pub fn display_string(&self) -> (s: String)
        ensures
            s@ == lc_text(*self),
    {
        let s = concat(decimal_string(self.baktun).as_str(), ".");
        let s = concat(s.as_str(), decimal_string(self.katun as u64).as_str());
        let s = concat(s.as_str(), ".");
        let s = concat(s.as_str(), decimal_string(self.tun as u64).as_str());
        let s = concat(s.as_str(), ".");
        let s = concat(s.as_str(), decimal_string(self.uinal as u64).as_str());
        let s = concat(s.as_str(), ".");
        let s = concat(s.as_str(), decimal_string(self.kin as u64).as_str());
        proof {
            reveal_strlit(".");
        }
        s
    }
}

} // verus!
