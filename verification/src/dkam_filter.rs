//! The DKAM admissibility filter: a head's operator is admissible on a
//! basis when its degree, inferred from the number of distinct primes of
//! the head's cycle, stays below the basis's resonance order.

use vstd::prelude::*;
use crate::factor::{distinct_prime_factors, is_prime_factor_list};
use crate::text::{concat, decimal_string, decimal_text, owned};
use crate::{DKAM_MAX_DEGREE, RHO_TRANSPORT, TRANSPORT_CORE};

verus! {

/// The inferred degree of a head's operator.
#[derive(Clone, Copy, Debug)]
pub enum OperatorDegree {
    /// Degree 0: a constant projection.
    Constant,
    /// Degree 1: addition and scaling.
    Linear,
    /// Degree 2: a product of two residues.
    Bilinear,
    /// Degree 3 or more.
    Cubic,
    /// Not determined.
    Unknown,
}

/// The numeric degree (`u64::MAX` for an undetermined one).
pub open spec fn degree_value(d: OperatorDegree) -> u64 {
    match d {
        OperatorDegree::Constant => 0,
        OperatorDegree::Linear => 1,
        OperatorDegree::Bilinear => 2,
        OperatorDegree::Cubic => 3,
        OperatorDegree::Unknown => u64::MAX,
    }
}

impl OperatorDegree {
    pub fn numeric(&self) -> (n: u64)
        ensures
            n == degree_value(*self),
    {
        match self {
            OperatorDegree::Constant => 0,
            OperatorDegree::Linear => 1,
            OperatorDegree::Bilinear => 2,
            OperatorDegree::Cubic => 3,
            OperatorDegree::Unknown => u64::MAX,
        }
    }

    pub fn label(&self) -> (s: &'static str)
        ensures
            *self is Constant ==> s == "Constant",
            *self is Linear ==> s == "Linear",
            *self is Bilinear ==> s == "Bilinear",
            *self is Cubic ==> s == "Cubic+",
            *self is Unknown ==> s == "Unknown",
    {
        match self {
            OperatorDegree::Constant => "Constant",
            OperatorDegree::Linear => "Linear",
            OperatorDegree::Bilinear => "Bilinear",
            OperatorDegree::Cubic => "Cubic+",
            OperatorDegree::Unknown => "Unknown",
        }
    }
}

/// The degree for a cycle with `k` distinct prime factors: constant for
/// none, linear for one, bilinear from two on.
pub open spec fn degree_for(k: nat) -> OperatorDegree {
    if k == 0 {
        OperatorDegree::Constant
    } else if k == 1 {
        OperatorDegree::Linear
    } else {
        OperatorDegree::Bilinear
    }
}

/// The degree inferred for a cycle: linear for 1 and for a prime power,
/// bilinear from two distinct primes on, constant for 0.
pub open spec fn cycle_degree(cycle: u64, d: OperatorDegree) -> bool {
    &&& cycle == 0 ==> d == OperatorDegree::Constant
    &&& cycle == 1 ==> d == OperatorDegree::Linear
    &&& cycle >= 2 ==> forall|f: Seq<u64>| #[trigger] is_prime_factor_list(cycle as nat, f) ==> d == degree_for(f.len())
}

/// Admissibility of one head.
#[derive(Clone, Debug)]
pub struct AdmissibilityReport {
    pub head_name: String,
    pub head_cycle: u64,
    pub inferred_degree: OperatorDegree,
    pub resonance_order: u64,
    pub admissible: bool,
    pub reason: String,
}

/// The DKAM filter of a basis.
#[derive(Clone, Debug)]
pub struct DkamFilter {
    /// The basis evaluated against.
    pub basis: Vec<u64>,
    /// Resonance order of the basis.
    pub rho: u64,
    /// Largest admissible degree.
    pub max_degree: u64,
}

/// The reason text of a report.
pub open spec fn reason_text(name: Seq<char>, degree: u64, rho: u64, max_degree: u64) -> Seq<char> {
    let head = "deg("@ + name + ") = "@ + decimal_text(degree as nat);
    if degree < rho && degree <= max_degree {
        head + " < rho(B) = "@ + decimal_text(rho as nat) + " — subcritical"@
    } else if degree >= rho {
        head + " >= rho(B) = "@ + decimal_text(rho as nat) + " — supercritical, DKAM-excluded"@
    } else {
        head + " exceeds project max_degree = "@ + decimal_text(max_degree as nat)
    }
}

/// The report owed for a head of name `name` and cycle `cycle`.
pub open spec fn report_for(f: DkamFilter, r: AdmissibilityReport, name: Seq<char>, cycle: u64) -> bool {
    &&& r.head_name@ == name
    &&& r.head_cycle == cycle
    &&& cycle_degree(cycle, r.inferred_degree)
    &&& r.resonance_order == f.rho
    &&& r.admissible == (degree_value(r.inferred_degree) < f.rho && degree_value(r.inferred_degree)
        <= f.max_degree)
    &&& r.reason@ == reason_text(name, degree_value(r.inferred_degree), f.rho, f.max_degree)
}

impl DkamFilter {
    /// The Transport Core filter: basis `{3, 7, 11, 13}`, `ρ = 3`, degree
    /// at most 2.
    pub fn canonical() -> (f: Self)
        ensures
            f.basis@ == seq![3u64, 7, 11, 13],
            f.rho == RHO_TRANSPORT,
            f.max_degree == DKAM_MAX_DEGREE,
    {
        let core = TRANSPORT_CORE;
        let mut basis: Vec<u64> = Vec::new();
        let mut i: usize = 0;
        while i < 4
            invariant
                0 <= i <= 4,
                core@ == seq![3u64, 7, 11, 13],
                basis@ == core@.subrange(0, i as int),
            decreases 4 - i,
        {
            basis.push(core[i]);
            i = i + 1;
            assert(basis@ =~= core@.subrange(0, i as int));
        }
        assert(core@.subrange(0, 4) =~= core@);
        DkamFilter { basis, rho: RHO_TRANSPORT, max_degree: DKAM_MAX_DEGREE }
    }

    /// The operator degree of a head of cycle `cycle`, from the number of
    /// distinct primes of the cycle.
    pub fn infer_degree(&self, cycle: u64) -> (d: OperatorDegree)
        ensures
            cycle_degree(cycle, d),
            degree_value(d) <= 2,
    {
        let factors = distinct_prime_factors(cycle);
        proof {
            if cycle >= 2 {
                assert forall|f: Seq<u64>| #[trigger] is_prime_factor_list(cycle as nat, f) implies f.len()
                    == factors@.len() by {
                    crate::factor::lemma_factor_list_unique(cycle as nat, factors@, f);
                }
            }
        }
        if cycle == 1 {
            OperatorDegree::Linear
        } else if cycle == 0 || factors.len() == 0 {
            OperatorDegree::Constant
        } else if factors.len() == 1 {
            OperatorDegree::Linear
        } else {
            OperatorDegree::Bilinear
        }
    }

    /// Admissibility of a head of name `name` and cycle `cycle`: its
    /// degree below `ρ` and at most the largest admitted degree.
    pub fn evaluate(&self, name: &str, cycle: u64) -> (r: AdmissibilityReport)
        ensures
            report_for(*self, r, name@, cycle),
            degree_value(r.inferred_degree) <= 2,
    {
        let degree = self.infer_degree(cycle);
        let degree_num = degree.numeric();
        let admissible = degree_num < self.rho && degree_num <= self.max_degree;
        let a = concat("deg(", name);
        let b = concat(a.as_str(), ") = ");
        let head = concat(b.as_str(), decimal_string(degree_num).as_str());
        let reason = if admissible {
            let c = concat(head.as_str(), " < rho(B) = ");
            let d = concat(c.as_str(), decimal_string(self.rho).as_str());
            concat(d.as_str(), " — subcritical")
        } else if degree_num >= self.rho {
            let c = concat(head.as_str(), " >= rho(B) = ");
            let d = concat(c.as_str(), decimal_string(self.rho).as_str());
            concat(d.as_str(), " — supercritical, DKAM-excluded")
        } else {
            let c = concat(head.as_str(), " exceeds project max_degree = ");
            concat(c.as_str(), decimal_string(self.max_degree).as_str())
        };
        AdmissibilityReport {
            head_name: owned(name),
            head_cycle: cycle,
            inferred_degree: degree,
            resonance_order: self.rho,
            admissible,
            reason,
        }
    }

    /// Reports for several heads, given by name and cycle, in order.
    pub fn evaluate_all(&self, heads: &[(&str, u64)]) -> (v: Vec<AdmissibilityReport>)
        ensures
            v@.len() == heads@.len(),
            forall|i: int| 0 <= i < heads@.len() ==> report_for(*self, #[trigger] v@[i], heads@[i].0@, heads@[i].1),
    {
        let mut v: Vec<AdmissibilityReport> = Vec::new();
        let mut i: usize = 0;
        while i < heads.len()
            invariant
                0 <= i <= heads.len(),
                v@.len() == i,
                forall|j: int| 0 <= j < i ==> report_for(*self, #[trigger] v@[j], heads@[j].0@, heads@[j].1),
            decreases heads.len() - i,
        {
            v.push(self.evaluate(heads[i].0, heads[i].1));
            i = i + 1;
        }
        v
    }
}

} // verus!
