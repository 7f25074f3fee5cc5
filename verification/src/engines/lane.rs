//! Lanes and `MayaState`: a CRT residue tuple over a heterogeneous set of
//! lanes, each with its own modulus, plus the adapters to the six-lane
//! Safe Basis address.

use vstd::prelude::*;
use crate::text::{str_equal, concat, decimal_string, decimal_text};
use crate::engines::pisano::{
    PisanoError, PISANO_MAX_MODULUS, pisano_period, fibonacci_mod_sequence, fib,
    is_pisano_period, returns_to_origin,
};
use crate::engines::ramanujan::{ramanujan_sum, ramanujan_spec};
use crate::substrate::{SAFE_BASIS, safe_basis};

verus! {

/// One lane of an operator-fabric CRT representation: a stable short
/// name, the lane modulus and a free-form domain tag.
#[derive(Clone, Copy, Debug)]
pub struct Lane {
    pub name: &'static str,
    pub modulus: u64,
    pub domain: &'static str,
}

/// Two lanes are the same lane when name, modulus and domain agree.
pub open spec fn same_lane(a: Lane, b: Lane) -> bool {
    a.name@ == b.name@ && a.modulus == b.modulus && a.domain@ == b.domain@
}

/// Two lane sequences agree lane by lane.
pub open spec fn same_lanes(a: Seq<Lane>, b: Seq<Lane>) -> bool {
    a.len() == b.len() && forall|i: int| 0 <= i < a.len() ==> same_lane(#[trigger] a[i], b[i])
}

impl Lane {
    /// Lane identity: name, modulus and domain all agree.
    pub fn same(&self, other: &Lane) -> (r: bool)
        ensures
            r == same_lane(*self, *other),
    {
        self.modulus == other.modulus && str_equal(self.name, other.name) && str_equal(
            self.domain,
            other.domain,
        )
    }
}

impl PartialEq for Lane {
    fn eq(&self, other: &Lane) -> (r: bool) {
        self.same(other)
    }
}

impl vstd::std_specs::cmp::PartialEqSpecImpl for Lane {
    open spec fn obeys_eq_spec() -> bool {
        true
    }

    open spec fn eq_spec(&self, other: &Lane) -> bool {
        same_lane(*self, *other)
    }
}

/// Errors of `MayaState` construction and comparison.
#[derive(Clone, Debug, PartialEq, Eq, Structural)]
pub enum MayaStateError {
    /// `residues.len() != lanes.len()`.
    LaneResidueMismatch { lanes: usize, residues: usize },
    /// A residue is not below its lane's modulus.
    ResidueOutOfRange { lane_idx: usize, residue: u64, modulus: u64 },
    /// Lane configurations do not match.
    LaneMismatch,
    /// A lane has modulus 0.
    ZeroModulus { lane_idx: usize },
}

/// Residue tuple `r` is valid over lanes `l`: equal lengths, positive
/// moduli, every residue below its modulus.
pub open spec fn valid_state(r: Seq<u64>, l: Seq<Lane>) -> bool {
    &&& r.len() == l.len()
    &&& forall|i: int| 0 <= i < l.len() ==> #[trigger] l[i].modulus > 0
    &&& forall|i: int| 0 <= i < l.len() ==> #[trigger] r[i] < l[i].modulus
}

/// The outcome `MayaState::new` owes for residues `r` over lanes `l`:
/// lengths first, then lane by lane a zero modulus or an out-of-range
/// residue, the first offending lane reported.
pub open spec fn construction_error(r: Seq<u64>, l: Seq<Lane>) -> Option<MayaStateError> {
    if r.len() != l.len() {
        Some(
            MayaStateError::LaneResidueMismatch {
                lanes: l.len() as usize,
                residues: r.len() as usize,
            },
        )
    } else {
        first_bad_lane(r, l, 0)
    }
}

/// Scanning from lane `i`, the first lane with zero modulus or with a
/// residue not below its modulus.
pub open spec fn first_bad_lane(r: Seq<u64>, l: Seq<Lane>, i: nat) -> Option<MayaStateError>
    decreases l.len() - i,
{
    if i >= l.len() {
        None
    } else if l[i as int].modulus == 0 {
        Some(MayaStateError::ZeroModulus { lane_idx: i as usize })
    } else if r[i as int] >= l[i as int].modulus {
        Some(
            MayaStateError::ResidueOutOfRange {
                lane_idx: i as usize,
                residue: r[i as int],
                modulus: l[i as int].modulus,
            },
        )
    } else {
        first_bad_lane(r, l, i + 1)
    }
}

/// First lane with zero modulus from lane `i` on.
pub open spec fn first_zero_lane(l: Seq<Lane>, i: nat) -> Option<usize>
    decreases l.len() - i,
{
    if i >= l.len() {
        None
    } else if l[i as int].modulus == 0 {
        Some(i as usize)
    } else {
        first_zero_lane(l, i + 1)
    }
}

/// Number of zero entries of a residue sequence.
pub open spec fn zero_count(r: Seq<u64>) -> nat
    decreases r.len(),
{
    if r.len() == 0 {
        0
    } else {
        zero_count(r.drop_last()) + if r.last() == 0 { 1nat } else { 0nat }
    }
}

/// Residues of `r` advanced by `days` lane by lane.
pub open spec fn advanced(r: Seq<u64>, l: Seq<Lane>, days: u64) -> Seq<u64> {
    Seq::new(r.len(), |i: int| ((r[i] + days % l[i].modulus) % (l[i].modulus as int)) as u64)
}

/// Advancing by `a` then by `b` is advancing by `a + b`, and advancing by
/// 0 changes nothing.
pub proof fn lemma_advance_additive(r: Seq<u64>, l: Seq<Lane>, a: u64, b: u64)
    requires
        valid_state(r, l),
        a + b <= u64::MAX,
    ensures
        advanced(advanced(r, l, a), l, b) == advanced(r, l, (a + b) as u64),
        advanced(r, l, 0) == r,
{
    assert forall|i: int| 0 <= i < r.len() implies #[trigger] advanced(advanced(r, l, a), l, b)[i] == advanced(
        r,
        l,
        (a + b) as u64,
    )[i] by {
        let p = l[i].modulus as int;
        let x = r[i] as int;
        vstd::arithmetic::div_mod::lemma_mod_bound(x + (a as int) % p, p);
        vstd::arithmetic::div_mod::lemma_add_mod_noop(x + (a as int) % p, b as int, p);
        vstd::arithmetic::div_mod::lemma_mod_twice(b as int, p);
        vstd::arithmetic::div_mod::lemma_add_mod_noop(x, a as int, p);
        vstd::arithmetic::div_mod::lemma_mod_twice(a as int, p);
        vstd::arithmetic::div_mod::lemma_add_mod_noop(x + a, b as int, p);
        vstd::arithmetic::div_mod::lemma_add_mod_noop(x, (a + b) as int, p);
        vstd::arithmetic::div_mod::lemma_mod_twice((a + b) as int, p);
        vstd::arithmetic::div_mod::lemma_mod_bound(x + ((a + b) as int) % p, p);
        vstd::arithmetic::div_mod::lemma_mod_bound(x + (a as int) % p, p);
        vstd::arithmetic::div_mod::lemma_mod_bound(b as int, p);
        vstd::arithmetic::div_mod::lemma_mod_bound(a as int, p);
        vstd::arithmetic::div_mod::lemma_add_mod_noop(x, (a as int) % p, p);
        vstd::arithmetic::div_mod::lemma_add_mod_noop(x + a, (b as int) % p, p);
        vstd::arithmetic::div_mod::lemma_add_mod_noop(x, ((a + b) as int) % p, p);
    }
    assert(advanced(advanced(r, l, a), l, b) =~= advanced(r, l, (a + b) as u64));
    assert forall|i: int| 0 <= i < r.len() implies #[trigger] advanced(r, l, 0)[i] == r[i] by {
        vstd::arithmetic::div_mod::lemma_small_mod(r[i] as nat, l[i].modulus as nat);
    }
    assert(advanced(r, l, 0) =~= r);
}

/// Residues reduced lane by lane.
pub open spec fn lane_reduced(v: Seq<u64>, l: Seq<Lane>) -> Seq<u64> {
    Seq::new(v.len(), |i: int| ((v[i] as int) % (l[i].modulus as int)) as u64)
}

/// A CRT residue tuple over a heterogeneous lane set.
#[derive(Debug)]
pub struct MayaState {
    residues: Vec<u64>,
    lanes: Vec<Lane>,
}

impl MayaState {
    #[verifier::type_invariant]
    spec fn inv(&self) -> bool {
        valid_state(self.residues@, self.lanes@)
    }

    /// The residue tuple.
    pub closed spec fn res(&self) -> Seq<u64> {
        self.residues@
    }

    /// The lane configuration.
    pub closed spec fn lns(&self) -> Seq<Lane> {
        self.lanes@
    }

    /// Constructs a state from residues and lanes, refusing mismatched
    /// lengths, zero moduli and residues not below their modulus.
    pub fn new(residues: Vec<u64>, lanes: Vec<Lane>) -> (r: Result<MayaState, MayaStateError>)
        ensures
            match r {
                Ok(s) => s.res() == residues@ && s.lns() == lanes@ && construction_error(
                    residues@,
                    lanes@,
                ) is None,
                Err(e) => construction_error(residues@, lanes@) == Some(e),
            },
    {
        if residues.len() != lanes.len() {
            return Err(
                MayaStateError::LaneResidueMismatch { lanes: lanes.len(), residues: residues.len() },
            );
        }
        let mut i: usize = 0;
        while i < lanes.len()
            invariant
                residues.len() == lanes.len(),
                0 <= i <= lanes.len(),
                forall|j: int| 0 <= j < i ==> #[trigger] lanes@[j].modulus > 0,
                forall|j: int| 0 <= j < i ==> #[trigger] residues@[j] < lanes@[j].modulus,
                first_bad_lane(residues@, lanes@, 0) == first_bad_lane(residues@, lanes@, i as nat),
            decreases lanes.len() - i,
        {
            if lanes[i].modulus == 0 {
                return Err(MayaStateError::ZeroModulus { lane_idx: i });
            }
            if residues[i] >= lanes[i].modulus {
                return Err(
                    MayaStateError::ResidueOutOfRange {
                        lane_idx: i,
                        residue: residues[i],
                        modulus: lanes[i].modulus,
                    },
                );
            }
            i = i + 1;
        }
        Ok(MayaState { residues, lanes })
    }

    /// Reduces each value modulo its lane's modulus, refusing mismatched
    /// lengths and zero moduli.
    pub fn from_unbounded(values: Vec<u64>, lanes: Vec<Lane>) -> (r: Result<
        MayaState,
        MayaStateError,
    >)
        ensures
            values.len() != lanes.len() ==> r == Err::<MayaState, MayaStateError>(
                MayaStateError::LaneResidueMismatch {
                    lanes: lanes.len(),
                    residues: values.len(),
                },
            ),
            values.len() == lanes.len() ==> match first_zero_lane(lanes@, 0) {
                Some(k) => r == Err::<MayaState, MayaStateError>(
                    MayaStateError::ZeroModulus { lane_idx: k },
                ),
                None => r matches Ok(s) && s.res() == lane_reduced(values@, lanes@) && s.lns()
                    == lanes@,
            },
    {
        if values.len() != lanes.len() {
            return Err(
                MayaStateError::LaneResidueMismatch { lanes: lanes.len(), residues: values.len() },
            );
        }
        let mut i: usize = 0;
        while i < lanes.len()
            invariant
                values.len() == lanes.len(),
                0 <= i <= lanes.len(),
                forall|j: int| 0 <= j < i ==> #[trigger] lanes@[j].modulus > 0,
                first_zero_lane(lanes@, 0) == first_zero_lane(lanes@, i as nat),
            decreases lanes.len() - i,
        {
            if lanes[i].modulus == 0 {
                return Err(MayaStateError::ZeroModulus { lane_idx: i });
            }
            i = i + 1;
        }
        let mut residues: Vec<u64> = Vec::new();
        let mut k: usize = 0;
        while k < lanes.len()
            invariant
                values.len() == lanes.len(),
                0 <= k <= lanes.len(),
                forall|j: int| 0 <= j < lanes.len() ==> #[trigger] lanes@[j].modulus > 0,
                residues.len() == k,
                forall|j: int| 0 <= j < k ==> #[trigger] residues@[j] == values@[j] % lanes@[j].modulus,
            decreases lanes.len() - k,
        {
            residues.push(values[k] % lanes[k].modulus);
            k = k + 1;
        }
        assert forall|j: int| 0 <= j < residues.len() implies #[trigger] residues@[j] == lane_reduced(
            values@,
            lanes@,
        )[j] by {
        }
        assert(residues@ =~= lane_reduced(values@, lanes@));
        assert(first_zero_lane(lanes@, lanes.len() as nat) is None);
        Ok(MayaState { residues, lanes })
    }

    /// The residue tuple.
    pub fn residues(&self) -> (r: &[u64])
        ensures
            r@ == self.res(),
            valid_state(self.res(), self.lns()),
    {
        proof {
            use_type_invariant(self);
        }
        self.residues.as_slice()
    }

    /// The lane configuration.
    pub fn lanes(&self) -> (l: &[Lane])
        ensures
            l@ == self.lns(),
            valid_state(self.res(), self.lns()),
    {
        proof {
            use_type_invariant(self);
        }
        self.lanes.as_slice()
    }

    /// Number of lanes.
    pub fn lane_count(&self) -> (n: usize)
        ensures
            n == self.lns().len(),
            n == self.res().len(),
    {
        proof {
            use_type_invariant(self);
        }
        self.lanes.len()
    }

    /// Advances every lane by `days`: `r' = (r + days mod p) mod p`.
    pub fn advance(&self, days: u64) -> (s: MayaState)
        ensures
            s.lns() == self.lns(),
            s.res() == advanced(self.res(), self.lns(), days),
    {
        proof {
            use_type_invariant(self);
        }
        let mut residues: Vec<u64> = Vec::new();
        let mut i: usize = 0;
        while i < self.lanes.len()
            invariant
                valid_state(self.residues@, self.lanes@),
                0 <= i <= self.lanes.len(),
                residues.len() == i,
                forall|j: int| 0 <= j < i ==> #[trigger] residues@[j] == advanced(
                    self.residues@,
                    self.lanes@,
                    days,
                )[j],
                forall|j: int| 0 <= j < i ==> #[trigger] residues@[j] < self.lanes@[j].modulus,
            decreases self.lanes.len() - i,
        {
            let p = self.lanes[i].modulus;
            let d = days % p;
            let r = self.residues[i];
            let next = if r >= p - d { r - (p - d) } else { r + d };
            assert(next == (r + d) % (p as int)) by {
                if r >= p - d {
                    vstd::arithmetic::div_mod::lemma_fundamental_div_mod_converse(
                        r + d, p as int, 1, next as int);
                } else {
                    vstd::arithmetic::div_mod::lemma_small_mod((r + d) as nat, p as nat);
                }
            }
            residues.push(next);
            i = i + 1;
        }
        assert(residues@ =~= advanced(self.residues@, self.lanes@, days));
        let lanes = copy_lanes(self.lanes.as_slice());
        MayaState { residues, lanes }
    }

    /// Same CRT position: identical lanes and identical residues.
    pub fn same_position(&self, other: &MayaState) -> (r: bool)
        ensures
            r == (same_lanes(self.lns(), other.lns()) && self.res() == other.res()),
    {
        proof {
            use_type_invariant(self);
            use_type_invariant(other);
        }
        if self.lanes.len() != other.lanes.len() {
            return false;
        }
        let mut i: usize = 0;
        while i < self.lanes.len()
            invariant
                self.lanes.len() == other.lanes.len(),
                self.residues.len() == self.lanes.len(),
                other.residues.len() == other.lanes.len(),
                0 <= i <= self.lanes.len(),
                forall|j: int| 0 <= j < i ==> same_lane(#[trigger] self.lanes@[j], other.lanes@[j]),
                forall|j: int| 0 <= j < i ==> #[trigger] self.residues@[j] == other.residues@[j],
            decreases self.lanes.len() - i,
        {
            if !self.lanes[i].same(&other.lanes[i]) || self.residues[i] != other.residues[i] {
                assert(!same_lanes(self.lanes@, other.lanes@) || self.residues@ != other.residues@)
                    by {
                    if self.residues@ == other.residues@ {
                        assert(self.residues@[i as int] == other.residues@[i as int]);
                    }
                }
                return false;
            }
            i = i + 1;
        }
        assert(self.residues@ =~= other.residues@);
        true
    }

    /// Whether lane `idx` is at residue 0.
    pub fn lane_at_origin(&self, idx: usize) -> (r: bool)
        requires
            idx < self.lns().len(),
        ensures
            r == (self.res()[idx as int] == 0),
    {
        proof {
            use_type_invariant(self);
        }
        self.residues[idx] == 0
    }

    /// Number of lanes simultaneously at residue 0.
    pub fn alignment_count(&self) -> (n: usize)
        ensures
            n == zero_count(self.res()),
    {
        proof {
            use_type_invariant(self);
        }
        let mut n: usize = 0;
        let mut i: usize = 0;
        while i < self.residues.len()
            invariant
                0 <= i <= self.residues.len(),
                n == zero_count(self.residues@.subrange(0, i as int)),
                n <= i,
            decreases self.residues.len() - i,
        {
            assert(self.residues@.subrange(0, i as int + 1).drop_last() =~= self.residues@.subrange(
                0,
                i as int,
            ));
            if self.residues[i] == 0 {
                n = n + 1;
            }
            i = i + 1;
        }
        assert(self.residues@.subrange(0, self.residues.len() as int) =~= self.residues@);
        n
    }
}

/// Copies a residue vector element by element.
fn copy_residues(residues: &Vec<u64>) -> (out: Vec<u64>)
    ensures
        out@ == residues@,
{
    let mut out: Vec<u64> = Vec::new();
    let mut i: usize = 0;
    while i < residues.len()
        invariant
            0 <= i <= residues.len(),
            out@ == residues@.subrange(0, i as int),
        decreases residues.len() - i,
    {
        out.push(residues[i]);
        i = i + 1;
        assert(out@ =~= residues@.subrange(0, i as int));
    }
    assert(residues@.subrange(0, residues.len() as int) =~= residues@);
    out
}

impl Clone for MayaState {
    fn clone(&self) -> (s: MayaState)
        ensures
            s.res() == self.res(),
            s.lns() == self.lns(),
    {
        proof {
            use_type_invariant(self);
        }
        MayaState { residues: copy_residues(&self.residues), lanes: copy_lanes(self.lanes.as_slice()) }
    }
}

/// Copies a lane vector element by element.
pub(crate) fn copy_lanes(lanes: &[Lane]) -> (out: Vec<Lane>)
    ensures
        out@ == lanes@,
{
    let mut out: Vec<Lane> = Vec::new();
    let mut i: usize = 0;
    while i < lanes.len()
        invariant
            0 <= i <= lanes.len(),
            out@ == lanes@.subrange(0, i as int),
        decreases lanes.len() - i,
    {
        out.push(lanes[i]);
        i = i + 1;
        assert(out@ =~= lanes@.subrange(0, i as int));
    }
    assert(lanes@.subrange(0, lanes.len() as int) =~= lanes@);
    out
}


/// The residues `F_0 .. F_{n-1}` modulo `m`.
pub open spec fn fib_residues(m: nat, n: nat) -> Seq<nat> {
    Seq::new(n, |i: int| fib(i as nat) % m)
}

/// Number of distinct residues one Pisano period of `m` (length `n`) visits.
pub open spec fn distinct_residue_count(m: nat, n: nat) -> nat {
    fib_residues(m, n).to_set().len()
}

/// The Pisano search for modulus `m` fails: `m` exceeds the bound, or no
/// return to `(0, 1)` occurs within `6m` steps.
pub open spec fn pisano_search_fails(m: u64) -> bool {
    m > PISANO_MAX_MODULUS || forall|k: nat| 1 <= k <= 6 * m ==> !#[trigger] returns_to_origin(
        m as nat,
        k,
    )
}

/// Name of the canonical Safe Basis lane at position `i`.
pub open spec fn safe_basis_lane_name(i: int) -> &'static str {
    if i == 0 {
        "p2"
    } else if i == 1 {
        "p3"
    } else if i == 2 {
        "p5"
    } else if i == 3 {
        "p7"
    } else if i == 4 {
        "p11"
    } else {
        "p13"
    }
}

/// Domain of the canonical Safe Basis lane at position `i`.
pub open spec fn safe_basis_lane_domain(i: int) -> &'static str {
    if i == 0 {
        "parity"
    } else if i == 1 {
        "fabric"
    } else if i == 2 {
        "content"
    } else if i == 3 {
        "traversal"
    } else if i == 4 {
        "coordinate"
    } else {
        "boundary"
    }
}

/// The canonical Safe Basis lane at position `i`.
pub open spec fn safe_basis_lane_spec(i: int) -> Lane {
    Lane {
        name: safe_basis_lane_name(i),
        modulus: safe_basis()[i],
        domain: safe_basis_lane_domain(i),
    }
}

/// The canonical Safe Basis lane at position `i < 6`.
pub fn safe_basis_lane(i: usize) -> (l: Lane)
    requires
        i < 6,
    ensures
        l == safe_basis_lane_spec(i as int),
{
    let modulus = SAFE_BASIS[i];
    if i == 0 {
        Lane { name: "p2", modulus, domain: "parity" }
    } else if i == 1 {
        Lane { name: "p3", modulus, domain: "fabric" }
    } else if i == 2 {
        Lane { name: "p5", modulus, domain: "content" }
    } else if i == 3 {
        Lane { name: "p7", modulus, domain: "traversal" }
    } else if i == 4 {
        Lane { name: "p11", modulus, domain: "coordinate" }
    } else {
        Lane { name: "p13", modulus, domain: "boundary" }
    }
}

/// Number of distinct values in `v`.
fn distinct_count(v: &Vec<u64>) -> (n: u64)
    ensures
        n == v@.to_set().len(),
{
    let mut seen: Vec<u64> = Vec::new();
    let mut i: usize = 0;
    while i < v.len()
        invariant
            0 <= i <= v.len(),
            seen@.no_duplicates(),
            seen@.to_set() == v@.subrange(0, i as int).to_set(),
            seen.len() <= i,
        decreases v.len() - i,
    {
        let x = v[i];
        let mut found = false;
        let mut j: usize = 0;
        while j < seen.len()
            invariant
                0 <= j <= seen.len(),
                found == exists|k: int| 0 <= k < j && #[trigger] seen@[k] == x,
            decreases seen.len() - j,
        {
            if seen[j] == x {
                found = true;
            }
            j = j + 1;
        }
        let ghost old_seen = seen@;
        let ghost pre = v@.subrange(0, i as int);
        proof {
            assert(v@.subrange(0, i as int + 1) =~= pre.push(x));
            pre.lemma_push_to_set_commute(x);
        }
        if !found {
            seen.push(x);
            proof {
                assert(seen@ =~= old_seen.push(x));
                old_seen.lemma_push_to_set_commute(x);
            }
        } else {
            assert(old_seen.to_set() =~= old_seen.to_set().insert(x)) by {
                let k = choose|k: int| 0 <= k < old_seen.len() && #[trigger] old_seen[k] == x;
                assert(old_seen.contains(x));
            }
        }
        i = i + 1;
    }
    assert(v@.subrange(0, v.len() as int) =~= v@);
    proof {
        seen@.unique_seq_to_set();
    }
    seen.len() as u64
}

/// From lane `i` on, every lane has a positive modulus and a residue
/// below it.
pub open spec fn valid_from(r: Seq<u64>, l: Seq<Lane>, i: nat) -> bool {
    forall|j: int| i <= j < l.len() ==> #[trigger] l[j].modulus > 0 && r[j] < l[j].modulus
}

proof fn lemma_first_bad_lane_none(r: Seq<u64>, l: Seq<Lane>, i: nat)
    requires
        r.len() == l.len(),
    ensures
        first_bad_lane(r, l, i) is None <==> valid_from(r, l, i),
    decreases l.len() - i,
{
    if i < l.len() {
        lemma_first_bad_lane_none(r, l, i + 1);
        if valid_from(r, l, i + 1) && l[i as int].modulus > 0 && r[i as int] < l[i as int].modulus {
            assert forall|j: int| i <= j < l.len() implies #[trigger] l[j].modulus > 0 && r[j]
                < l[j].modulus by {
                if j > i {
                    assert(valid_from(r, l, i + 1));
                }
            }
        }
    }
}

/// `MayaState::new` accepts exactly the valid residue tuples.
pub proof fn lemma_construction_accepts_valid(r: Seq<u64>, l: Seq<Lane>)
    ensures
        construction_error(r, l) is None <==> valid_state(r, l),
{
    if r.len() == l.len() {
        lemma_first_bad_lane_none(r, l, 0);
        if valid_from(r, l, 0) {
            assert forall|j: int| 0 <= j < l.len() implies #[trigger] l[j].modulus > 0 by {}
            assert forall|j: int| 0 <= j < l.len() implies #[trigger] r[j] < l[j].modulus by {}
        }
        if valid_state(r, l) {
            assert forall|j: int| 0 <= j < l.len() implies #[trigger] l[j].modulus > 0 && r[j]
                < l[j].modulus by {}
        }
    }
}

impl MayaState {
    /// A state from residues already valid over their lanes.
    pub(crate) fn from_valid(residues: Vec<u64>, lanes: Vec<Lane>) -> (s: MayaState)
        requires
            valid_state(residues@, lanes@),
        ensures
            s.res() == residues@,
            s.lns() == lanes@,
    {
        MayaState { residues, lanes }
    }
}

impl PartialEq for MayaState {
    fn eq(&self, other: &MayaState) -> (r: bool) {
        self.same_position(other)
    }
}

impl vstd::std_specs::cmp::PartialEqSpecImpl for MayaState {
    open spec fn obeys_eq_spec() -> bool {
        true
    }

    open spec fn eq_spec(&self, other: &MayaState) -> bool {
        same_lanes(self.lns(), other.lns()) && self.res() == other.res()
    }
}

impl MayaState {
    /// Per lane `(modulus, Pisano period, distinct residues in one period)`;
    /// the first lane whose Pisano search fails gives the error.
    pub fn pisano_profile(&self) -> (r: Result<Vec<(u64, u64, u64)>, PisanoError>)
        ensures
            match r {
                Ok(v) => {
                    &&& v.len() == self.lns().len()
                    &&& forall|i: int|
                        #![trigger v@[i]]
                        0 <= i < v.len() ==> {
                            &&& v@[i].0 == self.lns()[i].modulus
                            &&& is_pisano_period(self.lns()[i].modulus as nat, v@[i].1 as nat)
                            &&& v@[i].2 == distinct_residue_count(
                                self.lns()[i].modulus as nat,
                                v@[i].1 as nat,
                            )
                        }
                },
                Err(e) => exists|k: int|
                    0 <= k < self.lns().len() && e == PisanoError::ModulusTooLarge(
                        self.lns()[k].modulus,
                    ) && pisano_search_fails(#[trigger] self.lns()[k].modulus) && forall|j: int|
                        0 <= j < k ==> !pisano_search_fails(#[trigger] self.lns()[j].modulus),
            },
    {
        proof {
            use_type_invariant(self);
        }
        let mut out: Vec<(u64, u64, u64)> = Vec::new();
        let mut i: usize = 0;
        while i < self.lanes.len()
            invariant
                valid_state(self.residues@, self.lanes@),
                0 <= i <= self.lanes.len(),
                out.len() == i,
                forall|j: int|
                    #![trigger out@[j]]
                    0 <= j < i ==> {
                        &&& out@[j].0 == self.lanes@[j].modulus
                        &&& is_pisano_period(self.lanes@[j].modulus as nat, out@[j].1 as nat)
                        &&& out@[j].2 == distinct_residue_count(
                            self.lanes@[j].modulus as nat,
                            out@[j].1 as nat,
                        )
                    },
                forall|j: int| 0 <= j < i ==> !pisano_search_fails(#[trigger] self.lanes@[j].modulus),
            decreases self.lanes.len() - i,
        {
            let m = self.lanes[i].modulus;
            assert(m > 0);
            let seq = match fibonacci_mod_sequence(m) {
                Ok(seq) => seq,
                Err(e) => {
                    assert(self.lns() == self.lanes@);
                    assert(pisano_search_fails(self.lns()[i as int].modulus));
                    assert(forall|j: int| 0 <= j < i ==> !pisano_search_fails(#[trigger] self.lns()[j].modulus));
                    return Err(e);
                },
            };
            let pi = seq.len() as u64;
            let d = distinct_count(&seq);
            assert(seq@.map_values(|x: u64| x as nat) =~= fib_residues(m as nat, pi as nat));
            assert(seq@.to_set().len() == fib_residues(m as nat, pi as nat).to_set().len()) by {
                lemma_injective_cast_set_len(seq@);
            }
            proof {
                if pisano_search_fails(m) {
                    assert(returns_to_origin(m as nat, pi as nat));
                    assert(1 <= pi <= 6 * m);
                }
            }
            out.push((m, pi, d));
            i = i + 1;
        }
        Ok(out)
    }

    /// Ramanujan sum `c_p(n)` for each lane modulus `p`.
    pub fn harmonic_signature(&self, n: u64) -> (v: Vec<i64>)
        requires
            forall|i: int| 0 <= i < self.lns().len() ==> #[trigger] self.lns()[i].modulus <= i64::MAX,
        ensures
            v.len() == self.lns().len(),
            forall|i: int|
                0 <= i < v.len() ==> #[trigger] v@[i] == ramanujan_spec(
                    self.lns()[i].modulus as nat,
                    n as nat,
                ),
    {
        assert(self.lns() == self.lanes@);
        let mut v: Vec<i64> = Vec::new();
        let mut i: usize = 0;
        while i < self.lanes.len()
            invariant
                forall|j: int| 0 <= j < self.lanes@.len() ==> #[trigger] self.lanes@[j].modulus <= i64::MAX,
                0 <= i <= self.lanes.len(),
                v.len() == i,
                forall|j: int|
                    0 <= j < i ==> #[trigger] v@[j] == ramanujan_spec(
                        self.lanes@[j].modulus as nat,
                        n as nat,
                    ),
            decreases self.lanes.len() - i,
        {
            v.push(ramanujan_sum(self.lanes[i].modulus, n));
            i = i + 1;
        }
        v
    }

    /// The state of a Safe Basis address over the six canonical lanes.
    pub fn from_cram_address(addr: [u64; 6]) -> (s: MayaState)
        requires
            forall|i: int| 0 <= i < 6 ==> #[trigger] addr@[i] < safe_basis()[i],
        ensures
            s.res() == addr@,
            s.lns().len() == 6,
            forall|i: int| 0 <= i < 6 ==> #[trigger] s.lns()[i] == safe_basis_lane_spec(i),
    {
        let mut lanes: Vec<Lane> = Vec::new();
        let mut residues: Vec<u64> = Vec::new();
        let mut i: usize = 0;
        while i < 6
            invariant
                forall|j: int| 0 <= j < 6 ==> #[trigger] addr@[j] < safe_basis()[j],
                0 <= i <= 6,
                lanes.len() == i,
                residues.len() == i,
                forall|j: int| 0 <= j < i ==> #[trigger] lanes@[j] == safe_basis_lane_spec(j),
                forall|j: int| 0 <= j < i ==> #[trigger] residues@[j] == addr@[j],
            decreases 6 - i,
        {
            lanes.push(safe_basis_lane(i));
            residues.push(addr[i]);
            i = i + 1;
        }
        assert(residues@ =~= addr@);
        MayaState { residues, lanes }
    }

    /// The Safe Basis address of a state whose lanes carry the six Safe
    /// Basis moduli in order; `None` for any other lane configuration.
    pub fn to_cram_address(&self) -> (a: Option<[u64; 6]>)
        ensures
            (self.lns().len() == 6 && forall|i: int|
                0 <= i < 6 ==> #[trigger] self.lns()[i].modulus == safe_basis()[i]) ==> (a
                matches Some(x) && x@ == self.res()),
            !(self.lns().len() == 6 && forall|i: int|
                0 <= i < 6 ==> #[trigger] self.lns()[i].modulus == safe_basis()[i]) ==> a is None,
    {
        proof {
            use_type_invariant(self);
        }
        if self.lanes.len() != 6 {
            return None;
        }
        let mut i: usize = 0;
        while i < 6
            invariant
                self.lanes.len() == 6,
                0 <= i <= 6,
                forall|j: int| 0 <= j < i ==> #[trigger] self.lanes@[j].modulus == safe_basis()[j],
            decreases 6 - i,
        {
            if self.lanes[i].modulus != SAFE_BASIS[i] {
                return None;
            }
            i = i + 1;
        }
        let r = &self.residues;
        let out: [u64; 6] = [r[0], r[1], r[2], r[3], r[4], r[5]];
        assert(out@ =~= self.residues@);
        Some(out)
    }
}

/// Casting `u64` values to `nat` keeps the number of distinct values.
proof fn lemma_injective_cast_set_len(s: Seq<u64>)
    ensures
        s.to_set().len() == s.map_values(|x: u64| x as nat).to_set().len(),
{
    let f = |x: u64| x as nat;
    assert(s.map_values(f).to_set() =~= s.to_set().map(f)) by {
        assert forall|y: nat| s.map_values(f).to_set().contains(y) <==> s.to_set().map(f).contains(y) by {
            if s.map_values(f).to_set().contains(y) {
                let k = choose|k: int| 0 <= k < s.len() && #[trigger] s.map_values(f)[k] == y;
                assert(s.to_set().contains(s[k]));
            }
            if s.to_set().map(f).contains(y) {
                let x = choose|x: u64| #[trigger] s.to_set().contains(x) && f(x) == y;
                let k = choose|k: int| 0 <= k < s.len() && #[trigger] s[k] == x;
                assert(s.map_values(f)[k] == y);
            }
        }
    }
    vstd::seq_lib::seq_to_set_is_finite(s);
    assert(vstd::relations::injective_on(f, s.to_set()));
    vstd::set_lib::lemma_map_size(s.to_set(), s.to_set().map(f), f);
}
/// `name:residue` for each lane, joined by `", "`.
pub open spec fn lanes_text(r: Seq<u64>, l: Seq<Lane>, n: nat) -> Seq<char>
    decreases n,
{
    if n == 0 {
        seq![]
    } else {
        let item = l[n - 1].name@ + ":"@ + decimal_text(r[n - 1] as nat);
        if n == 1 {
            item
        } else {
            lanes_text(r, l, (n - 1) as nat) + ", "@ + item
        }
    }
}

impl MayaState {
    /// The rendering `(name:residue, name:residue, ...)`.
    pub fn display_string(&self) -> (s: String)
        ensures
            s@ == "("@ + lanes_text(self.res(), self.lns(), self.lns().len()) + ")"@,
    {
        let lanes = self.lanes();
        let residues = self.residues();
        let mut body = String::new();
        let mut i: usize = 0;
        while i < lanes.len()
            invariant
                0 <= i <= lanes.len(),
                lanes@ == self.lns(),
                residues@ == self.res(),
                valid_state(self.res(), self.lns()),
                body@ == lanes_text(self.res(), self.lns(), i as nat),
            decreases lanes.len() - i,
        {
            let item = concat(concat(lanes[i].name, ":").as_str(), decimal_string(residues[i]).as_str());
            if i == 0 {
                body = item;
            } else {
                body = concat(concat(body.as_str(), ", ").as_str(), item.as_str());
            }
            i = i + 1;
        }
        concat(concat("(", body.as_str()).as_str(), ")")
    }
}

} // verus!
