//! The bilinear intercalary generator: every canonical Maya cycle as
//! `G(n_reg, base, n_inter, inter) = n_reg·base + n_inter·inter`, applied
//! recursively from the vigesimal seed 20 and the astronomical prime 73.

use vstd::prelude::*;
use crate::factor::{distinct_prime_factors, is_prime_factor_list};
use crate::substrate::{nullified_lanes, nullified_spec, safe_basis, SAFE_BASIS};
use crate::text::{concat, decimal_string, decimal_text, owned, str_equal};

verus! {

/// The seed of the generator: the vigesimal base 20.
pub const SEED: u64 = 20;

/// The astronomical prime `73 = 365 / 5`.
pub const ASTRO_PRIME: u64 = 73;

/// One application `G(n_reg, base, n_inter, inter)` of the generator.
#[derive(Clone, Copy, Debug, PartialEq, Eq, Structural)]
pub struct GeneratorApplication {
    /// Number of regular phases.
    pub n_reg: u64,
    /// Regular phase length (days).
    pub base: u64,
    /// Number of intercalary phases.
    pub n_inter: u64,
    /// Intercalary phase length (days).
    pub inter: u64,
}

/// The cycle `n_reg·base + n_inter·inter` of an application.
pub open spec fn cycle_spec(g: GeneratorApplication) -> int {
    g.n_reg * g.base + g.n_inter * g.inter
}

/// The phase list of an application: `n_reg` regular phases, then
/// `n_inter` intercalary ones.
pub open spec fn phases_spec(g: GeneratorApplication) -> Seq<u64> {
    Seq::new(g.n_reg as nat, |i: int| g.base) + Seq::new(g.n_inter as nat, |i: int| g.inter)
}

/// Sum of a sequence of day counts.
pub open spec fn seq_sum(s: Seq<u64>) -> int
    decreases s.len(),
{
    if s.len() == 0 {
        0
    } else {
        seq_sum(s.drop_last()) + s.last()
    }
}

pub(crate) proof fn lemma_seq_sum_const(n: nat, c: u64)
    ensures
        seq_sum(Seq::new(n, |i: int| c)) == n * c,
    decreases n,
{
    if n > 0 {
        assert(Seq::new(n, |i: int| c).drop_last() =~= Seq::new((n - 1) as nat, |i: int| c));
        assert(Seq::new(n, |i: int| c).last() == c);
        lemma_seq_sum_const((n - 1) as nat, c);
        assert(n * c == (n - 1) * c + c) by (nonlinear_arith);
        assert(seq_sum(Seq::new(n, |i: int| c)) == seq_sum(Seq::new((n - 1) as nat, |i: int| c)) + c);
    } else {
        assert(n * c == 0) by (nonlinear_arith)
            requires
                n == 0,
        ;
    }
}

proof fn lemma_seq_sum_append(a: Seq<u64>, b: Seq<u64>)
    ensures
        seq_sum(a + b) == seq_sum(a) + seq_sum(b),
    decreases b.len(),
{
    if b.len() == 0 {
        assert(a + b =~= a);
    } else {
        assert((a + b).drop_last() =~= a + b.drop_last());
        lemma_seq_sum_append(a, b.drop_last());
    }
}

/// The phases of an application add up to its cycle.
pub proof fn lemma_phases_sum_to_cycle(g: GeneratorApplication)
    ensures
        seq_sum(phases_spec(g)) == cycle_spec(g),
{
    lemma_seq_sum_const(g.n_reg as nat, g.base);
    lemma_seq_sum_const(g.n_inter as nat, g.inter);
    lemma_seq_sum_append(
        Seq::new(g.n_reg as nat, |i: int| g.base),
        Seq::new(g.n_inter as nat, |i: int| g.inter),
    );
}

/// The cycle of an application with known fields.
proof fn lemma_cycle_of(g: GeneratorApplication, a: int, b: int, c: int, d: int)
    requires
        g.n_reg == a,
        g.base == b,
        g.n_inter == c,
        g.inter == d,
    ensures
        cycle_spec(g) == a * b + c * d,
{
}

impl GeneratorApplication {
    /// `G(n, base, 0, 0)`: the uniform rule.
    pub fn uniform(n: u64, base: u64) -> (g: Self)
        ensures
            g == (GeneratorApplication { n_reg: n, base, n_inter: 0, inter: 0 }),
    {
        GeneratorApplication { n_reg: n, base, n_inter: 0, inter: 0 }
    }

    /// `G(n_reg, base, 1, inter)`: the intercalary rule.
    pub fn intercalary(n_reg: u64, base: u64, inter: u64) -> (g: Self)
        ensures
            g == (GeneratorApplication { n_reg, base, n_inter: 1, inter }),
    {
        GeneratorApplication { n_reg, base, n_inter: 1, inter }
    }

    /// The cycle length `n_reg·base + n_inter·inter`.
    pub fn cycle(&self) -> (c: u64)
        requires
            cycle_spec(*self) <= u64::MAX,
        ensures
            c == cycle_spec(*self),
    {
        proof {
            assert(0 <= self.n_reg * self.base <= cycle_spec(*self)) by (nonlinear_arith)
                requires
                    self.n_inter * self.inter >= 0,
                    cycle_spec(*self) == self.n_reg * self.base + self.n_inter * self.inter,
                    self.n_reg >= 0,
                    self.base >= 0,
            ;
            assert(self.n_inter * self.inter >= 0) by (nonlinear_arith)
                requires
                    self.n_inter >= 0,
                    self.inter >= 0,
            ;
        }
        self.n_reg * self.base + self.n_inter * self.inter
    }

    /// The phase intervals: `n_reg` copies of `base`, then `n_inter`
    /// copies of `inter`.
    pub fn phases(&self) -> (v: Vec<u64>)
        requires
            self.n_reg + self.n_inter <= usize::MAX,
        ensures
            v@ == phases_spec(*self),
    {
        let mut v: Vec<u64> = Vec::new();
        let mut i: u64 = 0;
        while i < self.n_reg
            invariant
                self.n_reg + self.n_inter <= usize::MAX,
                0 <= i <= self.n_reg,
                v@ == Seq::new(i as nat, |k: int| self.base),
            decreases self.n_reg - i,
        {
            v.push(self.base);
            i = i + 1;
            assert(v@ =~= Seq::new(i as nat, |k: int| self.base));
        }
        let mut j: u64 = 0;
        while j < self.n_inter
            invariant
                0 <= j <= self.n_inter,
                v@ == Seq::new(self.n_reg as nat, |k: int| self.base) + Seq::new(j as nat, |k: int| self.inter),
            decreases self.n_inter - j,
        {
            v.push(self.inter);
            j = j + 1;
            assert(v@ =~= Seq::new(self.n_reg as nat, |k: int| self.base) + Seq::new(j as nat, |k: int| self.inter));
        }
        v
    }

    /// The application has a non-empty intercalary term.
    pub fn has_intercalary(&self) -> (b: bool)
        ensures
            b == (self.n_inter > 0 && self.inter > 0),
    {
        self.n_inter > 0 && self.inter > 0
    }
}

/// A node of the generator tree: an application whose base is the cycle
/// of its parent (or the seed).
#[derive(Clone, Debug)]
pub struct GeneratorNode {
    pub name: &'static str,
    pub application: GeneratorApplication,
    /// Name of the node whose cycle is this node's base, or `"SEED"`.
    pub parent_name: &'static str,
}

impl GeneratorNode {
    /// The node's cycle.
    pub fn cycle(&self) -> (c: u64)
        requires
            cycle_spec(self.application) <= u64::MAX,
        ensures
            c == cycle_spec(self.application),
    {
        self.application.cycle()
    }

    /// The node's base is `parent_cycle`.
    pub fn verify(&self, parent_cycle: u64) -> (b: bool)
        requires
            cycle_spec(self.application) <= u64::MAX,
        ensures
            b == (self.application.base == parent_cycle),
    {
        self.application.base == parent_cycle && self.application.cycle() == self.cycle()
    }
}

/// The canonical generator tree, from the seed to the derived cycles.
pub open spec fn tree_spec() -> Seq<GeneratorNode> {
    seq![
        GeneratorNode {
            name: "Tzolkin",
            application: GeneratorApplication { n_reg: 13, base: 20, n_inter: 0, inter: 0 },
            parent_name: "SEED",
        },
        GeneratorNode {
            name: "Tun",
            application: GeneratorApplication { n_reg: 18, base: 20, n_inter: 0, inter: 0 },
            parent_name: "SEED",
        },
        GeneratorNode {
            name: "Haab",
            application: GeneratorApplication { n_reg: 18, base: 20, n_inter: 1, inter: 5 },
            parent_name: "SEED",
        },
        GeneratorNode {
            name: "CalendarRound",
            application: GeneratorApplication { n_reg: 73, base: 260, n_inter: 0, inter: 0 },
            parent_name: "Tzolkin",
        },
        GeneratorNode {
            name: "Katun",
            application: GeneratorApplication { n_reg: 20, base: 360, n_inter: 0, inter: 0 },
            parent_name: "Tun",
        },
        GeneratorNode {
            name: "Baktun",
            application: GeneratorApplication { n_reg: 20, base: 7200, n_inter: 0, inter: 0 },
            parent_name: "Katun",
        },
    ]
}

/// The canonical generator tree: Tzolk'in, Tun, Haab, Calendar Round,
/// Katun, Baktun.
pub fn canonical_generator_tree() -> (v: Vec<GeneratorNode>)
    ensures
        v@ == tree_spec(),
{
    let tzolkin = GeneratorNode {
        name: "Tzolkin",
        application: GeneratorApplication::uniform(13, SEED),
        parent_name: "SEED",
    };
    let tun = GeneratorNode {
        name: "Tun",
        application: GeneratorApplication::uniform(18, SEED),
        parent_name: "SEED",
    };
    let haab = GeneratorNode {
        name: "Haab",
        application: GeneratorApplication::intercalary(18, SEED, 5),
        parent_name: "SEED",
    };
    proof {
        lemma_cycle_of(tzolkin.application, 13, 20, 0, 0);
        lemma_cycle_of(tun.application, 18, 20, 0, 0);
    }
    let calendar_round = GeneratorNode {
        name: "CalendarRound",
        application: GeneratorApplication::uniform(ASTRO_PRIME, tzolkin.cycle()),
        parent_name: "Tzolkin",
    };
    let katun = GeneratorNode {
        name: "Katun",
        application: GeneratorApplication::uniform(SEED, tun.cycle()),
        parent_name: "Tun",
    };
    proof {
        lemma_cycle_of(katun.application, 20, 360, 0, 0);
    }
    let baktun = GeneratorNode {
        name: "Baktun",
        application: GeneratorApplication::uniform(SEED, katun.cycle()),
        parent_name: "Katun",
    };
    let v = vec![tzolkin, tun, haab, calendar_round, katun, baktun];
    assert(v@ =~= tree_spec());
    v
}

/// Every node's cycle fits in `u64`.
pub open spec fn cycles_fit(nodes: Seq<GeneratorNode>) -> bool {
    forall|k: int| 0 <= k < nodes.len() ==> #[trigger] cycle_spec(nodes[k].application) <= u64::MAX
}

/// The cycle of the last node named `name`, if any.
pub open spec fn lookup_cycle(nodes: Seq<GeneratorNode>, name: Seq<char>) -> Option<int>
    decreases nodes.len(),
{
    if nodes.len() == 0 {
        None
    } else if nodes.last().name@ == name {
        Some(cycle_spec(nodes.last().application))
    } else {
        lookup_cycle(nodes.drop_last(), name)
    }
}

/// The cycle a node's base must equal: the seed for `"SEED"`, else the
/// cycle of the (last) node of that name.
pub open spec fn parent_cycle(nodes: Seq<GeneratorNode>, parent: Seq<char>) -> Option<int> {
    if parent == "SEED"@ {
        Some(SEED as int)
    } else {
        lookup_cycle(nodes, parent)
    }
}

/// Every node's parent exists and the node's base is the parent's cycle.
pub open spec fn tree_consistent(nodes: Seq<GeneratorNode>) -> bool {
    forall|k: int|
        0 <= k < nodes.len() ==> (#[trigger] parent_cycle(nodes, nodes[k].parent_name@) matches Some(
            c,
        ) && nodes[k].application.base == c)
}

/// The cycle of the last node named `name` in `nodes`.
fn find_cycle(nodes: &[GeneratorNode], name: &str) -> (r: Option<u64>)
    requires
        cycles_fit(nodes@),
    ensures
        r matches Some(c) ==> lookup_cycle(nodes@, name@) == Some(c as int),
        r is None ==> lookup_cycle(nodes@, name@) is None,
{
    let mut i: usize = nodes.len();
    assert(nodes@.subrange(0, i as int) =~= nodes@);
    while i > 0
        invariant
            0 <= i <= nodes.len(),
            cycles_fit(nodes@),
            lookup_cycle(nodes@, name@) == lookup_cycle(nodes@.subrange(0, i as int), name@),
        decreases i,
    {
        let node = &nodes[i - 1];
        proof {
            assert(nodes@.subrange(0, i as int).drop_last() =~= nodes@.subrange(0, i as int - 1));
            assert(nodes@.subrange(0, i as int).last() == nodes@[i as int - 1]);
            assert(cycle_spec(nodes@[i as int - 1].application) <= u64::MAX);
        }
        if str_equal(node.name, name) {
            return Some(node.cycle());
        }
        i = i - 1;
    }
    None
}

/// Whether every node of `nodes` sits on its parent's cycle.
pub fn tree_is_consistent(nodes: &[GeneratorNode]) -> (b: bool)
    requires
        cycles_fit(nodes@),
    ensures
        b == tree_consistent(nodes@),
{
    let mut k: usize = 0;
    while k < nodes.len()
        invariant
            0 <= k <= nodes.len(),
            cycles_fit(nodes@),
            forall|j: int| 0 <= j < k ==> (#[trigger] parent_cycle(nodes@, nodes@[j].parent_name@) matches Some(
                c,
            ) && nodes@[j].application.base == c),
        decreases nodes.len() - k,
    {
        let node = &nodes[k];
        let pc: Option<u64> = if str_equal(node.parent_name, "SEED") {
            Some(SEED)
        } else {
            find_cycle(nodes, node.parent_name)
        };
        proof {
            assert(cycle_spec(nodes@[k as int].application) <= u64::MAX);
        }
        proof {
            reveal_strlit("SEED");
        }
        match pc {
            Some(c) => {
                if !node.verify(c) {
                    assert(parent_cycle(nodes@, nodes@[k as int].parent_name@) == Some(c as int));
                    assert(!(parent_cycle(nodes@, nodes@[k as int].parent_name@) matches Some(p) && nodes@[k as int].application.base == p));
                    return false;
                }
            },
            None => {
                assert(parent_cycle(nodes@, nodes@[k as int].parent_name@) is None);
                return false;
            },
        }
        k = k + 1;
    }
    true
}

/// The canonical tree is consistent: each node's base is its parent's
/// cycle.
pub fn verify_generator_tree() -> (b: bool)
    ensures
        b == tree_consistent(tree_spec()),
        b,
{
    let nodes = canonical_generator_tree();
    proof {
        reveal_strlit("SEED");
        reveal_strlit("Tzolkin");
        reveal_strlit("Tun");
        reveal_strlit("Haab");
        reveal_strlit("CalendarRound");
        reveal_strlit("Katun");
        reveal_strlit("Baktun");
        let t = tree_spec();
        lemma_cycle_of(t[0].application, 13, 20, 0, 0);
        lemma_cycle_of(t[1].application, 18, 20, 0, 0);
        lemma_cycle_of(t[2].application, 18, 20, 1, 5);
        lemma_cycle_of(t[3].application, 73, 260, 0, 0);
        lemma_cycle_of(t[4].application, 20, 360, 0, 0);
        lemma_cycle_of(t[5].application, 20, 7200, 0, 0);
        assert(cycles_fit(t));
        let t1 = t.drop_last();
        let t2 = t1.drop_last();
        let t3 = t2.drop_last();
        let t4 = t3.drop_last();
        let t5 = t4.drop_last();
        let t6 = t5.drop_last();
        assert(t6.len() == 0);
        assert(t.last() == t[5] && t1.last() == t[4] && t2.last() == t[3]);
        assert(t3.last() == t[2] && t4.last() == t[1] && t5.last() == t[0]);
        assert("Tun"@ != "Tzolkin"@) by {
            assert("Tun"@.len() != "Tzolkin"@.len());
        }
        assert("Haab"@ != "Tzolkin"@) by {
            assert("Haab"@.len() != "Tzolkin"@.len());
        }
        assert("Haab"@ != "Tun"@) by {
            assert("Haab"@.len() != "Tun"@.len());
        }
        assert("CalendarRound"@ != "Tzolkin"@) by {
            assert("CalendarRound"@.len() != "Tzolkin"@.len() || "CalendarRound"@[0] != "Tzolkin"@[0]);
        }
        assert("CalendarRound"@ != "Tun"@) by {
            assert("CalendarRound"@.len() != "Tun"@.len() || "CalendarRound"@[0] != "Tun"@[0]);
        }
        assert("Katun"@ != "Tzolkin"@) by {
            assert("Katun"@.len() != "Tzolkin"@.len() || "Katun"@[0] != "Tzolkin"@[0]);
        }
        assert("Katun"@ != "Tun"@) by {
            assert("Katun"@.len() != "Tun"@.len() || "Katun"@[0] != "Tun"@[0]);
        }
        assert("Baktun"@ != "Tzolkin"@) by {
            assert("Baktun"@.len() != "Tzolkin"@.len() || "Baktun"@[0] != "Tzolkin"@[0]);
        }
        assert("Baktun"@ != "Tun"@) by {
            assert("Baktun"@.len() != "Tun"@.len() || "Baktun"@[0] != "Tun"@[0]);
        }
        assert(lookup_cycle(t5, "Tzolkin"@) == Some(260int));
        assert(lookup_cycle(t4, "Tzolkin"@) == Some(260int));
        assert(lookup_cycle(t3, "Tzolkin"@) == Some(260int));
        assert(lookup_cycle(t2, "Tzolkin"@) == Some(260int));
        assert(lookup_cycle(t1, "Tzolkin"@) == Some(260int));
        assert(lookup_cycle(t, "Tzolkin"@) == Some(260int));
        assert(lookup_cycle(t4, "Tun"@) == Some(360int));
        assert(lookup_cycle(t3, "Tun"@) == Some(360int));
        assert(lookup_cycle(t2, "Tun"@) == Some(360int));
        assert(lookup_cycle(t1, "Tun"@) == Some(360int));
        assert(lookup_cycle(t, "Tun"@) == Some(360int));
        assert("Baktun"@ != "Katun"@) by {
            assert("Baktun"@.len() != "Katun"@.len());
        }
        assert("Tzolkin"@ != "SEED"@) by {
            assert("Tzolkin"@.len() != "SEED"@.len());
        }
        assert("Tun"@ != "SEED"@) by {
            assert("Tun"@.len() != "SEED"@.len());
        }
        assert("Katun"@ != "SEED"@) by {
            assert("Katun"@.len() != "SEED"@.len());
        }
        assert(lookup_cycle(t1, "Katun"@) == Some(7200int));
        assert(lookup_cycle(t, "Katun"@) == Some(7200int));
        assert(parent_cycle(t, t[0].parent_name@) == Some(20int));
        assert(parent_cycle(t, t[1].parent_name@) == Some(20int));
        assert(parent_cycle(t, t[2].parent_name@) == Some(20int));
        assert(parent_cycle(t, t[3].parent_name@) == Some(260int));
        assert(parent_cycle(t, t[4].parent_name@) == Some(360int));
        assert(parent_cycle(t, t[5].parent_name@) == Some(7200int));
        assert(tree_consistent(t));
    }
    tree_is_consistent(nodes.as_slice())
}

/// Strictly increasing values.
pub open spec fn strictly_increasing(s: Seq<u64>) -> bool {
    forall|i: int, j: int| 0 <= i < j < s.len() ==> s[i] < s[j]
}

/// Inserts `x` into a strictly increasing vector unless present.
fn insert_sorted(v: &mut Vec<u64>, x: u64)
    requires
        strictly_increasing(old(v)@),
    ensures
        strictly_increasing(final(v)@),
        final(v)@.to_set() == old(v)@.to_set().insert(x),
{
    let mut pos: usize = 0;
    while pos < v.len() && v[pos] < x
        invariant
            0 <= pos <= v.len(),
            forall|i: int| 0 <= i < pos ==> v@[i] < x,
        decreases v.len() - pos,
    {
        pos = pos + 1;
    }
    if pos < v.len() && v[pos] == x {
        proof {
            assert(v@.to_set().insert(x) =~= v@.to_set()) by {
                assert(v@.contains(x));
            }
        }
        return;
    }
    let ghost before = v@;
    v.insert(pos, x);
    proof {
        assert(v@ == before.insert(pos as int, x));
        assert forall|i: int, j: int| 0 <= i < j < v@.len() implies v@[i] < v@[j] by {
            if j < pos {
            } else if j == pos {
            } else if i < pos {
                assert(before[j - 1] > x || before[j - 1] == x || before[j - 1] < x);
                if pos < before.len() {
                    assert(before[pos as int] >= x);
                    assert(before[pos as int] != x);
                    if j - 1 > pos {
                        assert(before[pos as int] < before[j - 1]);
                    }
                }
            } else if i == pos {
                if pos < before.len() {
                    assert(before[pos as int] > x);
                    if j - 1 > pos {
                        assert(before[pos as int] < before[j - 1]);
                    }
                }
            } else {
            }
        }
        assert(v@.to_set() =~= before.to_set().insert(x)) by {
            assert forall|y: u64| v@.to_set().contains(y) implies before.to_set().insert(x).contains(y) by {
                let k = choose|k: int| 0 <= k < v@.len() && v@[k] == y;
                if k < pos {
                    assert(before[k] == y);
                } else if k > pos {
                    assert(before[k - 1] == y);
                }
            }
            assert forall|y: u64| before.to_set().insert(x).contains(y) implies v@.to_set().contains(y) by {
                if y == x {
                    assert(v@[pos as int] == x);
                } else {
                    let k = choose|k: int| 0 <= k < before.len() && before[k] == y;
                    if k < pos {
                        assert(v@[k] == y);
                    } else {
                        assert(v@[k + 1] == y);
                    }
                }
            }
        }
    }
}

/// The regular multipliers of the canonical tree.
pub open spec fn tree_multipliers() -> Set<u64> {
    tree_spec().map_values(|n: GeneratorNode| n.application.n_reg).to_set()
}

/// The intercalary phase lengths of the canonical tree's intercalary nodes.
pub open spec fn tree_intercalaries() -> Set<u64> {
    tree_spec().filter(|n: GeneratorNode| n.application.n_inter > 0 && n.application.inter > 0).map_values(
        |n: GeneratorNode| n.application.inter,
    ).to_set()
}

/// The distinct multipliers and the distinct intercalary units of the
/// canonical tree, each in increasing order.
pub fn generator_multiplier_analysis() -> (r: (Vec<u64>, Vec<u64>))
    ensures
        strictly_increasing(r.0@),
        r.0@.to_set() == tree_multipliers(),
        strictly_increasing(r.1@),
        r.1@.to_set() == tree_intercalaries(),
{
    let nodes = canonical_generator_tree();
    let mut mult: Vec<u64> = Vec::new();
    let mut inter: Vec<u64> = Vec::new();
    let mut k: usize = 0;
    assert(mult@.to_set() =~= Set::<u64>::empty());
    while k < nodes.len()
        invariant
            nodes@ == tree_spec(),
            0 <= k <= nodes.len(),
            strictly_increasing(mult@),
            strictly_increasing(inter@),
            mult@.to_set() == nodes@.subrange(0, k as int).map_values(|n: GeneratorNode| n.application.n_reg).to_set(),
            inter@.to_set() == nodes@.subrange(0, k as int).filter(
                |n: GeneratorNode| n.application.n_inter > 0 && n.application.inter > 0,
            ).map_values(|n: GeneratorNode| n.application.inter).to_set(),
        decreases nodes.len() - k,
    {
        let node = &nodes[k];
        let ghost pre = nodes@.subrange(0, k as int);
        let ghost next = nodes@.subrange(0, k as int + 1);
        proof {
            assert(next =~= pre.push(nodes@[k as int]));
            assert(next.map_values(|n: GeneratorNode| n.application.n_reg) =~= pre.map_values(
                |n: GeneratorNode| n.application.n_reg,
            ).push(nodes@[k as int].application.n_reg));
            pre.map_values(|n: GeneratorNode| n.application.n_reg).lemma_push_to_set_commute(
                nodes@[k as int].application.n_reg,
            );
            pre.lemma_filter_push(
                nodes@[k as int],
                |n: GeneratorNode| n.application.n_inter > 0 && n.application.inter > 0,
            );
        }
        insert_sorted(&mut mult, node.application.n_reg);
        if node.application.has_intercalary() {
            proof {
                let f = pre.filter(|n: GeneratorNode| n.application.n_inter > 0 && n.application.inter > 0);
                assert(f.push(nodes@[k as int]).map_values(|n: GeneratorNode| n.application.inter)
                    =~= f.map_values(|n: GeneratorNode| n.application.inter).push(
                    nodes@[k as int].application.inter,
                ));
                f.map_values(|n: GeneratorNode| n.application.inter).lemma_push_to_set_commute(
                    nodes@[k as int].application.inter,
                );
            }
            insert_sorted(&mut inter, node.application.inter);
        }
        k = k + 1;
    }
    assert(nodes@.subrange(0, 6) =~= tree_spec());
    (mult, inter)
}

/// Safe Basis profile of one multiplier of the generator.
#[derive(Clone, Debug)]
pub struct MultiplierProfile {
    pub multiplier: u64,
    pub in_safe_basis: bool,
    /// Distinct prime factors, increasing.
    pub prime_factors: Vec<u64>,
    /// Safe Basis primes dividing the multiplier.
    pub nullifies: Vec<u64>,
    pub role: &'static str,
}

/// The profiled multipliers, in order.
pub open spec fn profiled_multipliers() -> Seq<u64> {
    seq![13u64, 18, 73, 20]
}

/// Profiles of the multipliers 13, 18, 73 and 20: Safe Basis membership,
/// prime factors and nullified lanes.
pub fn multiplier_profiles() -> (v: Vec<MultiplierProfile>)
    ensures
        v@.len() == 4,
        forall|k: int|
            0 <= k < 4 ==> {
                &&& (#[trigger] v@[k]).multiplier == profiled_multipliers()[k]
                &&& v@[k].in_safe_basis == safe_basis().contains(profiled_multipliers()[k])
                &&& is_prime_factor_list(profiled_multipliers()[k] as nat, v@[k].prime_factors@)
                &&& v@[k].nullifies@ == nullified_spec(profiled_multipliers()[k])
            },
        v@[0].role == "Tzolk'in trecenas: 13 is the largest S₆ prime",
        v@[1].role == "Haab winals: 18 = 2×3², bridges to tun=360=18×20",
        v@[2].role == "Calendar Round: astronomical prime (365=5×73)",
        v@[3].role == "Positional base and Long Count baktun multiplier",
{
    let candidates: [(u64, &'static str); 4] = [
        (13u64, "Tzolk'in trecenas: 13 is the largest S₆ prime"),
        (18u64, "Haab winals: 18 = 2×3², bridges to tun=360=18×20"),
        (73u64, "Calendar Round: astronomical prime (365=5×73)"),
        (20u64, "Positional base and Long Count baktun multiplier"),
    ];
    let basis = SAFE_BASIS;
    let mut v: Vec<MultiplierProfile> = Vec::new();
    let mut k: usize = 0;
    while k < 4
        invariant
            0 <= k <= 4,
            basis@ == safe_basis(),
            candidates@ == seq![
                (13u64, "Tzolk'in trecenas: 13 is the largest S₆ prime"),
                (18u64, "Haab winals: 18 = 2×3², bridges to tun=360=18×20"),
                (73u64, "Calendar Round: astronomical prime (365=5×73)"),
                (20u64, "Positional base and Long Count baktun multiplier"),
            ],
            v@.len() == k,
            forall|j: int|
                0 <= j < k ==> {
                    &&& (#[trigger] v@[j]).multiplier == candidates@[j].0
                    &&& v@[j].role == candidates@[j].1
                    &&& v@[j].in_safe_basis == safe_basis().contains(candidates@[j].0)
                    &&& is_prime_factor_list(candidates@[j].0 as nat, v@[j].prime_factors@)
                    &&& v@[j].nullifies@ == nullified_spec(candidates@[j].0)
                },
        decreases 4 - k,
    {
        let (m, role) = candidates[k];
        let mut in_sb = false;
        let mut i: usize = 0;
        while i < 6
            invariant
                0 <= i <= 6,
                basis@ == safe_basis(),
                in_sb == exists|q: int| 0 <= q < i && basis@[q] == m,
            decreases 6 - i,
        {
            if basis[i] == m {
                in_sb = true;
            }
            i = i + 1;
        }
        let factors = distinct_prime_factors(m);
        let null = nullified_lanes(m);
        v.push(MultiplierProfile { multiplier: m, in_safe_basis: in_sb, prime_factors: factors, nullifies: null, role });
        k = k + 1;
    }
    v
}

/// The multipliers of the uniform rule in the period lattice.
pub open spec fn lattice_multipliers() -> Seq<u64> {
    seq![2u64, 3, 4, 5, 7, 8, 11, 13, 18, 20, 73]
}

/// The bases of the uniform rule in the period lattice.
pub open spec fn lattice_bases() -> Seq<u64> {
    seq![20u64, 73, 260, 365, 360, 7200]
}

/// The labels of the lattice bases.
pub open spec fn lattice_base_labels() -> Seq<&'static str> {
    seq!["20", "73", "260", "365", "360", "7200"]
}

/// Name of a period of the lattice.
pub open spec fn period_name(c: u64) -> &'static str {
    if c == 260 {
        "Tzolk'in"
    } else if c == 365 {
        "Haab"
    } else if c == 584 {
        "Venus synodic"
    } else if c == 819 {
        "Council-819"
    } else if c == 7200 {
        "Katun"
    } else if c == 18_980 {
        "Calendar Round"
    } else if c == 37_960 {
        "Venus table"
    } else if c == 144_000 {
        "Baktun"
    } else {
        "computed"
    }
}

/// Name of a period of the lattice.
fn name_of_period(c: u64) -> (n: &'static str)
    ensures
        n == period_name(c),
{
    match c {
        260 => "Tzolk'in",
        365 => "Haab",
        584 => "Venus synodic",
        819 => "Council-819",
        7200 => "Katun",
        18_980 => "Calendar Round",
        37_960 => "Venus table",
        144_000 => "Baktun",
        _ => "computed",
    }
}

/// The generator path `G(m, label, 0, 0)`.
pub open spec fn uniform_path(m: u64, label: &'static str) -> Seq<char> {
    "G("@ + decimal_text(m as nat) + ", "@ + label@ + ", 0, 0)"@
}

/// The generator path `G(n, 20, 1, 5)`.
pub open spec fn intercalary_path(n: u64) -> Seq<char> {
    "G("@ + decimal_text(n as nat) + ", 20, 1, 5)"@
}

/// The `t`-th candidate period of the lattice within `max`: the uniform
/// products `m·b` (multipliers outer, bases inner), then the intercalary
/// cycles `20n + 5` for `n = 1..=30`.
pub open spec fn lattice_candidate(max: u64, t: int) -> Option<(&'static str, u64, Seq<char>)> {
    if 0 <= t < 66 {
        let m = lattice_multipliers()[t / 6];
        let b = lattice_bases()[t % 6];
        let c = m * b;
        if 0 < c <= max {
            Some((period_name(c as u64), c as u64, uniform_path(m, lattice_base_labels()[t % 6])))
        } else {
            None
        }
    } else if 66 <= t < 96 {
        let n = t - 65;
        let c = 20 * n + 5;
        if c <= max {
            Some((if c == 365 { "Haab" } else { "computed-inter" }, c as u64, intercalary_path(n as u64)))
        } else {
            None
        }
    } else {
        None
    }
}

/// Some period of `s` has cycle `c`.
pub open spec fn has_cycle(s: Seq<(&'static str, u64, Seq<char>)>, c: u64) -> bool {
    exists|i: int| 0 <= i < s.len() && s[i].1 == c
}

/// The periods collected from the seed (when it is within `max`) and the
/// first `t` candidates, each cycle kept at its first occurrence.
pub open spec fn collected(max: u64, t: nat) -> Seq<(&'static str, u64, Seq<char>)>
    decreases t,
{
    if t == 0 {
        if 20 <= max {
            seq![("SEED=20", 20u64, "seed"@)]
        } else {
            seq![]
        }
    } else {
        let prev = collected(max, (t - 1) as nat);
        match lattice_candidate(max, t - 1) {
            Some(e) => if has_cycle(prev, e.1) {
                prev
            } else {
                prev.push(e)
            },
            None => prev,
        }
    }
}

/// A period with its path as a character sequence.
pub open spec fn period_view(e: (&'static str, u64, String)) -> (&'static str, u64, Seq<char>) {
    (e.0, e.1, e.2@)
}

/// Cycles of a period list are pairwise distinct.
pub open spec fn distinct_cycles(s: Seq<(&'static str, u64, String)>) -> bool {
    forall|i: int, j: int| 0 <= i < j < s.len() ==> s[i].1 != s[j].1
}

/// Whether a period of `periods` has cycle `c`.
pub(crate) fn contains_cycle(periods: &Vec<(&'static str, u64, String)>, c: u64) -> (b: bool)
    ensures
        b == has_cycle(periods@.map_values(|e: (&'static str, u64, String)| period_view(e)), c),
{
    let ghost pv = periods@.map_values(|e: (&'static str, u64, String)| period_view(e));
    let mut i: usize = 0;
    while i < periods.len()
        invariant
            0 <= i <= periods.len(),
            pv == periods@.map_values(|e: (&'static str, u64, String)| period_view(e)),
            forall|j: int| 0 <= j < i ==> periods@[j].1 != c,
        decreases periods.len() - i,
    {
        if periods[i].1 == c {
            assert(pv[i as int].1 == c);
            return true;
        }
        i = i + 1;
    }
    proof {
        if has_cycle(pv, c) {
            let j = choose|j: int| 0 <= j < pv.len() && pv[j].1 == c;
            assert(periods@[j].1 == c);
        }
    }
    false
}

/// Appends the candidate `e` unless its cycle is already present.
fn add_candidate(periods: &mut Vec<(&'static str, u64, String)>, e: (&'static str, u64, String))
    requires
        distinct_cycles(old(periods)@),
    ensures
        distinct_cycles(final(periods)@),
        final(periods)@.map_values(|x: (&'static str, u64, String)| period_view(x)) == (if has_cycle(
            old(periods)@.map_values(|x: (&'static str, u64, String)| period_view(x)),
            e.1,
        ) {
            old(periods)@.map_values(|x: (&'static str, u64, String)| period_view(x))
        } else {
            old(periods)@.map_values(|x: (&'static str, u64, String)| period_view(x)).push(period_view(e))
        }),
{
    if !contains_cycle(periods, e.1) {
        let ghost before = periods@;
        periods.push(e);
        proof {
            assert(periods@.map_values(|x: (&'static str, u64, String)| period_view(x)) =~= before.map_values(
                |x: (&'static str, u64, String)| period_view(x),
            ).push(period_view(e)));
            assert forall|i: int, j: int| 0 <= i < j < periods@.len() implies periods@[i].1 != periods@[j].1 by {
                if j == before.len() {
                    assert(before.map_values(|x: (&'static str, u64, String)| period_view(x))[i].1 == before[i].1);
                }
            }
        }
    }
}

/// The collected periods within `max_cycle`, before ordering.
fn collect_periods(max_cycle: u64) -> (periods: Vec<(&'static str, u64, String)>)
    ensures
        distinct_cycles(periods@),
        periods@.map_values(|x: (&'static str, u64, String)| period_view(x)) == collected(max_cycle, 96),
{
    let multipliers: [u64; 11] = [2, 3, 4, 5, 7, 8, 11, 13, 18, 20, 73];
    let bases: [(u64, &'static str); 6] = [
        (SEED, "20"),
        (ASTRO_PRIME, "73"),
        (260, "260"),
        (365, "365"),
        (360, "360"),
        (7200, "7200"),
    ];
    let mut periods: Vec<(&'static str, u64, String)> = Vec::new();
    if SEED <= max_cycle {
        periods.push(("SEED=20", SEED, owned("seed")));
    }
    assert(periods@.map_values(|x: (&'static str, u64, String)| period_view(x)) =~= collected(max_cycle, 0));
    let mut mi: usize = 0;
    while mi < 11
        invariant
            0 <= mi <= 11,
            multipliers@ == lattice_multipliers(),
            bases@.map_values(|p: (u64, &'static str)| p.0) == lattice_bases(),
            bases@.map_values(|p: (u64, &'static str)| p.1) == lattice_base_labels(),
            distinct_cycles(periods@),
            periods@.map_values(|x: (&'static str, u64, String)| period_view(x)) == collected(
                max_cycle,
                (mi * 6) as nat,
            ),
        decreases 11 - mi,
    {
        let mut bi: usize = 0;
        while bi < 6
            invariant
                0 <= mi < 11,
                0 <= bi <= 6,
                multipliers@ == lattice_multipliers(),
                bases@.map_values(|p: (u64, &'static str)| p.0) == lattice_bases(),
                bases@.map_values(|p: (u64, &'static str)| p.1) == lattice_base_labels(),
                distinct_cycles(periods@),
                periods@.map_values(|x: (&'static str, u64, String)| period_view(x)) == collected(
                    max_cycle,
                    (mi * 6 + bi) as nat,
                ),
            decreases 6 - bi,
        {
            let m = multipliers[mi];
            let (b, label) = bases[bi];
            let ghost t: int = (mi * 6 + bi) as int;
            proof {
                assert(t / 6 == mi as int && t % 6 == bi as int);
                assert(lattice_bases()[bi as int] == b);
                assert(lattice_base_labels()[bi as int] == label);
                assert(m <= 73 && b <= 7200);
                assert(m * b <= 73 * 7200) by (nonlinear_arith)
                    requires
                        m <= 73,
                        b <= 7200,
                ;
            }
            let c = m * b;
            if c <= max_cycle && c > 0 {
                let a1 = concat("G(", decimal_string(m).as_str());
                let a2 = concat(a1.as_str(), ", ");
                let a3 = concat(a2.as_str(), label);
                let path = concat(a3.as_str(), ", 0, 0)");
                let name = name_of_period(c);
                add_candidate(&mut periods, (name, c, path));
            }
            bi = bi + 1;
        }
        mi = mi + 1;
    }
    let mut n: u64 = 1;
    while n <= 30
        invariant
            1 <= n <= 31,
            distinct_cycles(periods@),
            periods@.map_values(|x: (&'static str, u64, String)| period_view(x)) == collected(
                max_cycle,
                (65 + n) as nat,
            ),
        decreases 31 - n,
    {
        let c = n * SEED + 5;
        if c <= max_cycle {
            let name: &'static str = if c == 365 {
                "Haab"
            } else {
                "computed-inter"
            };
            let a1 = concat("G(", decimal_string(n).as_str());
            let path = concat(a1.as_str(), ", 20, 1, 5)");
            add_candidate(&mut periods, (name, c, path));
        }
        n = n + 1;
    }
    periods
}

/// Cycles of a period list strictly increase.
pub open spec fn cycles_increasing(s: Seq<(&'static str, u64, String)>) -> bool {
    forall|i: int, j: int| 0 <= i < j < s.len() ==> s[i].1 < s[j].1
}

/// `r` holds exactly the periods of `s`, by view: as many, each period of
/// `r` among those of `s` and each of `s` among those of `r`.
pub open spec fn same_periods(r: Seq<(&'static str, u64, String)>, s: Seq<(&'static str, u64, Seq<char>)>) -> bool {
    &&& r.len() == s.len()
    &&& covers(r, s, 0)
    &&& covered(r, s, 0)
}

/// Every period of `s` is one of `ov[lo..]`.
#[verifier::opaque]
pub open spec fn covers(s: Seq<(&'static str, u64, String)>, ov: Seq<(&'static str, u64, Seq<char>)>, lo: int) -> bool {
    forall|i: int| 0 <= i < s.len() ==> exists|j: int| lo <= j < ov.len() && #[trigger] period_view(s[i]) == ov[j]
}

/// Every one of `ov[lo..]` is a period of `s`.
#[verifier::opaque]
pub open spec fn covered(s: Seq<(&'static str, u64, String)>, ov: Seq<(&'static str, u64, Seq<char>)>, lo: int) -> bool {
    forall|j: int| lo <= j < ov.len() ==> exists|i: int| 0 <= i < s.len() && period_view(s[i]) == #[trigger] ov[j]
}

/// The empty list covers the empty tail.
proof fn lemma_covers_empty(s: Seq<(&'static str, u64, String)>, ov: Seq<(&'static str, u64, Seq<char>)>)
    requires
        s.len() == 0,
    ensures
        covers(s, ov, ov.len() as int),
        covered(s, ov, ov.len() as int),
{
    reveal(covers);
    reveal(covered);
}

/// Inserting the period of `ov[lo]` into a list covering `ov[lo + 1..]`
/// gives a list covering `ov[lo..]`, one for one.
proof fn lemma_insert_covers(
    before: Seq<(&'static str, u64, String)>,
    after: Seq<(&'static str, u64, String)>,
    pos: int,
    e: (&'static str, u64, String),
    ov: Seq<(&'static str, u64, Seq<char>)>,
    lo: int,
)
    requires
        0 <= pos <= before.len(),
        0 <= lo < ov.len(),
        after == before.insert(pos, e),
        period_view(e) == ov[lo],
        covers(before, ov, lo + 1),
        covered(before, ov, lo + 1),
    ensures
        covers(after, ov, lo),
        covered(after, ov, lo),
{
    reveal(covers);
    reveal(covered);
    assert forall|i: int| 0 <= i < after.len() implies exists|j: int|
        lo <= j < ov.len() && #[trigger] period_view(after[i]) == ov[j] by {
        if i < pos {
            assert(after[i] == before[i]);
            let j = choose|j: int| lo + 1 <= j < ov.len() && #[trigger] period_view(before[i]) == ov[j];
            assert(period_view(after[i]) == ov[j]);
        } else if i == pos {
            assert(period_view(after[i]) == ov[lo]);
        } else {
            assert(after[i] == before[i - 1]);
            let j = choose|j: int| lo + 1 <= j < ov.len() && #[trigger] period_view(before[i - 1]) == ov[j];
            assert(period_view(after[i]) == ov[j]);
        }
    }
    assert forall|j: int| lo <= j < ov.len() implies exists|i: int|
        0 <= i < after.len() && period_view(after[i]) == #[trigger] ov[j] by {
        if j == lo {
            assert(period_view(after[pos]) == ov[j]);
        } else {
            let i = choose|i: int| 0 <= i < before.len() && period_view(before[i]) == #[trigger] ov[j];
            if i < pos {
                assert(after[i] == before[i]);
            } else {
                assert(after[i + 1] == before[i]);
            }
        }
    }
}

/// A list covering `ov[lo + 1..]` holds no period with the cycle of
/// `ov[lo]` when the cycles of `ov` are distinct.
proof fn lemma_cycle_is_new(
    s: Seq<(&'static str, u64, String)>,
    orig: Seq<(&'static str, u64, String)>,
    ov: Seq<(&'static str, u64, Seq<char>)>,
    lo: int,
)
    requires
        0 <= lo < orig.len(),
        distinct_cycles(orig),
        ov == orig.map_values(|x: (&'static str, u64, String)| period_view(x)),
        covers(s, ov, lo + 1),
    ensures
        forall|i: int| 0 <= i < s.len() ==> s[i].1 != orig[lo].1,
{
    reveal(covers);
    assert forall|i: int| 0 <= i < s.len() implies s[i].1 != orig[lo].1 by {
        let j = choose|j: int| lo + 1 <= j < ov.len() && #[trigger] period_view(s[i]) == ov[j];
        assert(ov[j].1 == orig[j].1);
        assert(orig[lo].1 != orig[j].1);
    }
}

/// Inserts `e` into a list ordered by strictly increasing cycle, where
/// `e`'s cycle is new, returning the insertion position.
fn insert_by_cycle(sorted: &mut Vec<(&'static str, u64, String)>, e: (&'static str, u64, String)) -> (pos: usize)
    requires
        cycles_increasing(old(sorted)@),
        forall|i: int| 0 <= i < old(sorted)@.len() ==> old(sorted)@[i].1 != e.1,
    ensures
        pos <= old(sorted)@.len(),
        final(sorted)@ == old(sorted)@.insert(pos as int, e),
        cycles_increasing(final(sorted)@),
{
    let mut pos: usize = 0;
    while pos < sorted.len() && sorted[pos].1 < e.1
        invariant
            0 <= pos <= sorted.len(),
            forall|i: int| 0 <= i < pos ==> sorted@[i].1 < e.1,
        decreases sorted.len() - pos,
    {
        pos = pos + 1;
    }
    let ghost before = sorted@;
    sorted.insert(pos, e);
    proof {
        assert forall|i: int, j: int| 0 <= i < j < sorted@.len() implies sorted@[i].1 < sorted@[j].1 by {
            if pos < before.len() {
                assert(before[pos as int].1 >= e.1);
                assert(before[pos as int].1 != e.1);
            }
            if i < pos && j > pos {
                assert(before[i].1 < e.1);
                if pos < before.len() && j - 1 > pos {
                    assert(before[pos as int].1 < before[j - 1].1);
                }
            } else if i == pos && j > pos {
                if j - 1 > pos {
                    assert(before[pos as int].1 < before[j - 1].1);
                }
            }
        }
    }
    pos
}

/// Orders periods with distinct cycles by increasing cycle.
pub(crate) fn sort_by_cycle(periods: Vec<(&'static str, u64, String)>) -> (r: Vec<(&'static str, u64, String)>)
    requires
        distinct_cycles(periods@),
    ensures
        cycles_increasing(r@),
        same_periods(r@, periods@.map_values(|x: (&'static str, u64, String)| period_view(x))),
{
    let ghost orig = periods@;
    let ghost ov = orig.map_values(|x: (&'static str, u64, String)| period_view(x));
    let mut rest = periods;
    let mut sorted: Vec<(&'static str, u64, String)> = Vec::new();
    proof {
        lemma_covers_empty(sorted@, ov);
    }
    while rest.len() > 0
        invariant
            distinct_cycles(orig),
            ov == orig.map_values(|x: (&'static str, u64, String)| period_view(x)),
            rest@ == orig.subrange(0, rest.len() as int),
            sorted.len() + rest.len() == orig.len(),
            cycles_increasing(sorted@),
            covers(sorted@, ov, rest.len() as int),
            covered(sorted@, ov, rest.len() as int),
        decreases rest.len(),
    {
        let ghost start = sorted@;
        let e = rest.pop().unwrap();
        let ghost k = rest.len() as int;
        proof {
            assert(e == orig[k]);
            assert(period_view(e) == ov[k]);
            lemma_cycle_is_new(start, orig, ov, k);
        }
        let pos = insert_by_cycle(&mut sorted, e);
        proof {
            lemma_insert_covers(start, sorted@, pos as int, e, ov, k);
        }
    }
    proof {
        assert(ov.len() == orig.len());
    }
    sorted
}

/// The periods reachable from the seed by the bilinear generator within
/// `max_cycle`, named, with their generator path, by increasing cycle:
/// the seed (when within the bound), the uniform products `m·b` and the
/// intercalary cycles `20n + 5`, each cycle at its first derivation.
pub fn reachable_periods(max_cycle: u64) -> (r: Vec<(&'static str, u64, String)>)
    ensures
        cycles_increasing(r@),
        same_periods(r@, collected(max_cycle, 96)),
        forall|i: int| 0 <= i < collected(max_cycle, 96).len() ==> 0 < #[trigger] collected(max_cycle, 96)[i].1
            <= max_cycle,
{
    proof {
        lemma_collected_within(max_cycle, 96);
    }
    let periods = collect_periods(max_cycle);
    sort_by_cycle(periods)
}

/// Every collected period lies within `(0, max]`.
pub proof fn lemma_collected_within(max: u64, t: nat)
    ensures
        forall|i: int| 0 <= i < collected(max, t).len() ==> 0 < #[trigger] collected(max, t)[i].1 <= max,
    decreases t,
{
    if t > 0 {
        lemma_collected_within(max, (t - 1) as nat);
        let prev = collected(max, (t - 1) as nat);
        match lattice_candidate(max, t - 1) {
            Some(e) => {
                assert(0 < e.1 <= max);
                if !has_cycle(prev, e.1) {
                    assert forall|i: int| 0 <= i < prev.push(e).len() implies 0 < #[trigger] prev.push(e)[i].1
                        <= max by {
                        if i < prev.len() {
                            assert(prev.push(e)[i] == prev[i]);
                        }
                    }
                }
            },
            None => {},
        }
    }
}

/// Verdict of the generator stage.
#[derive(Clone, Copy, Debug, PartialEq, Eq, Structural)]
pub enum H1Stage8Verdict {
    /// All four heads are produced by the recursive generator.
    Supported,
    /// Three or fewer heads are produced.
    Partial,
}

impl H1Stage8Verdict {
    pub fn label(&self) -> (s: &'static str)
        ensures
            *self == H1Stage8Verdict::Supported ==> s == "SUPPORTED (recursive bilinear generator)",
            *self == H1Stage8Verdict::Partial ==> s == "PARTIAL",
    {
        match self {
            H1Stage8Verdict::Supported => "SUPPORTED (recursive bilinear generator)",
            H1Stage8Verdict::Partial => "PARTIAL",
        }
    }
}

/// The generator-stage report.
#[derive(Clone, Debug)]
pub struct H1Stage8Report {
    /// The generator tree is consistent.
    pub tree_verified: bool,
    /// Name and cycle of each tree node.
    pub tree_cycles: Vec<(String, u64)>,
    pub multiplier_profiles: Vec<MultiplierProfile>,
    /// Number of periods reachable within 200,000 days.
    pub reachable_count: usize,
    /// Tzolk'in, Haab, Calendar Round and Baktun are all reachable.
    pub all_heads_reachable: bool,
    pub verdict: H1Stage8Verdict,
}

/// The canonical head cycles: Tzolk'in, Haab, Calendar Round, Baktun.
pub open spec fn canonical_head_cycles() -> Seq<u64> {
    seq![260u64, 365, 18_980, 144_000]
}

/// Builds the generator-stage report.
pub fn compute_h1_stage8() -> (r: H1Stage8Report)
    ensures
        r.tree_verified,
        r.tree_cycles@.len() == 6,
        forall|k: int|
            0 <= k < 6 ==> (#[trigger] r.tree_cycles@[k]).0@ == tree_spec()[k].name@ && r.tree_cycles@[k].1
                == cycle_spec(tree_spec()[k].application),
        r.multiplier_profiles@.len() == 4,
        r.reachable_count == collected(200_000, 96).len(),
        r.all_heads_reachable == (forall|k: int|
            0 <= k < 4 ==> #[trigger] has_cycle(collected(200_000, 96), canonical_head_cycles()[k])),
        r.verdict == (if r.all_heads_reachable {
            H1Stage8Verdict::Supported
        } else {
            H1Stage8Verdict::Partial
        }),
{
    let tree_verified = verify_generator_tree();
    let nodes = canonical_generator_tree();
    let mut tree_cycles: Vec<(String, u64)> = Vec::new();
    let mut k: usize = 0;
    proof {
        let t = tree_spec();
        lemma_cycle_of(t[0].application, 13, 20, 0, 0);
        lemma_cycle_of(t[1].application, 18, 20, 0, 0);
        lemma_cycle_of(t[2].application, 18, 20, 1, 5);
        lemma_cycle_of(t[3].application, 73, 260, 0, 0);
        lemma_cycle_of(t[4].application, 20, 360, 0, 0);
        lemma_cycle_of(t[5].application, 20, 7200, 0, 0);
    }
    while k < 6
        invariant
            nodes@ == tree_spec(),
            cycles_fit(tree_spec()),
            0 <= k <= 6,
            tree_cycles@.len() == k,
            forall|j: int|
                0 <= j < k ==> (#[trigger] tree_cycles@[j]).0@ == tree_spec()[j].name@ && tree_cycles@[j].1
                    == cycle_spec(tree_spec()[j].application),
        decreases 6 - k,
    {
        proof {
            assert(cycle_spec(nodes@[k as int].application) <= u64::MAX);
        }
        tree_cycles.push((owned(nodes[k].name), nodes[k].cycle()));
        k = k + 1;
    }
    let profiles = multiplier_profiles();
    let reachable = reachable_periods(200_000);
    let reachable_count = reachable.len();
    let ghost coll = collected(200_000, 96);
    let canonical: [u64; 4] = [260, 365, 18_980, 144_000];
    let mut all_heads = true;
    let mut h: usize = 0;
    while h < 4
        invariant
            0 <= h <= 4,
            canonical@ == canonical_head_cycles(),
            coll == collected(200_000, 96),
            same_periods(reachable@, coll),
            all_heads == forall|q: int| 0 <= q < h ==> #[trigger] has_cycle(coll, canonical_head_cycles()[q]),
        decreases 4 - h,
    {
        let c = canonical[h];
        let mut found = false;
        let mut i: usize = 0;
        while i < reachable.len()
            invariant
                0 <= i <= reachable.len(),
                same_periods(reachable@, coll),
                found == exists|j: int| 0 <= j < i && reachable@[j].1 == c,
            decreases reachable.len() - i,
        {
            if reachable[i].1 == c {
                found = true;
            }
            i = i + 1;
        }
        proof {
            reveal(covers);
            reveal(covered);
            if found {
                let j = choose|j: int| 0 <= j < reachable@.len() && reachable@[j].1 == c;
                let q = choose|q: int| 0 <= q < coll.len() && #[trigger] period_view(reachable@[j]) == coll[q];
                assert(coll[q].1 == c);
            } else if has_cycle(coll, c) {
                let q = choose|q: int| 0 <= q < coll.len() && coll[q].1 == c;
                let j = choose|j: int| 0 <= j < reachable@.len() && period_view(reachable@[j]) == #[trigger] coll[q];
                assert(reachable@[j].1 == c);
            }
        }
        if !found {
            all_heads = false;
        }
        h = h + 1;
    }
    let verdict = if tree_verified && all_heads {
        H1Stage8Verdict::Supported
    } else {
        H1Stage8Verdict::Partial
    };
    H1Stage8Report {
        tree_verified,
        tree_cycles,
        multiplier_profiles: profiles,
        reachable_count,
        all_heads_reachable: all_heads,
        verdict,
    }
}

} // verus!
