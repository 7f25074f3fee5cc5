//! Depth analysis of the Katun: positions below `11³ = 1331` have a zero
//! third shadow digit `κ₃ = ⌊pos / 1331⌋ mod 11` (the shadow-free zone);
//! from 1331 on the digit can be non-zero (the depth zone).

use vstd::prelude::*;
use crate::events::EventSet;

verus! {

/// The Katun cycle length.
pub const KATUN_DAYS: u64 = 7_200;

/// The Tun, the 360-day sub-unit of the Katun.
pub const TUN_DAYS: u64 = 360;

/// Number of Tuns in the Katun.
pub const TUNS_PER_KATUN: u64 = 20;

/// The depth-activation threshold `11³ = 1331`.
pub const DEPTH_THRESHOLD: u64 = 1_331;

/// Number of Tuns wholly before the threshold: `⌊1331 / 360⌋ = 3`.
pub const SHADOW_FREE_TUNS: u64 = 3;

/// Zone of a position within the Katun.
#[derive(Clone, Copy, Debug, PartialEq, Eq, Structural)]
pub enum KatunZone {
    /// Position below 1331: `κ₃ = 0` always.
    ShadowFree,
    /// Position from 1331 on: `κ₃` can be non-zero.
    DepthActive,
}

/// The zone of a position.
pub open spec fn zone_of(p: u64) -> KatunZone {
    if p < DEPTH_THRESHOLD {
        KatunZone::ShadowFree
    } else {
        KatunZone::DepthActive
    }
}

/// The zone of a position within the Katun.
pub fn classify_katun_position(within_katun: u64) -> (z: KatunZone)
    ensures
        z == zone_of(within_katun),
{
    if within_katun < DEPTH_THRESHOLD {
        KatunZone::ShadowFree
    } else {
        KatunZone::DepthActive
    }
}

/// The (0-based) Tun a position falls in.
pub fn tun_index(within_katun: u64) -> (t: u64)
    ensures
        t == within_katun / TUN_DAYS,
{
    within_katun / TUN_DAYS
}

/// The third shadow digit `⌊p / 11³⌋ mod 11`.
pub open spec fn kappa3(p: u64) -> u64 {
    ((p / 1331) % 11) as u64
}

/// Positions with `κ₃ = k`.
pub open spec fn kappa3_is(k: int) -> spec_fn(u64) -> bool {
    |p: u64| kappa3(p) == k
}

/// Number of positions with `κ₃ = k`.
pub open spec fn kappa3_count(s: Seq<u64>, k: int) -> nat {
    s.filter(kappa3_is(k)).len()
}

/// `h` is the histogram of `κ₃` over `s`: bin `k` counts the positions
/// with `κ₃ = k`, for `k < 11`.
pub open spec fn is_kappa3_histogram(h: Seq<u64>, s: Seq<u64>) -> bool {
    h.len() == 11 && forall|k: int| 0 <= k < 11 ==> #[trigger] h[k] == kappa3_count(s, k)
}

/// `|a − b|`.
pub open spec fn abs_diff(a: int, b: int) -> int {
    if a > b {
        a - b
    } else {
        b - a
    }
}

/// Deviation (bp) of bin `k` from the even share `e` of `a` events.
pub open spec fn bin_deviation(h: Seq<u64>, k: int, e: int, a: int) -> int {
    abs_diff(h[k] as int, e) * 10_000 / a
}

/// Largest of five values.
pub open spec fn max5(a: int, b: int, c: int, d: int, e: int) -> int {
    let m1 = if a > b { a } else { b };
    let m2 = if m1 > c { m1 } else { c };
    let m3 = if m2 > d { m2 } else { d };
    if m3 > e { m3 } else { e }
}

/// Deviation (bp) of a zone's histogram from its predicted distribution:
/// in the shadow-free zone, the share of non-zero `κ₃`; in the depth zone,
/// the largest deviation of bins 1 to 5 from their even share.
pub open spec fn deviation_spec(zone: KatunZone, h: Seq<u64>, total: int) -> int {
    match zone {
        KatunZone::ShadowFree => {
            let non_zero = total - h[0];
            if total > 0 {
                non_zero * 10_000 / total
            } else {
                0
            }
        },
        KatunZone::DepthActive => {
            let a = h[1] + h[2] + h[3] + h[4] + h[5];
            if a == 0 {
                0
            } else {
                let e = a / 5;
                max5(
                    bin_deviation(h, 1, e, a),
                    bin_deviation(h, 2, e, a),
                    bin_deviation(h, 3, e, a),
                    bin_deviation(h, 4, e, a),
                    bin_deviation(h, 5, e, a),
                )
            }
        },
    }
}

/// `κ₃` distribution of the events of one zone.
#[derive(Clone, Debug)]
pub struct KappaThreeZoneDistribution {
    pub zone: KatunZone,
    pub event_count: u64,
    /// `histogram[k]` counts events with `κ₃ = k`.
    pub histogram: Vec<u64>,
    /// Deviation from the zone's predicted distribution (bp).
    pub deviation_from_predicted_bp: u64,
}

/// The bins of a histogram add up to the number of positions.
proof fn lemma_histogram_total(s: Seq<u64>)
    ensures
        kappa3_count(s, 0) + kappa3_count(s, 1) + kappa3_count(s, 2) + kappa3_count(s, 3) + kappa3_count(s, 4)
            + kappa3_count(s, 5) + kappa3_count(s, 6) + kappa3_count(s, 7) + kappa3_count(s, 8) + kappa3_count(s, 9)
            + kappa3_count(s, 10) == s.len(),
    decreases s.len(),
{
    if s.len() > 0 {
        let t = s.drop_last();
        lemma_histogram_total(t);
        assert(s =~= t.push(s.last()));
        assert forall|j: int| 0 <= j < 11 implies #[trigger] kappa3_count(s, j) == kappa3_count(t, j) + (if kappa3(
            s.last(),
        ) == j {
            1int
        } else {
            0
        }) by {
            t.lemma_filter_push(s.last(), kappa3_is(j));
        }
        assert(kappa3(s.last()) < 11);
        assert(kappa3_count(s, 0) == kappa3_count(t, 0) + (if kappa3(s.last()) == 0 { 1int } else { 0 }));
        assert(kappa3_count(s, 1) == kappa3_count(t, 1) + (if kappa3(s.last()) == 1 { 1int } else { 0 }));
        assert(kappa3_count(s, 2) == kappa3_count(t, 2) + (if kappa3(s.last()) == 2 { 1int } else { 0 }));
        assert(kappa3_count(s, 3) == kappa3_count(t, 3) + (if kappa3(s.last()) == 3 { 1int } else { 0 }));
        assert(kappa3_count(s, 4) == kappa3_count(t, 4) + (if kappa3(s.last()) == 4 { 1int } else { 0 }));
        assert(kappa3_count(s, 5) == kappa3_count(t, 5) + (if kappa3(s.last()) == 5 { 1int } else { 0 }));
        assert(kappa3_count(s, 6) == kappa3_count(t, 6) + (if kappa3(s.last()) == 6 { 1int } else { 0 }));
        assert(kappa3_count(s, 7) == kappa3_count(t, 7) + (if kappa3(s.last()) == 7 { 1int } else { 0 }));
        assert(kappa3_count(s, 8) == kappa3_count(t, 8) + (if kappa3(s.last()) == 8 { 1int } else { 0 }));
        assert(kappa3_count(s, 9) == kappa3_count(t, 9) + (if kappa3(s.last()) == 9 { 1int } else { 0 }));
        assert(kappa3_count(s, 10) == kappa3_count(t, 10) + (if kappa3(s.last()) == 10 { 1int } else { 0 }));
    } else {
        assert forall|j: int| 0 <= j < 11 implies #[trigger] kappa3_count(s, j) == 0 by {
            assert(s.filter(kappa3_is(j)) =~= s);
        }
        assert(kappa3_count(s, 0) == 0 && kappa3_count(s, 1) == 0 && kappa3_count(s, 2) == 0);
        assert(kappa3_count(s, 3) == 0 && kappa3_count(s, 4) == 0 && kappa3_count(s, 5) == 0);
        assert(kappa3_count(s, 6) == 0 && kappa3_count(s, 7) == 0 && kappa3_count(s, 8) == 0);
        assert(kappa3_count(s, 9) == 0 && kappa3_count(s, 10) == 0);
    }
}

impl KappaThreeZoneDistribution {
    /// The distribution of `κ₃` over the positions of one zone.
    fn build(zone: KatunZone, local_positions: &[u64]) -> (d: Self)
        requires
            local_positions@.len() * 10_000 <= u64::MAX,
        ensures
            d.zone == zone,
            d.event_count == local_positions@.len(),
            is_kappa3_histogram(d.histogram@, local_positions@),
            d.deviation_from_predicted_bp == deviation_spec(zone, d.histogram@, local_positions@.len() as int),
    {
        let mut hist: Vec<u64> = vec![0u64; 11];
        let mut i: usize = 0;
        while i < local_positions.len()
            invariant
                0 <= i <= local_positions.len(),
                hist@.len() == 11,
                forall|k: int| 0 <= k < 11 ==> #[trigger] hist@[k] == kappa3_count(local_positions@.subrange(0, i as int), k),
                forall|k: int| 0 <= k < 11 ==> #[trigger] hist@[k] <= i,
            decreases local_positions.len() - i,
        {
            let pos = local_positions[i];
            let k3 = (pos / DEPTH_THRESHOLD) % 11;
            let ghost pre = local_positions@.subrange(0, i as int);
            proof {
                assert(local_positions@.subrange(0, i as int + 1) =~= pre.push(pos));
                assert forall|k: int| 0 <= k < 11 implies #[trigger] kappa3_count(local_positions@.subrange(0, i as int + 1), k)
                    == kappa3_count(pre, k) + (if k3 == k { 1int } else { 0 }) by {
                    pre.lemma_filter_push(pos, kappa3_is(k));
                }
            }
            hist.set(k3 as usize, hist[k3 as usize] + 1);
            i = i + 1;
        }
        assert(local_positions@.subrange(0, local_positions.len() as int) =~= local_positions@);

        let total = local_positions.len() as u64;
        proof {
            lemma_histogram_total(local_positions@);
            assert(hist@[0] + hist@[1] + hist@[2] + hist@[3] + hist@[4] + hist@[5] + hist@[6] + hist@[7]
                + hist@[8] + hist@[9] + hist@[10] == total);
        }
        let dev: u64 = match zone {
            KatunZone::ShadowFree => {
                let mut non_zero: u64 = 0;
                let mut k: usize = 1;
                while k < 11
                    invariant
                        1 <= k <= 11,
                        hist@.len() == 11,
                        is_kappa3_histogram(hist@, local_positions@),
                        total == local_positions@.len(),
                        hist@[0] + hist@[1] + hist@[2] + hist@[3] + hist@[4] + hist@[5] + hist@[6] + hist@[7]
                            + hist@[8] + hist@[9] + hist@[10] == total,
                        non_zero == (if k > 1 { hist@[1] as int } else { 0 }) + (if k > 2 { hist@[2] as int } else { 0 })
                            + (if k > 3 { hist@[3] as int } else { 0 }) + (if k > 4 { hist@[4] as int } else { 0 })
                            + (if k > 5 { hist@[5] as int } else { 0 }) + (if k > 6 { hist@[6] as int } else { 0 })
                            + (if k > 7 { hist@[7] as int } else { 0 }) + (if k > 8 { hist@[8] as int } else { 0 })
                            + (if k > 9 { hist@[9] as int } else { 0 }) + (if k > 10 { hist@[10] as int } else { 0 }),
                    decreases 11 - k,
                {
                    non_zero = non_zero + hist[k];
                    k = k + 1;
                }
                if total > 0 {
                    non_zero * 10_000 / total
                } else {
                    0
                }
            },
            KatunZone::DepthActive => {
                let active_total: u64 = hist[1] + hist[2] + hist[3] + hist[4] + hist[5];
                if active_total == 0 {
                    0
                } else {
                    let expected = active_total / 5;
                    let mut best: u64 = 0;
                    let mut k: usize = 1;
                    while k < 6
                        invariant
                            1 <= k <= 6,
                            hist@.len() == 11,
                            active_total == hist@[1] + hist@[2] + hist@[3] + hist@[4] + hist@[5],
                            active_total > 0,
                            active_total <= total,
                            total * 10_000 <= u64::MAX,
                            expected == active_total / 5,
                            best == (if k == 1 {
                                0
                            } else if k == 2 {
                                bin_deviation(hist@, 1, expected as int, active_total as int)
                            } else if k == 3 {
                                max5(
                                    bin_deviation(hist@, 1, expected as int, active_total as int),
                                    bin_deviation(hist@, 2, expected as int, active_total as int),
                                    0, 0, 0,
                                )
                            } else if k == 4 {
                                max5(
                                    bin_deviation(hist@, 1, expected as int, active_total as int),
                                    bin_deviation(hist@, 2, expected as int, active_total as int),
                                    bin_deviation(hist@, 3, expected as int, active_total as int),
                                    0, 0,
                                )
                            } else if k == 5 {
                                max5(
                                    bin_deviation(hist@, 1, expected as int, active_total as int),
                                    bin_deviation(hist@, 2, expected as int, active_total as int),
                                    bin_deviation(hist@, 3, expected as int, active_total as int),
                                    bin_deviation(hist@, 4, expected as int, active_total as int),
                                    0,
                                )
                            } else {
                                max5(
                                    bin_deviation(hist@, 1, expected as int, active_total as int),
                                    bin_deviation(hist@, 2, expected as int, active_total as int),
                                    bin_deviation(hist@, 3, expected as int, active_total as int),
                                    bin_deviation(hist@, 4, expected as int, active_total as int),
                                    bin_deviation(hist@, 5, expected as int, active_total as int),
                                )
                            }),
                        decreases 6 - k,
                    {
                        let c = hist[k];
                        let d = if c > expected {
                            c - expected
                        } else {
                            expected - c
                        };
                        proof {
                            assert(d <= active_total);
                            assert(d * 10_000 <= total * 10_000) by (nonlinear_arith)
                                requires
                                    d <= active_total,
                                    active_total <= total,
                            ;
                            vstd::arithmetic::div_mod::lemma_div_pos_is_pos((d * 10_000) as int, active_total as int);
                            vstd::arithmetic::div_mod::lemma_div_is_ordered_by_denominator((d * 10_000) as int, 1, active_total as int);
                        }
                        let v = d * 10_000 / active_total;
                        if v > best {
                            best = v;
                        }
                        k = k + 1;
                    }
                    best
                }
            },
        };
        KappaThreeZoneDistribution {
            zone,
            event_count: total,
            histogram: hist,
            deviation_from_predicted_bp: dev,
        }
    }

    /// Share (bp) of events with `κ₃ = 0`; 0 without events.
    pub fn kappa3_zero_fraction_bp(&self) -> (f: u64)
        requires
            self.histogram@.len() >= 1,
            self.histogram@[0] * 10_000 <= u64::MAX,
        ensures
            f == (if self.event_count == 0 { 0 } else { self.histogram@[0] * 10_000 / (self.event_count as int) }),
    {
        if self.event_count == 0 {
            return 0;
        }
        self.histogram[0] * 10_000 / self.event_count
    }
}

/// The Tun of a position, the last one for positions past the Katun.
pub open spec fn tun_of(p: u64) -> int {
    if p / 360 < 19 {
        (p / 360) as int
    } else {
        19
    }
}

/// Positions in Tun `t`.
pub open spec fn in_tun(t: int) -> spec_fn(u64) -> bool {
    |p: u64| tun_of(p) == t
}

/// Positions in Tun `t` with `κ₃ = 0`.
pub open spec fn in_tun_kappa3_zero(t: int) -> spec_fn(u64) -> bool {
    |p: u64| tun_of(p) == t && kappa3(p) == 0
}

/// Distribution of events over the 20 Tuns of the Katun.
#[derive(Clone, Debug)]
pub struct TunDistribution {
    /// Events per Tun.
    pub tun_counts: Vec<u64>,
    /// Share (bp) of each Tun's events with `κ₃ = 0`.
    pub tun_kappa3_zero_bp: Vec<u64>,
    /// The Tun starts before the depth threshold.
    pub tun_shadow_free: Vec<bool>,
}

/// The Tun distribution owed for `s`.
pub open spec fn tun_distribution_of(d: TunDistribution, s: Seq<u64>) -> bool {
    &&& d.tun_counts@.len() == 20
    &&& d.tun_kappa3_zero_bp@.len() == 20
    &&& d.tun_shadow_free@.len() == 20
    &&& forall|t: int|
        0 <= t < 20 ==> {
            &&& #[trigger] d.tun_counts@[t] == s.filter(in_tun(t)).len()
            &&& d.tun_kappa3_zero_bp@[t] == (if s.filter(in_tun(t)).len() == 0 {
                0
            } else {
                (s.filter(in_tun_kappa3_zero(t)).len() * 10_000) as int / (s.filter(in_tun(t)).len() as int)
            })
            &&& d.tun_shadow_free@[t] == (t * 360 < 1331)
        }
}

impl TunDistribution {
    /// Per-Tun counts and `κ₃ = 0` shares of the positions.
    fn build(local_positions: &[u64]) -> (d: Self)
        requires
            local_positions@.len() * 10_000 <= u64::MAX,
        ensures
            tun_distribution_of(d, local_positions@),
    {
        let mut counts: Vec<u64> = vec![0u64; 20];
        let mut k3_zero: Vec<u64> = vec![0u64; 20];
        let mut i: usize = 0;
        while i < local_positions.len()
            invariant
                0 <= i <= local_positions.len(),
                counts@.len() == 20,
                k3_zero@.len() == 20,
                forall|t: int| 0 <= t < 20 ==> #[trigger] counts@[t] == local_positions@.subrange(0, i as int).filter(in_tun(t)).len(),
                forall|t: int| 0 <= t < 20 ==> #[trigger] k3_zero@[t] == local_positions@.subrange(0, i as int).filter(
                    in_tun_kappa3_zero(t),
                ).len(),
                forall|t: int| 0 <= t < 20 ==> #[trigger] counts@[t] <= i,
                forall|t: int| 0 <= t < 20 ==> #[trigger] k3_zero@[t] <= counts@[t],
            decreases local_positions.len() - i,
        {
            let pos = local_positions[i];
            let q = pos / TUN_DAYS;
            let tun: usize = if q < 19 {
                q as usize
            } else {
                19
            };
            let k3 = (pos / DEPTH_THRESHOLD) % 11;
            let ghost pre = local_positions@.subrange(0, i as int);
            proof {
                assert(local_positions@.subrange(0, i as int + 1) =~= pre.push(pos));
                assert forall|t: int| 0 <= t < 20 implies #[trigger] local_positions@.subrange(0, i as int + 1).filter(
                    in_tun(t),
                ).len() == pre.filter(in_tun(t)).len() + (if tun == t { 1int } else { 0 }) by {
                    pre.lemma_filter_push(pos, in_tun(t));
                }
                assert forall|t: int| 0 <= t < 20 implies #[trigger] local_positions@.subrange(0, i as int + 1).filter(
                    in_tun_kappa3_zero(t),
                ).len() == pre.filter(in_tun_kappa3_zero(t)).len() + (if tun == t && k3 == 0 { 1int } else { 0 }) by {
                    pre.lemma_filter_push(pos, in_tun_kappa3_zero(t));
                }
            }
            counts.set(tun, counts[tun] + 1);
            if k3 == 0 {
                k3_zero.set(tun, k3_zero[tun] + 1);
            }
            i = i + 1;
        }
        assert(local_positions@.subrange(0, local_positions.len() as int) =~= local_positions@);
        let mut bp: Vec<u64> = Vec::new();
        let mut free: Vec<bool> = Vec::new();
        let mut t: usize = 0;
        while t < 20
            invariant
                0 <= t <= 20,
                counts@.len() == 20,
                k3_zero@.len() == 20,
                forall|j: int| 0 <= j < 20 ==> #[trigger] counts@[j] <= local_positions@.len(),
                forall|j: int| 0 <= j < 20 ==> #[trigger] k3_zero@[j] <= counts@[j],
                local_positions@.len() * 10_000 <= u64::MAX,
                bp@.len() == t,
                free@.len() == t,
                forall|j: int|
                    0 <= j < t ==> #[trigger] bp@[j] == (if counts@[j] == 0 {
                        0
                    } else {
                        k3_zero@[j] * 10_000 / (counts@[j] as int)
                    }),
                forall|j: int| 0 <= j < t ==> #[trigger] free@[j] == (j * 360 < 1331),
            decreases 20 - t,
        {
            let v: u64 = if counts[t] == 0 {
                0
            } else {
                proof {
                    assert(k3_zero@[t as int] * 10_000 <= local_positions@.len() * 10_000) by (nonlinear_arith)
                        requires
                            k3_zero@[t as int] <= local_positions@.len(),
                    ;
                }
                k3_zero[t] * 10_000 / counts[t]
            };
            bp.push(v);
            free.push((t as u64) * TUN_DAYS < DEPTH_THRESHOLD);
            t = t + 1;
        }
        TunDistribution { tun_counts: counts, tun_kappa3_zero_bp: bp, tun_shadow_free: free }
    }
}

/// The Katun depth report.
#[derive(Clone, Debug)]
pub struct KatunDepthReport {
    pub total_events: u64,
    /// Events in the shadow-free zone.
    pub shadow_free_events: u64,
    /// Events in the depth zone.
    pub depth_active_events: u64,
    /// Share (bp) of events in the shadow-free zone.
    pub shadow_free_fraction_bp: u64,
    pub shadow_free_dist: KappaThreeZoneDistribution,
    pub depth_dist: KappaThreeZoneDistribution,
    pub tun_dist: TunDistribution,
    /// Shadow-free `κ₃ = 0` share at least 99% and depth share below 90%.
    pub prediction_confirmed: bool,
}

/// Positions of the events within the head's cycle.
pub open spec fn local_positions(days: Seq<u64>, cycle: u64) -> Seq<u64> {
    days.map_values(|d: u64| (d % cycle) as u64)
}

/// Positions in the shadow-free zone.
pub open spec fn shadow_free() -> spec_fn(u64) -> bool {
    |p: u64| p < 1331
}

/// Positions in the depth zone.
pub open spec fn depth_active() -> spec_fn(u64) -> bool {
    |p: u64| p >= 1331
}

/// Days of the events of a set.
pub open spec fn event_days(events: EventSet) -> Seq<u64> {
    events.events@.map_values(|e: crate::events::CodexEvent| e.days_since_epoch)
}

/// `κ₃ = 0` share (bp) of a zone histogram.
pub open spec fn zero_fraction(h: Seq<u64>, n: int) -> int {
    if n == 0 {
        0
    } else {
        h[0] * 10_000 / n
    }
}

/// A zone distribution owed for positions `s`.
pub open spec fn zone_distribution_of(d: KappaThreeZoneDistribution, zone: KatunZone, s: Seq<u64>) -> bool {
    &&& d.zone == zone
    &&& d.event_count == s.len()
    &&& is_kappa3_histogram(d.histogram@, s)
    &&& d.deviation_from_predicted_bp == deviation_spec(zone, d.histogram@, s.len() as int)
}

/// Splitting positions into the two zones keeps every position.
proof fn lemma_zone_split(s: Seq<u64>)
    ensures
        s.filter(shadow_free()).len() + s.filter(depth_active()).len() == s.len(),
    decreases s.len(),
{
    if s.len() > 0 {
        let t = s.drop_last();
        lemma_zone_split(t);
        assert(s =~= t.push(s.last()));
        t.lemma_filter_push(s.last(), shadow_free());
        t.lemma_filter_push(s.last(), depth_active());
    } else {
        assert(s.filter(shadow_free()) =~= s);
        assert(s.filter(depth_active()) =~= s);
    }
}

/// A filtered sequence is no longer than the sequence.
proof fn lemma_filter_len_le(s: Seq<u64>, f: spec_fn(u64) -> bool)
    ensures
        s.filter(f).len() <= s.len(),
    decreases s.len(),
{
    if s.len() > 0 {
        let t = s.drop_last();
        lemma_filter_len_le(t, f);
        assert(s =~= t.push(s.last()));
        t.lemma_filter_push(s.last(), f);
    } else {
        assert(s.filter(f) =~= s);
    }
}

/// In the shadow-free zone every position has `κ₃ = 0`.
proof fn lemma_shadow_free_kappa3_zero(s: Seq<u64>)
    requires
        forall|i: int| 0 <= i < s.len() ==> #[trigger] s[i] < 1331,
    ensures
        kappa3_count(s, 0) == s.len(),
    decreases s.len(),
{
    if s.len() > 0 {
        let t = s.drop_last();
        lemma_shadow_free_kappa3_zero(t);
        assert(s =~= t.push(s.last()));
        t.lemma_filter_push(s.last(), kappa3_is(0));
        assert(s.last() < 1331);
    } else {
        assert(s.filter(kappa3_is(0)) =~= s);
    }
}

/// Below `11⁴`, a position from 1331 on has `κ₃ ≠ 0`.
proof fn lemma_depth_kappa3_nonzero(s: Seq<u64>)
    requires
        forall|i: int| 0 <= i < s.len() ==> 1331 <= #[trigger] s[i] < 14641,
    ensures
        kappa3_count(s, 0) == 0,
    decreases s.len(),
{
    if s.len() > 0 {
        let t = s.drop_last();
        lemma_depth_kappa3_nonzero(t);
        assert(s =~= t.push(s.last()));
        t.lemma_filter_push(s.last(), kappa3_is(0));
        let p = s.last();
        assert(1 <= p / 1331 < 11);
    } else {
        assert(s.filter(kappa3_is(0)) =~= s);
    }
}

/// The Katun depth analysis of the events, with `cycle` the Long Count
/// head's cycle: each event's position within the cycle, split into the
/// two zones, with the `κ₃` distribution of each zone and per Tun.
pub fn compute_katun_depth_report(events: &EventSet, cycle: u64) -> (r: KatunDepthReport)
    requires
        cycle > 0,
        events.events@.len() * 10_000 <= u64::MAX,
    ensures
        r.total_events == events.events@.len(),
        r.shadow_free_events == local_positions(event_days(*events), cycle).filter(shadow_free()).len(),
        r.depth_active_events == local_positions(event_days(*events), cycle).filter(depth_active()).len(),
        r.shadow_free_events + r.depth_active_events == r.total_events,
        r.shadow_free_fraction_bp == (if r.total_events > 0 {
            r.shadow_free_events * 10_000 / (r.total_events as int)
        } else {
            0
        }),
        zone_distribution_of(
            r.shadow_free_dist,
            KatunZone::ShadowFree,
            local_positions(event_days(*events), cycle).filter(shadow_free()),
        ),
        zone_distribution_of(
            r.depth_dist,
            KatunZone::DepthActive,
            local_positions(event_days(*events), cycle).filter(depth_active()),
        ),
        tun_distribution_of(
            r.tun_dist,
            local_positions(event_days(*events), cycle).filter(shadow_free()) + local_positions(
                event_days(*events),
                cycle,
            ).filter(depth_active()),
        ),
        r.prediction_confirmed == (zero_fraction(r.shadow_free_dist.histogram@, r.shadow_free_events as int) >= 9_900
            && zero_fraction(r.depth_dist.histogram@, r.depth_active_events as int) < 9_000),
        r.shadow_free_dist.histogram@[0] == r.shadow_free_events,
        cycle <= 14641 ==> r.depth_dist.histogram@[0] == 0,
{
    let ghost pos = local_positions(event_days(*events), cycle);
    let mut sf: Vec<u64> = Vec::new();
    let mut da: Vec<u64> = Vec::new();
    let mut i: usize = 0;
    while i < events.events.len()
        invariant
            0 <= i <= events.events.len(),
            cycle > 0,
            pos == local_positions(event_days(*events), cycle),
            pos.len() == events.events@.len(),
            sf@ == pos.subrange(0, i as int).filter(shadow_free()),
            da@ == pos.subrange(0, i as int).filter(depth_active()),
            forall|k: int| 0 <= k < sf@.len() ==> #[trigger] sf@[k] < 1331,
            forall|k: int| 0 <= k < da@.len() ==> 1331 <= #[trigger] da@[k] < cycle,
        decreases events.events.len() - i,
    {
        let local = events.events[i].days_since_epoch % cycle;
        let ghost pre = pos.subrange(0, i as int);
        proof {
            assert(pos[i as int] == local);
            assert(pos.subrange(0, i as int + 1) =~= pre.push(local));
            pre.lemma_filter_push(local, shadow_free());
            pre.lemma_filter_push(local, depth_active());
        }
        match classify_katun_position(local) {
            KatunZone::ShadowFree => sf.push(local),
            KatunZone::DepthActive => da.push(local),
        }
        i = i + 1;
    }
    assert(pos.subrange(0, pos.len() as int) =~= pos);
    proof {
        lemma_zone_split(pos);
        lemma_shadow_free_kappa3_zero(sf@);
        if cycle <= 14641 {
            lemma_depth_kappa3_nonzero(da@);
        }
    }
    let total = events.events.len() as u64;
    let n_sf = sf.len() as u64;
    let n_da = da.len() as u64;
    let sf_frac = if total > 0 {
        proof {
            assert(n_sf * 10_000 <= total * 10_000) by (nonlinear_arith)
                requires
                    n_sf <= total,
            ;
        }
        n_sf * 10_000 / total
    } else {
        0
    };
    let sf_dist = KappaThreeZoneDistribution::build(KatunZone::ShadowFree, sf.as_slice());
    let da_dist = KappaThreeZoneDistribution::build(KatunZone::DepthActive, da.as_slice());
    let mut all: Vec<u64> = Vec::new();
    let mut j: usize = 0;
    while j < sf.len()
        invariant
            0 <= j <= sf.len(),
            all@ == sf@.subrange(0, j as int),
        decreases sf.len() - j,
    {
        all.push(sf[j]);
        j = j + 1;
        assert(all@ =~= sf@.subrange(0, j as int));
    }
    let mut m: usize = 0;
    while m < da.len()
        invariant
            0 <= m <= da.len(),
            all@ == sf@ + da@.subrange(0, m as int),
        decreases da.len() - m,
    {
        all.push(da[m]);
        m = m + 1;
        assert(all@ =~= sf@ + da@.subrange(0, m as int));
    }
    assert(sf@.subrange(0, sf@.len() as int) =~= sf@);
    assert(da@.subrange(0, da@.len() as int) =~= da@);
    let tun_dist = TunDistribution::build(all.as_slice());
    proof {
        assert(sf_dist.histogram@[0] == n_sf);
        assert(sf_dist.histogram@[0] * 10_000 <= u64::MAX) by (nonlinear_arith)
            requires
                sf_dist.histogram@[0] <= total,
                total * 10_000 <= u64::MAX,
        ;
        assert(da_dist.histogram@[0] <= n_da) by {
            lemma_filter_len_le(da@, kappa3_is(0));
        }
        assert(da_dist.histogram@[0] * 10_000 <= u64::MAX) by (nonlinear_arith)
            requires
                da_dist.histogram@[0] <= total,
                total * 10_000 <= u64::MAX,
        ;
    }
    let sf_ok = sf_dist.kappa3_zero_fraction_bp() >= 9_900;
    let da_ok = da_dist.kappa3_zero_fraction_bp() < 9_000;
    KatunDepthReport {
        total_events: total,
        shadow_free_events: n_sf,
        depth_active_events: n_da,
        shadow_free_fraction_bp: sf_frac,
        shadow_free_dist: sf_dist,
        depth_dist: da_dist,
        tun_dist,
        prediction_confirmed: sf_ok && da_ok,
    }
}

} // verus!
