//! The six Goddess-section diagnostics: each turns its inputs into a
//! signal in basis points and fires at its threshold; the verdict counts
//! the instruments that fire.

use vstd::prelude::*;
use crate::H4_SUPPORT_THRESHOLD;
use crate::text::{concat, decimal_string, decimal_text, owned};

verus! {

/// One instrument's result.
#[derive(Clone, Debug)]
pub struct InstrumentResult {
    pub name: &'static str,
    /// Signal in basis points.
    pub signal_bp: u64,
    /// The signal at which the instrument fires.
    pub threshold_bp: u64,
    /// The signal reaches the threshold.
    pub fired: bool,
    pub notes: String,
}

impl InstrumentResult {
    /// A result; it fires when the signal reaches the threshold.
    pub fn new(name: &'static str, signal_bp: u64, threshold_bp: u64, notes: &str) -> (r: Self)
        ensures
            r.name == name,
            r.signal_bp == signal_bp,
            r.threshold_bp == threshold_bp,
            r.fired == (signal_bp >= threshold_bp),
            r.notes@ == notes@,
    {
        InstrumentResult { name, signal_bp, threshold_bp, fired: signal_bp >= threshold_bp, notes: owned(notes) }
    }
}

/// The verdict of the suite.
#[derive(Clone, Copy, Debug, PartialEq, Eq, Structural)]
pub enum H4Verdict {
    /// At least three instruments fired.
    Supported,
    /// One or two fired.
    Partial,
    /// None fired.
    Unsupported,
    /// No instruments.
    Indeterminate,
}

impl H4Verdict {
    pub fn label(&self) -> (s: &'static str)
        ensures
            *self == H4Verdict::Supported ==> s == "SUPPORTED",
            *self == H4Verdict::Partial ==> s == "PARTIAL",
            *self == H4Verdict::Unsupported ==> s == "UNSUPPORTED",
            *self == H4Verdict::Indeterminate ==> s == "INDETERMINATE",
    {
        match self {
            H4Verdict::Supported => "SUPPORTED",
            H4Verdict::Partial => "PARTIAL",
            H4Verdict::Unsupported => "UNSUPPORTED",
            H4Verdict::Indeterminate => "INDETERMINATE",
        }
    }
}

/// The full report.
#[derive(Clone, Debug)]
pub struct H4Report {
    pub instruments: Vec<InstrumentResult>,
    pub verdict: H4Verdict,
}

/// Number of fired results.
pub open spec fn fired_count(s: Seq<InstrumentResult>) -> nat
    decreases s.len(),
{
    if s.len() == 0 {
        0
    } else {
        fired_count(s.drop_last()) + if s.last().fired { 1nat } else { 0 }
    }
}

/// The verdict for `fired` of `total` instruments.
pub open spec fn verdict_spec(fired: nat, total: nat) -> H4Verdict {
    if total == 0 {
        H4Verdict::Indeterminate
    } else if fired >= H4_SUPPORT_THRESHOLD {
        H4Verdict::Supported
    } else if fired >= 1 {
        H4Verdict::Partial
    } else {
        H4Verdict::Unsupported
    }
}

/// The verdict of a non-empty suite depends on the number of fired
/// instruments alone, whatever the number of instruments: supported from
/// `H4_SUPPORT_THRESHOLD` (three) fired on, partial for one or two,
/// unsupported for none. An empty suite is indeterminate.
pub proof fn lemma_verdict_by_fired(fired: nat, total: nat, other_total: nat)
    requires
        total > 0,
        other_total > 0,
    ensures
        verdict_spec(fired, total) == verdict_spec(fired, other_total),
        verdict_spec(fired, total) == H4Verdict::Supported <==> fired >= 3,
        verdict_spec(fired, total) == H4Verdict::Partial <==> (1 <= fired && fired <= 2),
        verdict_spec(fired, total) == H4Verdict::Unsupported <==> fired == 0,
        verdict_spec(fired, total) != H4Verdict::Indeterminate,
        verdict_spec(fired, 0) == H4Verdict::Indeterminate,
{
}

proof fn lemma_fired_count_le(s: Seq<InstrumentResult>)
    ensures
        fired_count(s) <= s.len(),
    decreases s.len(),
{
    if s.len() > 0 {
        lemma_fired_count_le(s.drop_last());
    }
}

/// Counts the fired results.
fn count_fired(instruments: &Vec<InstrumentResult>) -> (n: usize)
    ensures
        n == fired_count(instruments@),
{
    let mut n: usize = 0;
    let mut i: usize = 0;
    while i < instruments.len()
        invariant
            0 <= i <= instruments.len(),
            n == fired_count(instruments@.subrange(0, i as int)),
        decreases instruments.len() - i,
    {
        proof {
            assert(instruments@.subrange(0, i as int + 1).drop_last() =~= instruments@.subrange(0, i as int));
            lemma_fired_count_le(instruments@.subrange(0, i as int));
        }
        if instruments[i].fired {
            n = n + 1;
        }
        i = i + 1;
    }
    assert(instruments@.subrange(0, instruments.len() as int) =~= instruments@);
    n
}

impl H4Report {
    /// The report over the results: the verdict counts the fired ones.
    pub fn from_instruments(instruments: Vec<InstrumentResult>) -> (r: Self)
        ensures
            r.instruments@ == instruments@,
            r.verdict == verdict_spec(fired_count(instruments@), instruments@.len()),
            instruments@.len() == 0 <==> r.verdict == H4Verdict::Indeterminate,
            r.verdict == H4Verdict::Supported <==> (instruments@.len() > 0 && fired_count(
                instruments@,
            ) >= 3),
            r.verdict == H4Verdict::Partial <==> (instruments@.len() > 0 && 1 <= fired_count(
                instruments@,
            ) <= 2),
            r.verdict == H4Verdict::Unsupported <==> (instruments@.len() > 0 && fired_count(
                instruments@,
            ) == 0),
    {
        let fire_count = count_fired(&instruments);
        let total = instruments.len();
        let verdict = if total == 0 {
            H4Verdict::Indeterminate
        } else if fire_count >= H4_SUPPORT_THRESHOLD {
            H4Verdict::Supported
        } else if fire_count >= 1 {
            H4Verdict::Partial
        } else {
            H4Verdict::Unsupported
        };
        H4Report { instruments, verdict }
    }

    /// Number of instruments that fired.
    pub fn fire_count(&self) -> (n: usize)
        ensures
            n == fired_count(self.instruments@),
    {
        count_fired(&self.instruments)
    }
}

/// Instrument 1 input.
pub struct NecessitySurplusInput {
    /// Information content of the section (bp of the maximum).
    pub observed_content_bp: u64,
    /// Minimum needed for biological-cycle tracking alone.
    pub biological_minimum_bp: u64,
    pub surplus_threshold_bp: u64,
}

/// `a − b`, floored at 0.
pub open spec fn sat_sub(a: u64, b: u64) -> u64 {
    if a > b {
        (a - b) as u64
    } else {
        0
    }
}

/// `n·10000 / d`, 0 for `d = 0`.
pub open spec fn share_bp(n: u64, d: u64) -> int {
    if d == 0 {
        0
    } else {
        (n * 10_000) / (d as int)
    }
}

/// `n·10000 / d`, 0 for `d = 0`.
fn share(n: u64, d: u64) -> (r: u64)
    requires
        n * 10_000 <= u64::MAX,
    ensures
        r == share_bp(n, d),
{
    if d == 0 {
        0
    } else {
        (n * 10_000) / d
    }
}

/// Instrument 1: content beyond the biological minimum.
pub fn necessity_surplus(input: NecessitySurplusInput) -> (r: InstrumentResult)
    ensures
        r.name == "Necessity-Surplus",
        r.signal_bp == sat_sub(input.observed_content_bp, input.biological_minimum_bp),
        r.threshold_bp == input.surplus_threshold_bp,
        r.fired == (r.signal_bp >= r.threshold_bp),
        r.notes@ == "Surplus = "@ + decimal_text(r.signal_bp as nat) + " bp over biological baseline "@
            + decimal_text(input.biological_minimum_bp as nat) + " bp"@,
{
    let surplus = input.observed_content_bp.saturating_sub(input.biological_minimum_bp);
    let a = concat("Surplus = ", decimal_string(surplus).as_str());
    let b = concat(a.as_str(), " bp over biological baseline ");
    let c = concat(b.as_str(), decimal_string(input.biological_minimum_bp).as_str());
    let notes = concat(c.as_str(), " bp");
    InstrumentResult::new("Necessity-Surplus", surplus, input.surplus_threshold_bp, notes.as_str())
}

/// Instrument 2 input.
pub struct CrossReferenceInput {
    /// References matching page-24 anchors, Venus intervals, basis moduli
    /// or 819-day values.
    pub anchor_matches: u64,
    /// Numerical content units of the section.
    pub total_numerical_units: u64,
    pub density_threshold_bp: u64,
}

/// Instrument 2: density of anchor matches.
pub fn cross_reference_mapper(input: CrossReferenceInput) -> (r: InstrumentResult)
    requires
        input.anchor_matches * 10_000 <= u64::MAX,
    ensures
        r.name == "Cross-Reference",
        r.signal_bp == share_bp(input.anchor_matches, input.total_numerical_units),
        r.threshold_bp == input.density_threshold_bp,
        r.fired == (r.signal_bp >= r.threshold_bp),
        r.notes@ == decimal_text(input.anchor_matches as nat) + "/"@ + decimal_text(
            input.total_numerical_units as nat,
        ) + " numerical references match substrate anchors"@,
{
    let density_bp = share(input.anchor_matches, input.total_numerical_units);
    let a = concat(decimal_string(input.anchor_matches).as_str(), "/");
    let b = concat(a.as_str(), decimal_string(input.total_numerical_units).as_str());
    let notes = concat(b.as_str(), " numerical references match substrate anchors");
    InstrumentResult::new("Cross-Reference", density_bp, input.density_threshold_bp, notes.as_str())
}

/// Instrument 3 input.
pub struct InformationContentInput {
    /// Entropy of the section (bp of the maximum).
    pub goddess_entropy_bp: u64,
    /// Mean entropy of single-purpose almanac sections.
    pub baseline_entropy_bp: u64,
    pub excess_threshold_bp: u64,
}

/// Instrument 3: entropy above the almanac baseline.
pub fn information_content(input: InformationContentInput) -> (r: InstrumentResult)
    ensures
        r.name == "Info-Content",
        r.signal_bp == sat_sub(input.goddess_entropy_bp, input.baseline_entropy_bp),
        r.threshold_bp == input.excess_threshold_bp,
        r.fired == (r.signal_bp >= r.threshold_bp),
        r.notes@ == "Goddess "@ + decimal_text(input.goddess_entropy_bp as nat) + " bp vs baseline "@
            + decimal_text(input.baseline_entropy_bp as nat) + " bp → excess "@ + decimal_text(
            r.signal_bp as nat,
        ) + " bp"@,
{
    let excess = input.goddess_entropy_bp.saturating_sub(input.baseline_entropy_bp);
    let a = concat("Goddess ", decimal_string(input.goddess_entropy_bp).as_str());
    let b = concat(a.as_str(), " bp vs baseline ");
    let c = concat(b.as_str(), decimal_string(input.baseline_entropy_bp).as_str());
    let d = concat(c.as_str(), " bp → excess ");
    let e = concat(d.as_str(), decimal_string(excess).as_str());
    let notes = concat(e.as_str(), " bp");
    InstrumentResult::new("Info-Content", excess, input.excess_threshold_bp, notes.as_str())
}

/// Instrument 4 input.
pub struct ConfigurationMatchInput {
    /// Content units matching a configuration-instruction signature.
    pub matched_signatures: u64,
    pub total_examined: u64,
    pub match_threshold_bp: u64,
}

/// Instrument 4: rate of configuration-signature matches.
pub fn configuration_match(input: ConfigurationMatchInput) -> (r: InstrumentResult)
    requires
        input.matched_signatures * 10_000 <= u64::MAX,
    ensures
        r.name == "Config-Match",
        r.signal_bp == share_bp(input.matched_signatures, input.total_examined),
        r.threshold_bp == input.match_threshold_bp,
        r.fired == (r.signal_bp >= r.threshold_bp),
        r.notes@ == decimal_text(input.matched_signatures as nat) + "/"@ + decimal_text(input.total_examined as nat)
            + " content units match configuration-instruction signatures"@,
{
    let rate = share(input.matched_signatures, input.total_examined);
    let a = concat(decimal_string(input.matched_signatures).as_str(), "/");
    let b = concat(a.as_str(), decimal_string(input.total_examined).as_str());
    let notes = concat(b.as_str(), " content units match configuration-instruction signatures");
    InstrumentResult::new("Config-Match", rate, input.match_threshold_bp, notes.as_str())
}

/// Instrument 5 input.
pub struct CompressionResistanceInput {
    /// Compressed size under a biological-only model.
    pub bio_only_compressed_size: u64,
    /// Compressed size under a dual-encoding model.
    pub dual_compressed_size: u64,
    pub reduction_threshold_bp: u64,
}

/// Instrument 5: relative size reduction of the dual model.
pub fn compression_resistance(input: CompressionResistanceInput) -> (r: InstrumentResult)
    requires
        input.bio_only_compressed_size * 10_000 <= u64::MAX,
    ensures
        r.name == "Compression",
        r.signal_bp == share_bp(
            sat_sub(input.bio_only_compressed_size, input.dual_compressed_size),
            input.bio_only_compressed_size,
        ),
        r.threshold_bp == input.reduction_threshold_bp,
        r.fired == (r.signal_bp >= r.threshold_bp),
        r.notes@ == "Dual model reduces compressed size from "@ + decimal_text(input.bio_only_compressed_size as nat)
            + " to "@ + decimal_text(input.dual_compressed_size as nat) + " ("@ + decimal_text(r.signal_bp as nat)
            + " bp)"@,
{
    let reduction = input.bio_only_compressed_size.saturating_sub(input.dual_compressed_size);
    let reduction_bp = share(reduction, input.bio_only_compressed_size);
    let a = concat("Dual model reduces compressed size from ", decimal_string(input.bio_only_compressed_size).as_str());
    let b = concat(a.as_str(), " to ");
    let c = concat(b.as_str(), decimal_string(input.dual_compressed_size).as_str());
    let d = concat(c.as_str(), " (");
    let e = concat(d.as_str(), decimal_string(reduction_bp).as_str());
    let notes = concat(e.as_str(), " bp)");
    InstrumentResult::new("Compression", reduction_bp, input.reduction_threshold_bp, notes.as_str())
}

/// Instrument 6 input.
pub struct MontgomeryShadowInput {
    /// `(r₁₁, r₁₃)` pairs with a non-trivial shadow signature.
    pub nontrivial_shadow_count: u64,
    pub total_pairs: u64,
    pub density_threshold_bp: u64,
}

/// Instrument 6: density of non-trivial Montgomery shadows.
pub fn montgomery_shadow(input: MontgomeryShadowInput) -> (r: InstrumentResult)
    requires
        input.nontrivial_shadow_count * 10_000 <= u64::MAX,
    ensures
        r.name == "Montgomery-Shadow",
        r.signal_bp == share_bp(input.nontrivial_shadow_count, input.total_pairs),
        r.threshold_bp == input.density_threshold_bp,
        r.fired == (r.signal_bp >= r.threshold_bp),
        r.notes@ == decimal_text(input.nontrivial_shadow_count as nat) + "/"@ + decimal_text(input.total_pairs as nat)
            + " (r_11, r_13) pairs show nontrivial shadow"@,
{
    let density_bp = share(input.nontrivial_shadow_count, input.total_pairs);
    let a = concat(decimal_string(input.nontrivial_shadow_count).as_str(), "/");
    let b = concat(a.as_str(), decimal_string(input.total_pairs).as_str());
    let notes = concat(b.as_str(), " (r_11, r_13) pairs show nontrivial shadow");
    InstrumentResult::new("Montgomery-Shadow", density_bp, input.density_threshold_bp, notes.as_str())
}

/// All instrument inputs.
pub struct H4Inputs {
    pub necessity: NecessitySurplusInput,
    pub cross_ref: CrossReferenceInput,
    pub info_content: InformationContentInput,
    pub config_match: ConfigurationMatchInput,
    pub compression: CompressionResistanceInput,
    pub montgomery: MontgomeryShadowInput,
}

/// Runs the six instruments in order and counts the fired ones.
pub fn run_h4_suite(inputs: H4Inputs) -> (r: H4Report)
    requires
        inputs.cross_ref.anchor_matches * 10_000 <= u64::MAX,
        inputs.config_match.matched_signatures * 10_000 <= u64::MAX,
        inputs.compression.bio_only_compressed_size * 10_000 <= u64::MAX,
        inputs.montgomery.nontrivial_shadow_count * 10_000 <= u64::MAX,
    ensures
        r.instruments@.len() == 6,
        r.instruments@[0].signal_bp == sat_sub(
            inputs.necessity.observed_content_bp,
            inputs.necessity.biological_minimum_bp,
        ),
        r.instruments@[1].signal_bp == share_bp(inputs.cross_ref.anchor_matches, inputs.cross_ref.total_numerical_units),
        r.instruments@[2].signal_bp == sat_sub(
            inputs.info_content.goddess_entropy_bp,
            inputs.info_content.baseline_entropy_bp,
        ),
        r.instruments@[3].signal_bp == share_bp(
            inputs.config_match.matched_signatures,
            inputs.config_match.total_examined,
        ),
        r.instruments@[4].signal_bp == share_bp(
            sat_sub(inputs.compression.bio_only_compressed_size, inputs.compression.dual_compressed_size),
            inputs.compression.bio_only_compressed_size,
        ),
        r.instruments@[5].signal_bp == share_bp(
            inputs.montgomery.nontrivial_shadow_count,
            inputs.montgomery.total_pairs,
        ),
        r.instruments@[0].threshold_bp == inputs.necessity.surplus_threshold_bp,
        r.instruments@[1].threshold_bp == inputs.cross_ref.density_threshold_bp,
        r.instruments@[2].threshold_bp == inputs.info_content.excess_threshold_bp,
        r.instruments@[3].threshold_bp == inputs.config_match.match_threshold_bp,
        r.instruments@[4].threshold_bp == inputs.compression.reduction_threshold_bp,
        r.instruments@[5].threshold_bp == inputs.montgomery.density_threshold_bp,
        forall|k: int| 0 <= k < 6 ==> (#[trigger] r.instruments@[k]).fired == (r.instruments@[k].signal_bp >= r.instruments@[k].threshold_bp),
        r.verdict == verdict_spec(fired_count(r.instruments@), 6),
{
    let instruments = vec![
        necessity_surplus(inputs.necessity),
        cross_reference_mapper(inputs.cross_ref),
        information_content(inputs.info_content),
        configuration_match(inputs.config_match),
        compression_resistance(inputs.compression),
        montgomery_shadow(inputs.montgomery),
    ];
    H4Report::from_instruments(instruments)
}

} // verus!
