//! Configuration atlas of the Dresden Codex calendars over the Safe Basis
//! residue substrate `{2, 3, 5, 7, 11, 13}`.

pub mod adelic_index;
pub mod atlas;
pub mod codex_decoder;
pub mod codex_topology;
pub mod cross_validation;
pub mod dkam_filter;
pub mod dkam_tier;
pub mod dpm_prime;
pub mod engines;
pub mod events;
pub mod extended_goddess;
pub mod gini_stratification;
pub mod goddess_extension;
pub mod factor;
pub mod generator_catalog;
pub mod h1_generator;
pub mod h1_stage8;
pub mod h3_extended;
pub mod h3_mi;
pub mod h4_instruments;
pub mod h4_montgomery;
pub mod h4_non_visual;
pub mod h4_visual;
pub mod h5_katun;
pub mod h5_level;
pub mod substrate;
pub mod text;

use vstd::prelude::*;

verus! {

/// The navigation ("shadow") prime of the Safe Basis.
pub const SHADOW_PRIME: u64 = 11;

/// The Transport Core: the Safe Basis primes that carry transport.
pub const TRANSPORT_CORE: [u64; 4] = [3, 7, 11, 13];

/// Resonance order of the Transport Core.
pub const RHO_TRANSPORT: u64 = 3;

/// Largest operator degree admitted by the DKAM filter.
pub const DKAM_MAX_DEGREE: u64 = 2;

/// Number of Goddess-section instruments that must fire for the
/// configuration hypothesis to count as supported (3 of 6).
pub const H4_SUPPORT_THRESHOLD: usize = 3;

} // verus!
