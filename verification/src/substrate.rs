//! The Safe Basis residue substrate: residue addresses, carry bits and
//! lane activity over the six primes `[2, 3, 5, 7, 11, 13]`, together
//! with the astronomical and calendrical periods the codex records.

use vstd::prelude::*;

verus! {

/// The six Safe Basis primes, in lane order.
pub const SAFE_BASIS: [u64; 6] = [2, 3, 5, 7, 11, 13];

/// Product of the Safe Basis: `2·3·5·7·11·13`.
pub const M_SAFE: u64 = 30_030;

/// The Maya coprime core lanes `[4, 3, 5, 13]`.
pub const MAYA_COPRIME_CORE: [u64; 4] = [4, 3, 5, 13];

/// Tzolk'in cycle.
pub const TZOLKIN: u64 = 260;
/// Haab cycle.
pub const HAAB: u64 = 365;
/// Calendar Round: `lcm(260, 365)`.
pub const CALENDAR_ROUND: u64 = 18_980;
/// The calendar prime shared by 365 and 584.
pub const CALENDAR_PRIME: u64 = 73;
/// The 819-day count.
pub const COUNT_819: u64 = 819;
/// One Baktun.
pub const BAKTUN: u64 = 144_000;
/// The 13-Baktun Long Count.
pub const LONG_COUNT_13_BAKTUN: u64 = 1_872_000;
/// Dresden eclipse table length.
pub const ECLIPSE_TABLE_DAYS: u64 = 11_960;
/// Eclipse-table correction term.
pub const ECLIPSE_CORRECTION: u64 = 93;
/// The 33-year epoch: eclipse table plus correction.
pub const EPOCH_33_YEAR: u64 = 12_053;
/// Near eclipse half-year (5 lunations).
pub const ECLIPSE_NEAR: u64 = 148;
/// Far eclipse half-year (6 lunations).
pub const ECLIPSE_FAR: u64 = 177;
/// Mercury synodic period.
pub const MERCURY_SYNODIC: u64 = 116;
/// Venus synodic period.
pub const VENUS_SYNODIC: u64 = 584;
/// Mars synodic period.
pub const MARS_SYNODIC: u64 = 780;
/// Jupiter synodic period.
pub const JUPITER_SYNODIC: u64 = 399;
/// Saturn synodic period.
pub const SATURN_SYNODIC: u64 = 378;
/// `lcm(584, 365)`.
pub const VENUS_HAAB_LCM: u64 = 2_920;
/// The four Venus phases of one synodic period.
pub const VENUS_PHASES: [u64; 4] = [236, 90, 250, 8];
/// The Ramanujan S_R primes.
pub const RAMANUJAN_S_R: [u64; 3] = [5, 7, 11];

/// The Safe Basis as a sequence.
pub open spec fn safe_basis() -> Seq<u64> {
    seq![2u64, 3u64, 5u64, 7u64, 11u64, 13u64]
}

/// The residue address of `x`: its residue modulo each Safe Basis prime.
pub open spec fn cram_spec(x: u64) -> Seq<u64> {
    seq![x % 2, x % 3, x % 5, x % 7, x % 11, x % 13]
}

/// Carry bit of a residue: 1 when the lane is active (non-zero residue).
pub open spec fn carry_of(r: u64) -> u8 {
    if r != 0 { 1u8 } else { 0u8 }
}

/// The carry bits of `x`, one per Safe Basis lane.
pub open spec fn carry_spec(x: u64) -> Seq<u8> {
    cram_spec(x).map_values(|r: u64| carry_of(r))
}

/// The byte packing carry bit `i` at bit position `i`.
pub open spec fn pack_spec(bits: Seq<u8>) -> int {
    (if bits[0] != 0 { 1int } else { 0 }) + (if bits[1] != 0 { 2int } else { 0 })
        + (if bits[2] != 0 { 4int } else { 0 }) + (if bits[3] != 0 { 8int } else { 0 })
        + (if bits[4] != 0 { 16int } else { 0 }) + (if bits[5] != 0 { 32int } else { 0 })
}

/// The Safe Basis primes among the first `n` lanes whose residue of `x` is
/// non-zero (`active == true`) or zero (`active == false`), in lane order.
pub open spec fn lanes_where(x: u64, active: bool, n: nat) -> Seq<u64>
    decreases n,
{
    if n == 0 {
        seq![]
    } else {
        let prev = lanes_where(x, active, (n - 1) as nat);
        let p = safe_basis()[n - 1];
        if (x % p != 0) == active {
            prev.push(p)
        } else {
            prev
        }
    }
}

/// Primes of the Safe Basis that do not divide `x`.
pub open spec fn active_spec(x: u64) -> Seq<u64> {
    lanes_where(x, true, 6)
}

/// Primes of the Safe Basis that divide `x`.
pub open spec fn nullified_spec(x: u64) -> Seq<u64> {
    lanes_where(x, false, 6)
}

/// Residue address of `x` over the Safe Basis.
pub fn cram_address(x: u64) -> (addr: [u64; 6])
    ensures
        addr@ == cram_spec(x),
{
    let addr = [x % 2, x % 3, x % 5, x % 7, x % 11, x % 13];
    assert(addr@ =~= cram_spec(x));
    addr
}

/// Carry bits of `x`: lane `i` is 1 exactly when `SAFE_BASIS[i]` does not divide `x`.
pub fn carry_bits(x: u64) -> (bits: [u8; 6])
    ensures
        bits@ == carry_spec(x),
{
    let a = cram_address(x);
    let bits = [
        if a[0] != 0 { 1u8 } else { 0u8 },
        if a[1] != 0 { 1u8 } else { 0u8 },
        if a[2] != 0 { 1u8 } else { 0u8 },
        if a[3] != 0 { 1u8 } else { 0u8 },
        if a[4] != 0 { 1u8 } else { 0u8 },
        if a[5] != 0 { 1u8 } else { 0u8 },
    ];
    assert(bits@ =~= carry_spec(x));
    bits
}

/// Packs six carry bits into one byte, lane `i` at bit `i`.
pub fn pack_carry_bits(bits: &[u8; 6]) -> (packed: u8)
    ensures
        packed as int == pack_spec(bits@),
        packed < 64,
{
    let mut p: u8 = 0;
    if bits[0] != 0 { p = p + 1; }
    if bits[1] != 0 { p = p + 2; }
    if bits[2] != 0 { p = p + 4; }
    if bits[3] != 0 { p = p + 8; }
    if bits[4] != 0 { p = p + 16; }
    if bits[5] != 0 { p = p + 32; }
    p
}

fn lanes_matching(x: u64, active: bool) -> (lanes: Vec<u64>)
    ensures
        lanes@ == lanes_where(x, active, 6),
{
    let mut lanes: Vec<u64> = Vec::new();
    let mut i: usize = 0;
    while i < 6
        invariant
            0 <= i <= 6,
            lanes@ == lanes_where(x, active, i as nat),
        decreases 6 - i,
    {
        let p = SAFE_BASIS[i];
        assert(p == safe_basis()[i as int]);
        if (x % p != 0) == active {
            lanes.push(p);
        }
        i = i + 1;
    }
    lanes
}

/// Safe Basis primes that do not divide `x`, in lane order.
pub fn active_lanes(x: u64) -> (lanes: Vec<u64>)
    ensures
        lanes@ == active_spec(x),
{
    lanes_matching(x, true)
}

/// Safe Basis primes that divide `x`, in lane order.
pub fn nullified_lanes(x: u64) -> (lanes: Vec<u64>)
    ensures
        lanes@ == nullified_spec(x),
{
    lanes_matching(x, false)
}

} // verus!
