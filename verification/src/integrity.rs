//! The two integrity tests: the check of the preceding boot stage against
//! known digests, and the recomputation probe that is run along every
//! request. The driver draws the random numbers and waits; this module
//! says how long to wait, what to compute, and how to judge it.

use vstd::prelude::*;
use crate::crypto::{blake3_hash, hash_bytes};

verus! {

/// Shortest wait of a probe, in microseconds.
pub const JITTER_BASE: u32 = 5;

/// Wait after a failed probe, in milliseconds.
pub const PENALTY_MS: u32 = 4500;

/// The square of `v` in 32 bits.
pub open spec fn spec_square(v: u32) -> u32 {
    ((v as int * v as int) % 0x1_0000_0000) as u32
}

/// The wait of a probe for a random draw: 5 microseconds and the low
/// eight bits of the draw.
pub open spec fn spec_jitter(noise: u32) -> u32 {
    (JITTER_BASE + (noise & 255)) as u32
}

/// How long a probe waits between its two computations, in microseconds,
/// for the random number `noise`.
pub fn jitter(noise: u32) -> (micros: u32)
    ensures
        micros == spec_jitter(noise),
        5 <= micros <= 260,
{
    let low = noise & 255;
    assert(low <= 255) by (bit_vector)
        requires
            low == noise & 255,
    ;
    JITTER_BASE + low
}

/// The computation that a probe makes after its wait: the square of the
/// drawn value, in 32 bits.
pub fn test_2(scan: u32) -> (product: u32)
    ensures
        product == spec_square(scan),
{
    scan.wrapping_mul(scan)
}

/// Judges a probe: whether `output`, computed after the wait, is the
/// square of the drawn value.
pub fn test(test_val: u32, output: u32) -> (sound: bool)
    ensures
        sound == (output == spec_square(test_val)),
{
    test_val.wrapping_mul(test_val) == output
}

/// Whether the preceding boot stage is one of the two known builds: its
/// BLAKE3 digest equals one of the two digests.
pub fn boot_check(stage: &[u8], first: &[u8; 32], second: &[u8; 32]) -> (known: bool)
    ensures
        known == (blake3_hash(stage@) == first@ || blake3_hash(stage@) == second@),
{
    let digest = hash_bytes(stage);
    same_digest(&digest, first) || same_digest(&digest, second)
}

/// Whether two digests are equal.
fn same_digest(a: &[u8; 32], b: &[u8; 32]) -> (same: bool)
    ensures
        same == (a@ == b@),
{
    let mut i: usize = 0;
    while i < 32
        invariant
            i <= 32,
            forall|j: int| 0 <= j < i ==> a@[j] == b@[j],
        decreases 32 - i,
    {
        if a[i] != b[i] {
            return false;
        }
        i += 1;
    }
    assert(a@ =~= b@);
    true
}

} // verus!
