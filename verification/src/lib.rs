//! Uniform random integers drawn from a public randomness beacon.
//!
//! A beacon publishes fixed-width entropy pulses; this crate turns them into
//! unbiased integers over caller-chosen inclusive ranges.  A ledger records
//! every pulse ever consumed so that none is replayed, a fixed-capacity bit
//! pool buffers partially consumed entropy, and a rejection sampler maps bit
//! groups onto arbitrary ranges without bias.

use vstd::prelude::*;

pub mod bits;
pub mod bitpool;
pub mod dice;
pub mod errors;
pub mod ledger;
pub mod pulse;
pub mod sampler;
pub mod stream;

verus! {

/// Number of bytes of entropy in one beacon pulse.
pub const PULSE_BYTES: usize = 64;

/// Number of bits of entropy in one beacon pulse.
pub const PULSE_BITS: usize = 512;

/// Capacity of the bit pool in bits: two pulses.
pub const POOL_BITS: usize = 1024;

} // verus!
