//! Error taxonomy of the sampling core.
//!
//! Every failure is surfaced to the caller of the draw that triggered it;
//! none is swallowed inside the core.

use vstd::prelude::*;

verus! {

/// Why a draw, a pull, or a ledger write failed.
#[derive(Clone, Copy, Debug, PartialEq, Eq, Structural)]
pub enum SamplerError {
    /// Transport failure while reaching the beacon.  Not retried internally.
    NetworkError,
    /// Malformed beacon payload: bad JSON shape, timestamp, or hex encoding.
    ParseError,
    /// The beacon has not advanced since the last consumed pulse.  A
    /// transient condition: try again shortly.
    NoNewPulse,
    /// A concurrent racer already recorded the same pulse.  The losing
    /// attempt leaves the pool unchanged, so the caller may retry.
    DuplicateKey,
    /// The ledger could not be read or written.
    DatabaseError,
}

} // verus!
