//! The lazy source of fresh entropy chunks.
//!
//! Each pull step takes the pulse the beacon currently publishes, checks it
//! against the ledger's most recent record, and either records it and yields
//! its 64 bytes of entropy, or reports why no fresh entropy is available.
//! Each step is independent: a failed pull mutates nothing.

use vstd::prelude::*;
use crate::errors::SamplerError;
use crate::ledger::PulseLedger;
use crate::ledger::key_le;
use crate::ledger::has_key;
use crate::ledger::latest_matches;
use crate::pulse::PulseRecord;

verus! {

/// At most one key can be the greatest of the ledger.
pub proof fn lemma_latest_unique(s: Seq<PulseRecord>, c1: i32, p1: i64, c2: i32, p2: i64)
    requires
        latest_matches(s, c1, p1),
        latest_matches(s, c2, p2),
    ensures
        c1 == c2 && p1 == p2,
{
    let i = choose|i: int|
        0 <= i < s.len() && (#[trigger] s[i]).chain_index == c1 && s[i].pulse_index == p1 && (
        forall|j: int| 0 <= j < s.len() ==> key_le(#[trigger] s[j], s[i]));
    let m = choose|m: int|
        0 <= m < s.len() && (#[trigger] s[m]).chain_index == c2 && s[m].pulse_index == p2 && (
        forall|j: int| 0 <= j < s.len() ==> key_le(#[trigger] s[j], s[m]));
    assert(key_le(s[i], s[m]));
    assert(key_le(s[m], s[i]));
}

/// A pull-based sequence of fresh 64-byte entropy chunks, one accepted
/// beacon pulse at a time, backed by the ledger that rules out replays.
pub struct EntropyStream {
    ledger: PulseLedger,
}

impl EntropyStream {
    /// The pulses recorded so far, in insertion order.
    pub closed spec fn records(self) -> Seq<PulseRecord> {
        self.ledger.records()
    }

    pub closed spec fn wf(self) -> bool {
        self.ledger.wf()
    }

    /// A stream over an empty ledger.
    pub fn new() -> (stream: EntropyStream)
        ensures
            stream.wf(),
            stream.records().len() == 0,
    {
        EntropyStream { ledger: PulseLedger::new() }
    }

    /// A stream over a ledger read back from durable storage, so that the
    /// pulses an earlier run consumed stay unrepeatable.
    pub fn from_ledger(ledger: PulseLedger) -> (stream: EntropyStream)
        requires
            ledger.wf(),
        ensures
            stream.wf(),
            stream.records() == ledger.records(),
    {
        EntropyStream { ledger }
    }

    /// How many pulses the ledger holds.
    pub fn ledger_len(&self) -> (n: usize)
        ensures
            n == self.records().len(),
    {
        self.ledger.len()
    }

    /// One pull step, given the pulse the beacon currently publishes.
    ///
    /// If that pulse is exactly the ledger's most recent record, the beacon
    /// has not advanced: the step yields `NoNewPulse` and records nothing.
    /// If some older record already carries the pulse's key, a concurrent
    /// racer recorded it first: the step yields `DuplicateKey` and records
    /// nothing.  Otherwise the pulse is recorded and its entropy returned.
    pub fn pull(&mut self, fetched: PulseRecord) -> (r: Result<Vec<u8>, SamplerError>)
        requires
            old(self).wf(),
            fetched.wf(),
        ensures
            final(self).wf(),
            latest_matches(old(self).records(), fetched.chain_index, fetched.pulse_index) ==> (
            r matches Err(e) && e == SamplerError::NoNewPulse && final(self).records() == old(
                self,
            ).records()),
            !latest_matches(old(self).records(), fetched.chain_index, fetched.pulse_index)
                && has_key(old(self).records(), fetched.chain_index, fetched.pulse_index) ==> (
            r matches Err(e) && e == SamplerError::DuplicateKey && final(self).records() == old(
                self,
            ).records()),
            !has_key(old(self).records(), fetched.chain_index, fetched.pulse_index) ==> (
            r matches Ok(chunk) && chunk@ == fetched.output_value@ && final(self).records()
                == old(self).records().push(fetched)),
    {
        match self.ledger.latest_key() {
            Some(key) => {
                if key.0 == fetched.chain_index && key.1 == fetched.pulse_index {
                    return Err(SamplerError::NoNewPulse);
                }
                proof {
                    if latest_matches(
                        self.ledger.records(),
                        fetched.chain_index,
                        fetched.pulse_index,
                    ) {
                        lemma_latest_unique(
                            self.ledger.records(),
                            key.0,
                            key.1,
                            fetched.chain_index,
                            fetched.pulse_index,
                        );
                    }
                }
            },
            None => {},
        }
        let mut chunk: Vec<u8> = Vec::new();
        let mut i: usize = 0;
        while i < 64
            invariant
                fetched.wf(),
                i <= 64,
                chunk@ == fetched.output_value@.take(i as int),
            decreases 64 - i,
        {
            chunk.push(fetched.output_value[i]);
            i = i + 1;
        }
        proof {
            assert(chunk@ =~= fetched.output_value@);
        }
        match self.ledger.append(fetched) {
            Ok(_) => Ok(chunk),
            Err(e) => Err(e),
        }
    }
}

} // verus!
