//! Append-only record of every pulse ever consumed.
//!
//! The ledger is keyed by `(chain_index, pulse_index)`; a key is never
//! written twice, and records are never updated or deleted.  Its most
//! recent record, under the ordering chain index first and pulse index
//! second, tells whether the beacon has advanced.

use vstd::prelude::*;
use crate::errors::SamplerError;
use crate::pulse::PulseRecord;

verus! {

/// Key order on pulse records: by chain index, then by pulse index.
pub open spec fn key_le(a: PulseRecord, b: PulseRecord) -> bool {
    a.chain_index < b.chain_index || (a.chain_index == b.chain_index && a.pulse_index
        <= b.pulse_index)
}

/// Whether some record in the sequence carries the given key.
pub open spec fn has_key(s: Seq<PulseRecord>, chain_index: i32, pulse_index: i64) -> bool {
    exists|i: int|
        0 <= i < s.len() && (#[trigger] s[i]).chain_index == chain_index && s[i].pulse_index
            == pulse_index
}

/// Whether the greatest record of the sequence carries the given key.
pub open spec fn latest_matches(s: Seq<PulseRecord>, chain_index: i32, pulse_index: i64) -> bool {
    exists|i: int|
        0 <= i < s.len() && (#[trigger] s[i]).chain_index == chain_index && s[i].pulse_index
            == pulse_index && (forall|j: int| 0 <= j < s.len() ==> key_le(#[trigger] s[j], s[i]))
}

/// The durable, append-only pulse ledger.
pub struct PulseLedger {
    records: Vec<PulseRecord>,
}

impl PulseLedger {
    /// The recorded pulses, in insertion order.
    pub closed spec fn records(self) -> Seq<PulseRecord> {
        self.records@
    }

    /// Keys are unique and every record is well formed.
    pub closed spec fn wf(self) -> bool {
        &&& forall|i: int, j: int|
            0 <= i < j < self.records@.len() ==> !((#[trigger] self.records@[i]).chain_index == (
            #[trigger] self.records@[j]).chain_index && self.records@[i].pulse_index
                == self.records@[j].pulse_index)
        &&& forall|i: int| 0 <= i < self.records@.len() ==> (#[trigger] self.records@[i]).wf()
    }

    /// An empty ledger.
    pub fn new() -> (ledger: PulseLedger)
        ensures
            ledger.wf(),
            ledger.records().len() == 0,
    {
        PulseLedger { records: Vec::new() }
    }

    /// How many pulses have been recorded.
    pub fn len(&self) -> (n: usize)
        ensures
            n == self.records().len(),
    {
        self.records.len()
    }

    /// The most recent record under the key order, or nothing if the
    /// ledger is empty.
    pub fn latest(&self) -> (r: Option<&PulseRecord>)
        requires
            self.wf(),
        ensures
            r is Some <==> self.records().len() > 0,
            r matches Some(rec) ==> latest_matches(self.records(), rec.chain_index,
                rec.pulse_index),
            r matches Some(rec) ==> exists|i: int|
                0 <= i < self.records().len() && (#[trigger] self.records()[i]) == *rec,
    {
        match self.latest_key() {
            None => None,
            Some(key) => {
                let mut i: usize = 0;
                while i < self.records.len()
                    invariant
                        self.wf(),
                        i <= self.records@.len(),
                        latest_matches(self.records(), key.0, key.1),
                        forall|j: int|
                            0 <= j < i ==> !((#[trigger] self.records@[j]).chain_index == key.0
                                && self.records@[j].pulse_index == key.1),
                    decreases self.records@.len() - i,
                {
                    if self.records[i].chain_index == key.0 && self.records[i].pulse_index
                        == key.1 {
                        proof {
                            assert(self.records()[i as int] == self.records@[i as int]);
                        }
                        return Some(&self.records[i]);
                    }
                    i = i + 1;
                }
                // The key returned by the scan is carried by some record.
                proof {
                    assert(false);
                }
                None
            },
        }
    }

    /// The key of the most recent record under the key order, or nothing if
    /// the ledger is empty.
    pub fn latest_key(&self) -> (r: Option<(i32, i64)>)
        requires
            self.wf(),
        ensures
            r is Some <==> self.records().len() > 0,
            r matches Some(key) ==> latest_matches(self.records(), key.0, key.1),
    {
        if self.records.len() == 0 {
            return None;
        }
        let mut best: usize = 0;
        let mut i: usize = 1;
        while i < self.records.len()
            invariant
                self.records@.len() > 0,
                best < i <= self.records@.len(),
                forall|j: int|
                    0 <= j < i ==> key_le(#[trigger] self.records@[j], self.records@[best as int]),
            decreases self.records@.len() - i,
        {
            let better = if self.records[i].chain_index > self.records[best].chain_index {
                true
            } else if self.records[i].chain_index == self.records[best].chain_index {
                self.records[i].pulse_index > self.records[best].pulse_index
            } else {
                false
            };
            if better {
                best = i;
            }
            i = i + 1;
        }
        Some((self.records[best].chain_index, self.records[best].pulse_index))
    }

    /// Record a pulse.  Fails with `DuplicateKey`, leaving the ledger
    /// unchanged, exactly when the pulse's key was already recorded; this is
    /// how a race between concurrent fetch attempts is detected.
    pub fn append(&mut self, record: PulseRecord) -> (r: Result<(), SamplerError>)
        requires
            old(self).wf(),
            record.wf(),
        ensures
            final(self).wf(),
            r is Ok <==> !has_key(old(self).records(), record.chain_index, record.pulse_index),
            r is Ok ==> final(self).records() == old(self).records().push(record),
            r matches Err(e) ==> e == SamplerError::DuplicateKey && final(self).records() == old(
                self,
            ).records(),
    {
        let mut i: usize = 0;
        while i < self.records.len()
            invariant
                old(self).wf(),
                record.wf(),
                self.records@ == old(self).records@,
                i <= self.records@.len(),
                forall|j: int|
                    0 <= j < i ==> !((#[trigger] self.records@[j]).chain_index
                        == record.chain_index && self.records@[j].pulse_index
                        == record.pulse_index),
            decreases self.records@.len() - i,
        {
            if self.records[i].chain_index == record.chain_index && self.records[i].pulse_index
                == record.pulse_index {
                return Err(SamplerError::DuplicateKey);
            }
            i = i + 1;
        }
        self.records.push(record);
        Ok(())
    }
}

} // verus!
