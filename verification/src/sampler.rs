//! Rejection sampling over the bit pool.
//!
//! A draw computes the minimal bit-width `k` covering the range, pops `k`
//! bits at a time from the pool, packs them most-significant-bit first, and
//! accepts the first packed value that falls inside the range.  Rejected
//! groups are discarded, which keeps the accepted value exactly uniform.

use vstd::prelude::*;
use vstd::arithmetic::power2::pow2;
use vstd::arithmetic::power2::lemma_pow2_unfold;
use vstd::arithmetic::power2::lemma_pow2_strictly_increases;
use vstd::arithmetic::power2::lemma2_to64;
use vstd::arithmetic::div_mod::lemma_fundamental_div_mod;
use crate::bits::bits_value;
use crate::bits::bits_of_bytes;
use crate::bitpool::BitPool;
use crate::errors::SamplerError;
use crate::ledger::PulseLedger;
use crate::ledger::has_key;
use crate::ledger::latest_matches;
use crate::pulse::PulseRecord;
use crate::stream::EntropyStream;

verus! {

/// `pow2` is monotone.
pub proof fn lemma_pow2_le(a: nat, b: nat)
    requires
        a <= b,
    ensures
        pow2(a) <= pow2(b),
{
    if a < b {
        lemma_pow2_strictly_increases(a, b);
    }
}

/// The minimal number of bits whose values cover a range of `n` outcomes:
/// the ceiling of the base-two logarithm of `n`.
pub open spec fn sample_width(n: nat) -> nat
    recommends
        2 <= n,
    decreases n,
{
    if n <= 2 {
        1
    } else {
        1 + sample_width(((n + 1) / 2) as nat)
    }
}

/// `sample_width(n)` is characterised by `pow2(k - 1) < n <= pow2(k)`.
pub proof fn lemma_sample_width(n: nat)
    requires
        2 <= n,
    ensures
        1 <= sample_width(n),
        pow2((sample_width(n) - 1) as nat) < n,
        n <= pow2(sample_width(n)),
    decreases n,
{
    if n <= 2 {
        lemma2_to64();
    } else {
        let m = ((n + 1) / 2) as nat;
        lemma_fundamental_div_mod((n + 1) as int, 2);
        assert(2 <= m < n);
        lemma_sample_width(m);
        let w = sample_width(m);
        lemma_pow2_unfold(w);
        lemma_pow2_unfold(w + 1);
    }
}

/// No other width satisfies the characterisation.
pub proof fn lemma_sample_width_unique(n: nat, k: nat)
    requires
        2 <= n,
        1 <= k,
        pow2((k - 1) as nat) < n,
        n <= pow2(k),
    ensures
        k == sample_width(n),
{
    let w = sample_width(n);
    lemma_sample_width(n);
    if k < w {
        lemma_pow2_le(k, (w - 1) as nat);
    }
    if w < k {
        lemma_pow2_le(w, (k - 1) as nat);
    }
}

/// Outcome of the rejection process on a given bit stream: the accepted
/// value, if any group was accepted before the stream ran out, and the
/// number of bits consumed (rejected groups included).
pub open spec fn rejection(bits: Seq<bool>, k: nat, n: nat) -> (Option<nat>, nat)
    decreases bits.len(),
{
    if k == 0 || bits.len() < k {
        (None, 0)
    } else {
        let v = bits_value(bits.take(k as int));
        if v < n {
            (Some(v), k)
        } else {
            let rest = rejection(bits.skip(k as int), k, n);
            (rest.0, (k + rest.1) as nat)
        }
    }
}

/// Any value the rejection process accepts lies below the range size.
pub proof fn lemma_rejection_in_range(bits: Seq<bool>, k: nat, n: nat)
    ensures
        rejection(bits, k, n).0 matches Some(v) ==> v < n,
    decreases bits.len(),
{
    if k != 0 && bits.len() >= k {
        if bits_value(bits.take(k as int)) >= n {
            lemma_rejection_in_range(bits.skip(k as int), k, n);
        }
    }
}

/// Minimal bit-width for a range of `n` outcomes, computed by doubling.
pub fn bit_width(n: u64) -> (k: usize)
    requires
        2 <= n <= 0x1_0000_0000,
    ensures
        1 <= k <= 32,
        k == sample_width(n as nat),
        pow2((k - 1) as nat) < n <= pow2(k as nat),
{
    let mut k: usize = 0;
    let mut p: u64 = 1;
    proof {
        lemma2_to64();
    }
    while p < n
        invariant
            2 <= n <= 0x1_0000_0000,
            k <= 32,
            p == pow2(k as nat),
            p <= 0x1_0000_0000,
            k > 0 ==> pow2((k - 1) as nat) < n,
        decreases 2 * n - p,
    {
        proof {
            lemma2_to64();
            if k >= 32 {
                lemma_pow2_le(32, k as nat);
            }
            assert(k < 32);
            lemma_pow2_unfold((k + 1) as nat);
            lemma_pow2_le((k + 1) as nat, 32);
        }
        p = p * 2;
        k = k + 1;
    }
    proof {
        if k == 0 {
            assert(p == 1);
        }
        lemma_sample_width_unique(n as nat, k as nat);
    }
    k
}

/// Pack a group of bits into an integer, most significant popped bit first,
/// right-aligned.
pub fn pack_bits(bits: &Vec<bool>) -> (num: u64)
    requires
        bits@.len() <= 32,
    ensures
        num == bits_value(bits@),
        num < pow2(bits@.len()),
{
    let mut num: u64 = 0;
    let mut j: usize = 0;
    proof {
        lemma2_to64();
    }
    while j < bits.len()
        invariant
            j <= bits@.len() <= 32,
            num == bits_value(bits@.take(j as int)),
            num < pow2(j as nat),
        decreases bits@.len() - j,
    {
        proof {
            lemma2_to64();
            lemma_pow2_le(j as nat, 31);
            lemma_pow2_unfold((j + 1) as nat);
            assert(bits@.take(j + 1).drop_last() =~= bits@.take(j as int));
            assert(bits@.take(j + 1).last() == bits@[j as int]);
        }
        let b = bits[j];
        num = num * 2 + (if b {
            1
        } else {
            0
        });
        j = j + 1;
    }
    proof {
        assert(bits@.take(bits@.len() as int) =~= bits@);
    }
    num
}

/// One attempt to draw a value from the pool alone.
#[derive(Debug, PartialEq, Eq, Structural)]
pub enum DrawOutcome {
    /// A value was accepted; it lies in the requested range.
    Value(i64),
    /// Fewer unread bits remain than one group needs; the pool must be
    /// refilled with a fresh pulse before the draw can go on.
    NeedBits,
}

/// Run the rejection loop against the bits already buffered in the pool.
///
/// A degenerate range (`to <= from`) yields `from` at once and leaves the
/// pool untouched.  Otherwise groups of `sample_width` bits are consumed
/// until one is accepted or fewer than a group's worth remain; the outcome
/// and the bits consumed are exactly those of the `rejection` process on the
/// buffered stream.  Groups are packed right-aligned into 32 bits, which is
/// where the bound on the range width comes from.
pub fn draw(pool: &mut BitPool, from: i64, to: i64) -> (r: DrawOutcome)
    requires
        old(pool).wf(),
        from < to ==> to - from + 1 <= 0x1_0000_0000,
    ensures
        final(pool).wf(),
        final(pool).spec_bytes() == old(pool).spec_bytes(),
        final(pool).spec_start_at_zero() == old(pool).spec_start_at_zero(),
        to <= from ==> r == DrawOutcome::Value(from) && final(pool).unread() == old(
            pool,
        ).unread(),
        from < to ==> ({
            let n = (to - from + 1) as nat;
            let k = sample_width(n);
            let rej = rejection(old(pool).unread(), k, n);
            &&& final(pool).unread() == old(pool).unread().skip(rej.1 as int)
            &&& (match rej.0 {
                Some(v) => r == DrawOutcome::Value((from + v) as i64) && from + v <= to,
                None => r == DrawOutcome::NeedBits && final(pool).unread().len() < k,
            })
        }),
{
    if to <= from {
        return DrawOutcome::Value(from);
    }
    let n: u64 = ((to - from) as u64) + 1;
    let k = bit_width(n);
    let ghost orig = old(pool).unread();
    let ghost mut consumed: nat = 0;
    loop
        invariant
            pool.wf(),
            pool.spec_bytes() == old(pool).spec_bytes(),
            pool.spec_start_at_zero() == old(pool).spec_start_at_zero(),
            orig == old(pool).unread(),
            from < to,
            n == to - from + 1,
            2 <= n <= 0x1_0000_0000,
            1 <= k <= 32,
            k == sample_width(n as nat),
            consumed + pool.unread().len() == orig.len(),
            pool.unread() == orig.skip(consumed as int),
            rejection(orig, k as nat, n as nat).0 == rejection(
                pool.unread(),
                k as nat,
                n as nat,
            ).0,
            rejection(orig, k as nat, n as nat).1 == consumed + rejection(
                pool.unread(),
                k as nat,
                n as nat,
            ).1,
        ensures
            pool.wf(),
            pool.spec_bytes() == old(pool).spec_bytes(),
            pool.spec_start_at_zero() == old(pool).spec_start_at_zero(),
            pool.unread().len() < k,
            pool.unread() == orig.skip(rejection(orig, k as nat, n as nat).1 as int),
            rejection(orig, k as nat, n as nat).0 is None,
        decreases pool.unread().len(),
    {
        if pool.len() < k {
            break;
        }
        let ghost before = pool.unread();
        let bits = pool.pop_front(k);
        let num = pack_bits(&bits);
        proof {
            assert(bits@ == before.take(k as int));
            assert(num == bits_value(before.take(k as int)));
        }
        if num < n {
            proof {
                assert(rejection(before, k as nat, n as nat) == (
                    Some(num as nat),
                    k as nat,
                ));
                assert(pool.unread() =~= orig.skip((consumed + k) as int));
            }
            return DrawOutcome::Value(from + (num as i64));
        }
        proof {
            assert(rejection(before, k as nat, n as nat) == (
                rejection(before.skip(k as int), k as nat, n as nat).0,
                (k + rejection(before.skip(k as int), k as nat, n as nat).1) as nat,
            ));
            consumed = consumed + k as nat;
            assert(pool.unread() =~= orig.skip(consumed as int));
        }
    }
    DrawOutcome::NeedBits
}

/// What a full draw computes, given the bits already buffered, the ledger's
/// records, and the succession of pulses the beacon will publish: the
/// result, the bits left unread, and the records afterwards.
pub open spec fn rand_run(
    bits: Seq<bool>,
    records: Seq<PulseRecord>,
    pulses: Seq<PulseRecord>,
    from: i64,
    to: i64,
) -> (Result<i64, SamplerError>, Seq<bool>, Seq<PulseRecord>)
    decreases pulses.len(),
{
    if to <= from {
        (Result::<i64, SamplerError>::Ok(from), bits, records)
    } else {
        let n = (to - from + 1) as nat;
        let k = sample_width(n);
        let rej = rejection(bits, k, n);
        let rem = bits.skip(rej.1 as int);
        match rej.0 {
            Some(v) => (Result::<i64, SamplerError>::Ok((from + v) as i64), rem, records),
            None => {
                if pulses.len() == 0 {
                    (Result::<i64, SamplerError>::Err(SamplerError::NoNewPulse), rem, records)
                } else if latest_matches(records, pulses[0].chain_index, pulses[0].pulse_index) {
                    (Result::<i64, SamplerError>::Err(SamplerError::NoNewPulse), rem, records)
                } else if has_key(records, pulses[0].chain_index, pulses[0].pulse_index) {
                    (Result::<i64, SamplerError>::Err(SamplerError::DuplicateKey), rem, records)
                } else {
                    rand_run(
                        rem + bits_of_bytes(pulses[0].output_value@),
                        records.push(pulses[0]),
                        pulses.skip(1),
                        from,
                        to,
                    )
                }
            },
        }
    }
}

/// Whatever entropy the beacon provides, a successful draw lies in range.
pub proof fn lemma_rand_run_in_range(
    bits: Seq<bool>,
    records: Seq<PulseRecord>,
    pulses: Seq<PulseRecord>,
    from: i64,
    to: i64,
)
    ensures
        rand_run(bits, records, pulses, from, to).0 matches Ok(v) ==> (from <= v <= to) || (to
            <= from && v == from),
    decreases pulses.len(),
{
    if to <= from {
    } else {
        let n = (to - from + 1) as nat;
        let k = sample_width(n);
        lemma_rejection_in_range(bits, k, n);
        let rej = rejection(bits, k, n);
        if rej.0 is None && pulses.len() > 0 && !has_key(
            records,
            pulses[0].chain_index,
            pulses[0].pulse_index,
        ) && !latest_matches(records, pulses[0].chain_index, pulses[0].pulse_index) {
            let rem = bits.skip(rej.1 as int);
            lemma_rand_run_in_range(
                rem + bits_of_bytes(pulses[0].output_value@),
                records.push(pulses[0]),
                pulses.skip(1),
                from,
                to,
            );
        }
    }
}

/// The public face of the core: a bit pool fed by an entropy stream, and a
/// draw operation over caller-chosen inclusive ranges.
pub struct Sampler {
    pool: BitPool,
    stream: EntropyStream,
}

impl Sampler {
    /// The unread entropy bits buffered in the pool, oldest first.
    pub closed spec fn pool_bits(self) -> Seq<bool> {
        self.pool.unread()
    }

    /// The pulses recorded in the ledger, in insertion order.
    pub closed spec fn records(self) -> Seq<PulseRecord> {
        self.stream.records()
    }

    pub closed spec fn wf(self) -> bool {
        self.pool.wf() && self.stream.wf()
    }

    /// A sampler with an empty pool over an empty ledger.
    pub fn new() -> (s: Sampler)
        ensures
            s.wf(),
            s.pool_bits().len() == 0,
            s.records().len() == 0,
    {
        Sampler { pool: BitPool::new(), stream: EntropyStream::new() }
    }

    /// A sampler with an empty pool over a ledger read back from durable
    /// storage: buffered bits do not survive a restart, consumed pulses do.
    pub fn with_ledger(ledger: PulseLedger) -> (s: Sampler)
        requires
            ledger.wf(),
        ensures
            s.wf(),
            s.pool_bits().len() == 0,
            s.records() == ledger.records(),
    {
        Sampler { pool: BitPool::new(), stream: EntropyStream::from_ledger(ledger) }
    }

    /// How many unread bits are buffered.
    pub fn pool_len(&self) -> (n: usize)
        ensures
            n == self.pool_bits().len(),
    {
        self.pool.len()
    }

    /// How many pulses the ledger holds.
    pub fn ledger_len(&self) -> (n: usize)
        ensures
            n == self.records().len(),
    {
        self.stream.ledger_len()
    }

    /// One rejection attempt against the buffered bits alone; `NeedBits`
    /// asks the caller to `supply` a freshly fetched pulse and try again.
    pub fn rand_step(&mut self, from: i64, to: i64) -> (r: DrawOutcome)
        requires
            old(self).wf(),
            from < to ==> to - from + 1 <= 0x1_0000_0000,
        ensures
            final(self).wf(),
            final(self).records() == old(self).records(),
            to <= from ==> r == DrawOutcome::Value(from) && final(self).pool_bits() == old(
                self,
            ).pool_bits(),
            from < to ==> ({
                let n = (to - from + 1) as nat;
                let k = sample_width(n);
                let rej = rejection(old(self).pool_bits(), k, n);
                &&& final(self).pool_bits() == old(self).pool_bits().skip(rej.1 as int)
                &&& (match rej.0 {
                    Some(v) => r == DrawOutcome::Value((from + v) as i64) && from + v <= to,
                    None => r == DrawOutcome::NeedBits && final(self).pool_bits().len() < k,
                })
            }),
    {
        draw(&mut self.pool, from, to)
    }

    /// Feed the pulse the beacon currently publishes: one pull step of the
    /// entropy stream, whose fresh bytes, if any, go into the pool.  A
    /// failed pull leaves pool and ledger exactly as they were.
    pub fn supply(&mut self, fetched: PulseRecord) -> (r: Result<(), SamplerError>)
        requires
            old(self).wf(),
            fetched.wf(),
            old(self).pool_bits().len() + 512 <= 1024,
        ensures
            final(self).wf(),
            latest_matches(old(self).records(), fetched.chain_index, fetched.pulse_index) ==> ({
                &&& r matches Err(e) && e == SamplerError::NoNewPulse
                &&& final(self).records() == old(self).records()
                &&& final(self).pool_bits() == old(self).pool_bits()
            }),
            !latest_matches(old(self).records(), fetched.chain_index, fetched.pulse_index)
                && has_key(old(self).records(), fetched.chain_index, fetched.pulse_index) ==> ({
                &&& r matches Err(e) && e == SamplerError::DuplicateKey
                &&& final(self).records() == old(self).records()
                &&& final(self).pool_bits() == old(self).pool_bits()
            }),
            !has_key(old(self).records(), fetched.chain_index, fetched.pulse_index) ==> ({
                &&& r is Ok
                &&& final(self).records() == old(self).records().push(fetched)
                &&& final(self).pool_bits() == old(self).pool_bits() + bits_of_bytes(
                    fetched.output_value@,
                )
            }),
    {
        match self.stream.pull(fetched) {
            Ok(chunk) => {
                self.pool.insert(&chunk);
                Ok(())
            },
            Err(e) => Err(e),
        }
    }

    /// Draw an unbiased integer in `[from, to]`, pulling pulses from the
    /// given succession as the pool runs dry: pulse by pulse, exactly as a
    /// beacon would publish them.  The result, the bits consumed and the
    /// pulses recorded are precisely those of the `rand_run` process; in
    /// particular a degenerate range yields `from` at once, and any
    /// successful draw lies within the range.  A range is limited to
    /// `2^32` outcomes, one packed bit group's worth.
    pub fn rand(&mut self, from: i64, to: i64, pulses: Vec<PulseRecord>) -> (r: Result<
        i64,
        SamplerError,
    >)
        requires
            old(self).wf(),
            from < to ==> to - from + 1 <= 0x1_0000_0000,
            forall|i: int| 0 <= i < pulses@.len() ==> (#[trigger] pulses@[i]).wf(),
        ensures
            final(self).wf(),
            ({
                let run = rand_run(old(self).pool_bits(), old(self).records(), pulses@, from, to);
                &&& r == run.0
                &&& final(self).pool_bits() == run.1
                &&& final(self).records() == run.2
            }),
            to <= from ==> r == Result::<i64, SamplerError>::Ok(from),
            r matches Ok(v) ==> (from <= v <= to) || (to <= from && v == from),
    {
        proof {
            lemma_rand_run_in_range(
                old(self).pool_bits(),
                old(self).records(),
                pulses@,
                from,
                to,
            );
        }
        if to <= from {
            return Ok(from);
        }
        let ghost orig_bits = self.pool_bits();
        let ghost orig_records = self.records();
        let ghost orig_pulses = pulses@;
        let ghost n = (to - from + 1) as nat;
        let ghost k = sample_width(n);
        proof {
            lemma_sample_width(n);
            if k > 32 {
                lemma_pow2_le(32, (k - 1) as nat);
                lemma2_to64();
            }
        }
        let mut queue = pulses;
        loop
            invariant
                self.wf(),
                from < to,
                to - from + 1 <= 0x1_0000_0000,
                n == (to - from + 1) as nat,
                k == sample_width(n),
                1 <= k <= 32,
                orig_bits == old(self).pool_bits(),
                orig_records == old(self).records(),
                orig_pulses == pulses@,
                forall|i: int| 0 <= i < queue@.len() ==> (#[trigger] queue@[i]).wf(),
                rand_run(orig_bits, orig_records, orig_pulses, from, to) == rand_run(
                    self.pool_bits(),
                    self.records(),
                    queue@,
                    from,
                    to,
                ),
            decreases queue@.len(),
        {
            let ghost bits_before = self.pool_bits();
            let ghost records_before = self.records();
            let ghost pulses_before = queue@;
            let ghost rej = rejection(bits_before, k, n);
            let step = draw(&mut self.pool, from, to);
            match step {
                DrawOutcome::Value(v) => {
                    proof {
                        assert(rand_run(bits_before, records_before, pulses_before, from, to)
                            == (Result::<i64, SamplerError>::Ok(v), bits_before.skip(
                            rej.1 as int,
                        ), records_before));
                    }
                    return Ok(v);
                },
                DrawOutcome::NeedBits => {
                    let ghost rem = self.pool_bits();
                    if queue.len() == 0 {
                        proof {
                            assert(rand_run(bits_before, records_before, pulses_before, from, to)
                                == (Result::<i64, SamplerError>::Err(SamplerError::NoNewPulse),
                            rem, records_before));
                        }
                        return Err(SamplerError::NoNewPulse);
                    }
                    let p = queue.remove(0);
                    proof {
                        assert(p.wf());
                        assert(queue@ =~= pulses_before.skip(1));
                    }
                    match self.supply(p) {
                        Ok(_) => {
                            proof {
                                assert(rand_run(bits_before, records_before, pulses_before, from, to)
                                    == rand_run(
                                    rem + bits_of_bytes(p.output_value@),
                                    records_before.push(p),
                                    pulses_before.skip(1),
                                    from,
                                    to,
                                ));
                            }
                        },
                        Err(e) => {
                            proof {
                                assert(rand_run(bits_before, records_before, pulses_before, from, to)
                                    == (Result::<i64, SamplerError>::Err(e), rem, records_before));
                            }
                            return Err(e);
                        },
                    }
                },
            }
        }
    }
}

} // verus!
