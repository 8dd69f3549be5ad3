//! Fixed-capacity circular bit buffer for beacon entropy.
//!
//! The buffer holds two pulse-sized half slots and ping-pongs between them:
//! each insert fills the half slot not written last time.  A read cursor and
//! an unread-bit count track the FIFO stream of bits across the wrap point.

use vstd::prelude::*;
use vstd::arithmetic::div_mod::lemma_fundamental_div_mod;
use vstd::arithmetic::div_mod::lemma_small_mod;
use vstd::arithmetic::div_mod::lemma_add_mod_noop;
use crate::bits::byte_bit;
use crate::bits::bits_of_bytes;

verus! {

/// Bit offset of the half slot that the next insert fills.
pub open spec fn fill_origin(start_at_zero: bool) -> int {
    if start_at_zero {
        0
    } else {
        512
    }
}

/// Inserting one pulse into a drained pool and then popping a full pulse
/// width hands back exactly the inserted bytes, bit for bit and in their
/// original order, and leaves the pool empty again.  Stated over the unread
/// stream that `insert` and `pop_front` promise: after the insert the
/// stream is `before + bits_of_bytes(chunk)`; the pop returns its first
/// 512 bits and leaves the rest.
pub proof fn lemma_insert_then_full_pop(before: Seq<bool>, chunk: Seq<u8>)
    requires
        before.len() == 0,
        chunk.len() == 64,
    ensures
        (before + bits_of_bytes(chunk)).take(512) == bits_of_bytes(chunk),
        (before + bits_of_bytes(chunk)).skip(512).len() == 0,
{
    assert((before + bits_of_bytes(chunk)).take(512) =~= bits_of_bytes(chunk));
}

/// Successive pops consume strictly FIFO and never overlap: against one
/// unread stream, a pop of `k1` bits and then one of `k2` bits return two
/// consecutive, disjoint ranges of the stream — together exactly its
/// oldest `k1 + k2` bits, in order.
pub proof fn lemma_pop_front_fifo(bits: Seq<bool>, k1: int, k2: int)
    requires
        0 <= k1,
        0 <= k2,
        k1 + k2 <= bits.len(),
    ensures
        bits.skip(k1).take(k2) == bits.subrange(k1, k1 + k2),
        bits.take(k1) + bits.skip(k1).take(k2) == bits.take(k1 + k2),
{
    assert(bits.skip(k1).take(k2) =~= bits.subrange(k1, k1 + k2));
    assert(bits.take(k1) + bits.skip(k1).take(k2) =~= bits.take(k1 + k2));
}

/// A circular bit buffer of fixed capacity `1024` bits (two pulses),
/// consumed oldest-first.
pub struct BitPool {
    buf: Vec<u8>,
    cursor: usize,
    count: usize,
    start_at_zero: bool,
}

impl BitPool {
    /// The bytes backing the pool: the low half slot, then the high one.
    pub closed spec fn spec_bytes(self) -> Seq<u8> {
        self.buf@
    }

    /// The read cursor, as a bit offset into the buffer.
    pub closed spec fn spec_cursor(self) -> nat {
        self.cursor as nat
    }

    /// Parity flag: the next insert fills the low half slot when true.
    pub closed spec fn spec_start_at_zero(self) -> bool {
        self.start_at_zero
    }

    /// Number of unread bits.
    pub closed spec fn spec_count(self) -> nat {
        self.count as nat
    }

    /// Structural invariant.  Besides the bounds, the unread range always
    /// ends (mod the capacity) exactly where the next insert will begin, so
    /// freshly written bits continue the FIFO stream without a gap.
    pub closed spec fn wf(self) -> bool {
        &&& self.buf@.len() == 128
        &&& self.cursor < 1024
        &&& self.count <= 1024
        &&& (self.cursor + self.count) % 1024 == fill_origin(self.start_at_zero)
    }

    /// The unread bits, oldest first, wrapping around the end of the buffer.
    pub closed spec fn unread(self) -> Seq<bool> {
        Seq::new(
            self.count as nat,
            |t: int|
                byte_bit(
                    self.buf@[(self.cursor + t) % 1024 / 8],
                    (self.cursor + t) % 1024 % 8,
                ),
        )
    }

    /// An empty pool backed by an all-zero buffer, reading from offset zero,
    /// with the low half slot up next.
    pub fn new() -> (pool: BitPool)
        ensures
            pool.wf(),
            pool.unread().len() == 0,
            pool.spec_cursor() == 0,
            pool.spec_start_at_zero(),
            pool.spec_bytes().len() == 128,
            forall|j: int| 0 <= j < 128 ==> pool.spec_bytes()[j] == 0u8,
    {
        let mut buf: Vec<u8> = Vec::new();
        let mut j: usize = 0;
        while j < 128
            invariant
                j <= 128,
                buf@.len() == j,
                forall|t: int| 0 <= t < j ==> buf@[t] == 0u8,
            decreases 128 - j,
        {
            buf.push(0u8);
            j = j + 1;
        }
        BitPool { buf, cursor: 0, count: 0, start_at_zero: true }
    }

    /// How many unread bits the pool holds.
    pub fn len(&self) -> (n: usize)
        ensures
            n == self.unread().len(),
    {
        self.count
    }

    /// The byte at a given offset of the backing buffer.
    pub fn byte_at(&self, idx: usize) -> (b: u8)
        requires
            self.wf(),
            idx < 128,
        ensures
            b == self.spec_bytes()[idx as int],
    {
        self.buf[idx]
    }

    /// The read cursor, as a bit offset.
    pub fn cursor(&self) -> (c: usize)
        ensures
            c == self.spec_cursor(),
    {
        self.cursor
    }

    /// Whether the next insert fills the low half slot.
    pub fn start_at_zero(&self) -> (s: bool)
        ensures
            s == self.spec_start_at_zero(),
    {
        self.start_at_zero
    }

    /// Write one pulse into the half slot not written last time, flip the
    /// parity flag, and account the new bits as unread.  The precondition
    /// refuses to overwrite unread bits: an insert waits until the target
    /// slot is fully drained, rather than dropping buffered entropy.
    pub fn insert(&mut self, chunk: &Vec<u8>)
        requires
            old(self).wf(),
            chunk@.len() == 64,
            old(self).unread().len() + 512 <= 1024,
        ensures
            final(self).wf(),
            final(self).unread() == old(self).unread() + bits_of_bytes(chunk@),
            final(self).spec_cursor() == old(self).spec_cursor(),
            final(self).spec_start_at_zero() == !old(self).spec_start_at_zero(),
            forall|j: int|
                0 <= j < 64 ==> final(self).spec_bytes()[fill_origin(
                    old(self).spec_start_at_zero(),
                ) / 8 + j] == chunk@[j],
            forall|j: int|
                0 <= j < 128 && !(fill_origin(old(self).spec_start_at_zero()) / 8 <= j
                    < fill_origin(old(self).spec_start_at_zero()) / 8 + 64)
                    ==> final(self).spec_bytes()[j] == old(self).spec_bytes()[j],
    {
        let base: usize = if self.start_at_zero {
            0
        } else {
            64
        };
        let mut j: usize = 0;
        while j < 64
            invariant
                old(self).wf(),
                chunk@.len() == 64,
                base == fill_origin(old(self).spec_start_at_zero()) / 8,
                j <= 64,
                self.cursor == old(self).cursor,
                self.count == old(self).count,
                self.start_at_zero == old(self).start_at_zero,
                self.buf@.len() == 128,
                forall|t: int| 0 <= t < j ==> self.buf@[base + t] == chunk@[t],
                forall|t: int|
                    0 <= t < 128 && !(base <= t < base + j) ==> self.buf@[t] == old(
                        self,
                    ).buf@[t],
            decreases 64 - j,
        {
            self.buf.set(base + j, chunk[j]);
            j = j + 1;
        }
        self.start_at_zero = !self.start_at_zero;
        self.count = self.count + 512;
        proof {
            self.lemma_insert_view(*old(self), chunk@);
        }
    }

    /// The unread stream after an insert is the old stream followed by the
    /// chunk's bits.
    proof fn lemma_insert_view(self, prev: BitPool, chunk: Seq<u8>)
        requires
            prev.wf(),
            chunk.len() == 64,
            prev.count + 512 <= 1024,
            self.cursor == prev.cursor,
            self.count == prev.count + 512,
            self.start_at_zero == !prev.start_at_zero,
            self.buf@.len() == 128,
            forall|t: int|
                0 <= t < 64 ==> self.buf@[fill_origin(prev.start_at_zero) / 8 + t] == chunk[t],
            forall|t: int|
                0 <= t < 128 && !(fill_origin(prev.start_at_zero) / 8 <= t < fill_origin(
                    prev.start_at_zero,
                ) / 8 + 64) ==> self.buf@[t] == prev.buf@[t],
        ensures
            self.wf(),
            self.unread() == prev.unread() + bits_of_bytes(chunk),
    {
        let lo = fill_origin(prev.start_at_zero);
        let sum = prev.cursor + prev.count;
        lemma_fundamental_div_mod(sum as int, 1024);
        // sum % 1024 == lo and sum < 1536, so sum is lo itself or lo + 1024;
        // the latter arises only for the low slot, by wrapping.
        assert(sum == lo || sum == lo + 1024);
        assert forall|t: int| 0 <= t < self.count implies self.unread()[t] == (prev.unread()
            + bits_of_bytes(chunk))[t] by {
            let p = (prev.cursor + t) % 1024;
            if prev.cursor + t < 1024 {
                lemma_small_mod((prev.cursor + t) as nat, 1024);
            } else {
                lemma_fundamental_div_mod((prev.cursor + t) as int, 1024);
                assert(p == prev.cursor + t - 1024);
            }
            if t < prev.count {
                // Old bits: their positions lie outside the slot being filled.
                assert(!(lo <= p < lo + 512));
                assert(p / 8 < 128) by (nonlinear_arith)
                    requires p < 1024;
                assert(!(lo / 8 <= p / 8 < lo / 8 + 64)) by (nonlinear_arith)
                    requires !(lo <= p < lo + 512) && 0 <= p < 1024 && (lo == 0 || lo == 512);
                assert(self.buf@[p / 8] == prev.buf@[p / 8]);
            } else {
                // Fresh bits: position lo + d for offset d within the chunk.
                let d = t - prev.count;
                assert(p == lo + d);
                assert(p / 8 == lo / 8 + d / 8 && p % 8 == d % 8) by (nonlinear_arith)
                    requires p == lo + d && 0 <= d < 512 && (lo == 0 || lo == 512);
                assert(self.buf@[p / 8] == chunk[d / 8]);
                assert(bits_of_bytes(chunk)[d] == byte_bit(chunk[d / 8], d % 8));
            }
        }
        assert(self.unread() =~= prev.unread() + bits_of_bytes(chunk));
        assert((self.cursor + self.count) % 1024 == fill_origin(self.start_at_zero)) by {
            lemma_fundamental_div_mod((self.cursor + self.count) as int, 1024);
            lemma_fundamental_div_mod(sum as int, 1024);
        }
    }

    /// Remove and return the oldest `k` unread bits, in order, advancing the
    /// cursor circularly.  Asking for more bits than are buffered is a
    /// contract violation, not a recoverable error.
    pub fn pop_front(&mut self, k: usize) -> (out: Vec<bool>)
        requires
            old(self).wf(),
            k <= old(self).unread().len(),
        ensures
            final(self).wf(),
            out@ == old(self).unread().take(k as int),
            final(self).unread() == old(self).unread().skip(k as int),
            final(self).spec_bytes() == old(self).spec_bytes(),
            final(self).spec_start_at_zero() == old(self).spec_start_at_zero(),
            final(self).spec_cursor() == (old(self).spec_cursor() + k) % 1024,
    {
        let mut out: Vec<bool> = Vec::new();
        let mut j: usize = 0;
        while j < k
            invariant
                old(self).wf(),
                k <= old(self).count,
                self.buf@ == old(self).buf@,
                self.cursor == old(self).cursor,
                self.count == old(self).count,
                self.start_at_zero == old(self).start_at_zero,
                j <= k,
                out@.len() == j,
                forall|t: int| 0 <= t < j ==> out@[t] == old(self).unread()[t],
            decreases k - j,
        {
            let pos = if self.cursor + j >= 1024 {
                self.cursor + j - 1024
            } else {
                self.cursor + j
            };
            proof {
                if self.cursor + j < 1024 {
                    lemma_small_mod((self.cursor + j) as nat, 1024);
                } else {
                    lemma_fundamental_div_mod((self.cursor + j) as int, 1024);
                }
                assert(pos == (self.cursor + j) % 1024);
                assert(pos / 8 < 128) by (nonlinear_arith)
                    requires pos < 1024;
                assert(pos % 8 < 8) by (nonlinear_arith);
            }
            let byte = self.buf[pos / 8];
            let sh: u8 = (7 - (pos % 8)) as u8;
            let bit = ((byte >> sh) & 1) == 1;
            assert(bit == old(self).unread()[j as int]);
            out.push(bit);
            j = j + 1;
        }
        let moved = self.cursor + k;
        let new_cursor = if moved >= 1024 {
            moved - 1024
        } else {
            moved
        };
        proof {
            if moved < 1024 {
                lemma_small_mod(moved as nat, 1024);
            } else {
                lemma_fundamental_div_mod(moved as int, 1024);
            }
            assert(new_cursor == moved % 1024);
        }
        self.cursor = new_cursor;
        self.count = self.count - k;
        proof {
            assert forall|t: int| 0 <= t < self.count implies self.unread()[t] == old(
                self,
            ).unread().skip(k as int)[t] by {
                lemma_add_mod_noop((old(self).cursor + k) as int, t, 1024);
                lemma_small_mod(t as nat, 1024);
                assert((self.cursor + t) % 1024 == (old(self).cursor + k + t) % 1024);
            }
            assert(self.unread() =~= old(self).unread().skip(k as int));
            assert(out@ =~= old(self).unread().take(k as int));
            assert((self.cursor + self.count) % 1024 == fill_origin(self.start_at_zero)) by {
                lemma_add_mod_noop((old(self).cursor + k) as int, self.count as int, 1024);
                if self.count < 1024 {
                    lemma_small_mod(self.count as nat, 1024);
                } else {
                    vstd::arithmetic::div_mod::lemma_mod_self_0(1024);
                    lemma_small_mod(self.cursor as nat, 1024);
                }
                assert((self.cursor + self.count) % 1024 == (old(self).cursor + k
                    + self.count) % 1024);
            }
        }
        out
    }
}

} // verus!
