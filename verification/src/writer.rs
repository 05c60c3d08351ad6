//! The buffered writer: a fixed-capacity byte region and a write cursor.
//! Writes are batched in memory and drained to the sink only when the
//! region fills, with partial sink writes resumed on the remaining
//! suffix, interruptions retried, and a zero-length sink write while
//! bytes remain treated as fatal.
//!
//! The contracts all speak of `stream()`, the concatenation of the bytes
//! the sink has accepted and the bytes still staged. Every write extends
//! the stream by exactly the bytes taken from the caller and a flush
//! never changes it, so the bytes that ever reach the sink are exactly
//! the bytes handed to the writer, in order, wherever the flush
//! boundaries fall.

use vstd::prelude::*;
use vstd::slice::slice_subrange;
use crate::cursor::{NumeralCursor, NUM_WIDTH};
use crate::digits::{dec_digits, pow10, lemma_dec_digits_basic, lemma_dec_digits_len_le};
use crate::fixed_copy::{copy_chunk, memcpy_16};
use crate::sink::{ByteSink, SinkError};

verus! {

/// Smallest accepted capacity: enough for the sink's minimal meaningful
/// write plus one fast-path integer, so a freshly flushed buffer can
/// always take one numeral.
pub const MIN_CAPACITY: usize = 40;

/// Most decimal digits a `u32` value can have.
pub const U32_MAX_DIGITS: usize = 10;

/// How a buffered operation fails: the sink reported zero bytes written
/// while staged bytes remained, or the sink failed outright.
#[derive(Clone, Copy, Debug, PartialEq, Eq, Structural)]
pub enum WriteError {
    WriteZero,
    Sink,
}

/// Relies on `itoap::write_to_vec`: appends the decimal ASCII digits of
/// the value, most significant first and with no leading zeros, to the
/// vector, which starts empty here.
#[verifier::external_body]
fn decimal_bytes(value: u32) -> (r: Vec<u8>)
    ensures
        r@ == dec_digits(value as nat),
{
    let mut out: Vec<u8> = Vec::new();
    itoap::write_to_vec(&mut out, value);
    out
}

/// A `u32` numeral fits in ten digits.
proof fn lemma_u32_digit_len(value: u32)
    ensures
        1 <= dec_digits(value as nat).len() <= U32_MAX_DIGITS,
{
    assert(pow10(0) == 1);
    assert(pow10(1) == 10);
    assert(pow10(2) == 100);
    assert(pow10(3) == 1000);
    assert(pow10(4) == 10000);
    assert(pow10(5) == 100000);
    assert(pow10(6) == 1000000);
    assert(pow10(7) == 10000000);
    assert(pow10(8) == 100000000);
    assert(pow10(9) == 1000000000);
    assert(pow10(10) == 10000000000);
    lemma_dec_digits_basic(value as nat);
    lemma_dec_digits_len_le(value as nat, U32_MAX_DIGITS as nat);
}

/// A buffered writer over a byte sink. `storage[..used]` holds the staged
/// bytes: accepted from callers, not yet acknowledged by the sink.
/// `faulted` is set for exactly the span of each sink call, so an embedder
/// that catches an unwind out of an unverified sink can tell that a flush
/// was in flight and must not be reissued.
pub struct BufWriter<S: ByteSink> {
    sink: S,
    storage: Vec<u8>,
    used: usize,
    faulted: bool,
}

impl<S: ByteSink> BufWriter<S> {
    /// The fixed capacity of the staging region.
    pub closed spec fn cap(&self) -> int {
        self.storage@.len() as int
    }

    /// The staged bytes, in arrival order.
    pub closed spec fn staged(&self) -> Seq<u8> {
        self.storage@.take(self.used as int)
    }

    /// The bytes the sink has accepted, in arrival order.
    pub closed spec fn sunk(&self) -> Seq<u8> {
        self.sink.accepted()
    }

    /// How often the sink has acknowledged zero bytes of a nonempty offer:
    /// the event that makes a flush fail with `WriteZero`.
    pub closed spec fn zero_acks(&self) -> nat {
        self.sink.zero_acks()
    }

    /// How often a sink call has failed outright.
    pub closed spec fn failures(&self) -> nat {
        self.sink.failures()
    }

    /// How often a sink call has reported a transient interruption.
    pub closed spec fn interrupts(&self) -> nat {
        self.sink.interrupts()
    }

    /// Every byte this writer has taken from callers, in order: first the
    /// bytes already accepted by the sink, then the staged ones.
    pub open spec fn stream(&self) -> Seq<u8> {
        self.sunk() + self.staged()
    }

    /// Whether a sink call was in flight when the writer was abandoned:
    /// false through every completed call of this library.
    pub closed spec fn is_faulted(&self) -> bool {
        self.faulted
    }

    /// The write cursor stays within the region and the region is at
    /// least the capacity floor.
    pub closed spec fn wf(&self) -> bool {
        &&& self.used <= self.storage@.len()
        &&& MIN_CAPACITY <= self.storage@.len()
    }

    /// The capacity invariant: the staged byte count never leaves
    /// `[0, capacity]`, and the capacity never falls below the floor.
    pub proof fn lemma_capacity_invariant(&self)
        requires
            self.wf(),
        ensures
            0 <= self.staged().len() <= self.cap(),
            MIN_CAPACITY <= self.cap(),
    {
    }

    /// A writer over `sink` with the given capacity, raised to the floor
    /// if it is below it. Nothing is staged yet.
    pub fn with_capacity(capacity: usize, sink: S) -> (w: BufWriter<S>)
        ensures
            w.wf(),
            w.cap() == if capacity < MIN_CAPACITY {
                MIN_CAPACITY as int
            } else {
                capacity as int
            },
            w.staged() == Seq::<u8>::empty(),
            w.sunk() == sink.accepted(),
            w.zero_acks() == sink.zero_acks(),
            w.failures() == sink.failures(),
            w.interrupts() == sink.interrupts(),
            !w.is_faulted(),
    {
        let cap = if capacity < MIN_CAPACITY {
            MIN_CAPACITY
        } else {
            capacity
        };
        let storage: Vec<u8> = vec![0u8; cap];
        let w = BufWriter { sink, storage, used: 0, faulted: false };
        proof {
            assert(w.staged() =~= Seq::<u8>::empty());
        }
        w
    }

    /// The sink, for inspection; the writer goes on owning it.
    pub fn sink_ref(&self) -> (s: &S)
        ensures
            s.accepted() == self.sunk(),
            s.zero_acks() == self.zero_acks(),
            s.failures() == self.failures(),
            s.interrupts() == self.interrupts(),
    {
        &self.sink
    }

    /// Appends `data` into the free tail of the region: pure memory copy.
    fn push_back(&mut self, data: &[u8])
        requires
            old(self).used + data@.len() <= old(self).storage@.len(),
        ensures
            final(self).storage@.len() == old(self).storage@.len(),
            final(self).used == old(self).used + data@.len(),
            final(self).staged() == old(self).staged() + data@,
            final(self).sink == old(self).sink,
            final(self).faulted == old(self).faulted,
    {
        let at = self.used;
        let store_len = self.storage.len();
        assert(at + data@.len() <= store_len);
        copy_chunk(data, 0, &mut self.storage, at, data.len());
        self.used = at + data.len();
        proof {
            assert(self.staged() =~= old(self).staged() + data@);
        }
    }

    /// Drops the first `written` staged bytes, keeping the remainder
    /// contiguous at the front of the region and in order.
    fn drop_prefix(&mut self, written: usize)
        requires
            old(self).used <= old(self).storage@.len(),
            written <= old(self).used,
        ensures
            final(self).storage@.len() == old(self).storage@.len(),
            final(self).used == old(self).used - written,
            final(self).staged() == old(self).staged().skip(written as int),
            final(self).sink == old(self).sink,
            final(self).faulted == old(self).faulted,
    {
        let n = self.used - written;
        let store_len = self.storage.len();
        let mut j: usize = 0;
        while j < n
            invariant
                n == old(self).used - written,
                written + n <= store_len,
                store_len == self.storage@.len(),
                self.storage@.len() == old(self).storage@.len(),
                self.used == old(self).used,
                self.sink == old(self).sink,
                self.faulted == old(self).faulted,
                j <= n,
                forall|k: int|
                    0 <= k < j ==> #[trigger] self.storage@[k] == old(self).storage@[written + k],
                forall|k: int|
                    j <= k < self.storage@.len() ==> #[trigger] self.storage@[k] == old(self).storage@[k],
            decreases n - j,
        {
            let b = self.storage[written + j];
            self.storage.set(j, b);
            j += 1;
        }
        self.used = n;
        proof {
            assert(self.staged() =~= old(self).staged().skip(written as int));
        }
    }

    /// Drains every staged byte to the sink: partial writes resume on the
    /// remaining suffix, interruptions are retried with the same data,
    /// a zero-length write while bytes remain is fatal, and any other
    /// sink failure aborts the flush. Whatever happens, the stream is
    /// unchanged and the sink's record only grows, by a prefix of what was
    /// staged: bytes leave the staging region exactly when the sink
    /// acknowledges them, so none is lost or delivered twice. Flushing an
    /// empty buffer succeeds without offering the sink anything, and
    /// `WriteZero` comes back exactly when the sink acknowledged zero
    /// bytes of a nonempty offer.
    #[verifier::loop_isolation(false)]
    pub fn flush_buf(&mut self) -> (r: Result<(), WriteError>)
        requires
            old(self).wf(),
        ensures
            final(self).wf(),
            final(self).cap() == old(self).cap(),
            !old(self).is_faulted() ==> !final(self).is_faulted(),
            final(self).stream() == old(self).stream(),
            final(self).sunk() == old(self).stream().take(final(self).sunk().len() as int),
            final(self).sunk().len() >= old(self).sunk().len(),
            old(self).staged().len() == 0 ==> r is Ok && final(self).sunk() == old(self).sunk(),
            r is Ok ==> final(self).staged().len() == 0,
            r is Err ==> final(self).staged().len() > 0,
            r == Err::<(), WriteError>(WriteError::WriteZero) ==> final(self).zero_acks() == old(self).zero_acks()
                + 1,
            r != Err::<(), WriteError>(WriteError::WriteZero) ==> final(self).zero_acks() == old(self).zero_acks(),
            final(self).failures() >= old(self).failures(),
            final(self).interrupts() >= old(self).interrupts(),
            r == Err::<(), WriteError>(WriteError::Sink) ==> final(self).failures() > old(self).failures() || final(self).interrupts() > old(self).interrupts(),
            r != Err::<(), WriteError>(WriteError::Sink) ==> final(self).failures() == old(self).failures(),
    {
        let ghost pre = *self;
        let mut written: usize = 0;
        let mut retries_left: u64 = u64::MAX;
        while written < self.used
            invariant
                self.wf(),
                self.storage@ == pre.storage@,
                self.used == pre.used,
                written <= self.used,
                self.sink.accepted() == pre.sink.accepted() + pre.staged().take(written as int),
                self.sink.zero_acks() == pre.sink.zero_acks(),
                self.sink.failures() == pre.sink.failures(),
                self.sink.interrupts() >= pre.sink.interrupts(),
                !old(self).faulted ==> !self.faulted,
            decreases self.used - written, retries_left,
        {
            let chunk = slice_subrange(self.storage.as_slice(), written, self.used);
            proof {
                assert(chunk@ =~= pre.staged().subrange(written as int, pre.used as int));
            }
            self.faulted = true;
            let r = self.sink.write(chunk);
            self.faulted = false;
            match r {
                Ok(n) => {
                    if n == 0 {
                        self.drop_prefix(written);
                        proof {
                            assert(pre.staged().take(written as int) + pre.staged().skip(
                                written as int,
                            ) =~= pre.staged());
                            assert(self.stream() =~= pre.stream());
                            assert(self.sunk() =~= pre.stream().take(
                                self.sunk().len() as int,
                            ));
                        }
                        return Err(WriteError::WriteZero);
                    }
                    proof {
                        assert(chunk@.subrange(0, n as int) =~= pre.staged().subrange(
                            written as int,
                            written + n,
                        ));
                        assert(pre.sink.accepted() + pre.staged().take(written + n) =~= (
                        pre.sink.accepted() + pre.staged().take(written as int))
                            + chunk@.subrange(0, n as int));
                    }
                    written += n;
                }
                Err(e) => {
                    match e {
                        SinkError::Interrupted => {
                            if retries_left == 0 {
                                // an interruption storm that never ends is
                                // treated as a failing sink
                                self.drop_prefix(written);
                                proof {
                                    assert(pre.staged().take(written as int) + pre.staged().skip(
                                        written as int,
                                    ) =~= pre.staged());
                                    assert(self.stream() =~= pre.stream());
                                    assert(self.sunk() =~= pre.stream().take(
                                        self.sunk().len() as int,
                                    ));
                                }
                                return Err(WriteError::Sink);
                            }
                            retries_left = retries_left - 1;
                        }
                        SinkError::Other => {
                            self.drop_prefix(written);
                            proof {
                                assert(pre.staged().take(written as int) + pre.staged().skip(
                                    written as int,
                                ) =~= pre.staged());
                                assert(self.stream() =~= pre.stream());
                                assert(self.sunk() =~= pre.stream().take(
                                    self.sunk().len() as int,
                                ));
                            }
                            return Err(WriteError::Sink);
                        }
                    }
                }
            }
        }
        self.used = 0;
        proof {
            assert(pre.staged().take(pre.used as int) =~= pre.staged());
            assert(self.staged() =~= Seq::<u8>::empty());
            assert(self.stream() =~= pre.stream());
            assert(self.sunk() =~= pre.stream().take(self.sunk().len() as int));
        }
        Ok(())
    }

    /// The slow path of `write`: flush, then stage the bytes if they fit
    /// the region at all, else hand them to the sink directly, retrying
    /// interruptions; a direct write may be partial, like the sink's own.
    #[verifier::loop_isolation(false)]
    pub fn write_slow(&mut self, data: &[u8]) -> (r: Result<usize, WriteError>)
        requires
            old(self).wf(),
        ensures
            final(self).wf(),
            final(self).cap() == old(self).cap(),
            !old(self).is_faulted() ==> !final(self).is_faulted(),
            old(self).staged().len() == 0 && data@.len() <= old(self).cap() ==> r is Ok,
            r is Ok ==> final(self).failures() == old(self).failures(),
            r is Ok && data@.len() <= old(self).cap() ==> final(self).zero_acks() == old(self).zero_acks(),
            r == Err::<usize, WriteError>(WriteError::WriteZero) ==> final(self).zero_acks()
                == old(self).zero_acks() + 1,
            r == Err::<usize, WriteError>(WriteError::Sink) ==> final(self).failures() > old(self).failures() || final(self).interrupts() > old(self).interrupts(),
            match r {
                Ok(n) => n <= data@.len() && (data@.len() <= old(self).cap() ==> n == data@.len()
                    && final(self).staged() == data@) && (data@.len() > old(self).cap() ==> final(self).staged().len() == 0) && final(self).stream() == old(self).stream()
                    + data@.subrange(0, n as int),
                Err(_) => final(self).stream() == old(self).stream(),
            },
    {
        match self.flush_buf() {
            Ok(()) => {}
            Err(e) => {
                return Err(e);
            }
        }
        if data.len() <= self.storage.len() {
            self.push_back(data);
            proof {
                assert(data@.subrange(0, data@.len() as int) =~= data@);
            }
            Ok(data.len())
        } else {
            let ghost pre = *self;
            let mut retries_left: u64 = u64::MAX;
            loop
                invariant
                    self.wf(),
                    self.storage@ == pre.storage@,
                    self.used == pre.used,
                    self.used == 0,
                    self.sink.accepted() == pre.sink.accepted(),
                    self.sink.failures() == pre.sink.failures(),
                    self.sink.interrupts() >= pre.sink.interrupts(),
                decreases retries_left,
            {
                self.faulted = true;
                let r = self.sink.write(data);
                self.faulted = false;
                match r {
                    Ok(n) => {
                        proof {
                            assert(self.stream() =~= pre.stream() + data@.subrange(
                                0,
                                n as int,
                            ));
                        }
                        return Ok(n);
                    }
                    Err(e) => {
                        match e {
                            SinkError::Interrupted => {
                                if retries_left == 0 {
                                    return Err(WriteError::Sink);
                                }
                                retries_left = retries_left - 1;
                            }
                            SinkError::Other => {
                                return Err(WriteError::Sink);
                            }
                        }
                    }
                }
            }
        }
    }

    /// Buffered write. Bytes that fit the free tail are staged by pure
    /// memory copy and the call cannot fail; otherwise the buffer is
    /// flushed first, and only bytes longer than the whole region bypass
    /// staging. `Ok(n)` means exactly the first `n` bytes entered the
    /// stream, and `n` is everything except on a partial bypass write.
    pub fn write(&mut self, data: &[u8]) -> (r: Result<usize, WriteError>)
        requires
            old(self).wf(),
        ensures
            final(self).wf(),
            final(self).cap() == old(self).cap(),
            !old(self).is_faulted() ==> !final(self).is_faulted(),
            data@.len() <= old(self).cap() - old(self).staged().len() ==> r is Ok && final(self).sunk() == old(self).sunk() && final(self).staged() == old(self).staged() + data@
                && final(self).zero_acks() == old(self).zero_acks() && final(self).failures()
                == old(self).failures() && final(self).interrupts() == old(self).interrupts(),
            r is Ok ==> final(self).failures() == old(self).failures(),
            r is Ok && data@.len() <= old(self).cap() ==> final(self).zero_acks() == old(self).zero_acks(),
            r == Err::<usize, WriteError>(WriteError::WriteZero) ==> final(self).zero_acks()
                == old(self).zero_acks() + 1,
            r == Err::<usize, WriteError>(WriteError::Sink) ==> final(self).failures() > old(self).failures() || final(self).interrupts() > old(self).interrupts(),
            match r {
                Ok(n) => n <= data@.len() && (data@.len() <= old(self).cap() ==> n == data@.len())
                    && final(self).stream() == old(self).stream() + data@.subrange(0, n as int),
                Err(_) => final(self).stream() == old(self).stream(),
            },
    {
        if data.len() <= self.storage.len() - self.used {
            self.push_back(data);
            proof {
                assert(data@.subrange(0, data@.len() as int) =~= data@);
            }
            Ok(data.len())
        } else {
            self.write_slow(data)
        }
    }

    /// `write`, with the count dropped: succeeds when `write` does.
    pub fn write_all(&mut self, data: &[u8]) -> (r: Result<(), WriteError>)
        requires
            old(self).wf(),
        ensures
            final(self).wf(),
            final(self).cap() == old(self).cap(),
            !old(self).is_faulted() ==> !final(self).is_faulted(),
            data@.len() <= old(self).cap() - old(self).staged().len() ==> r is Ok && final(self).sunk() == old(self).sunk() && final(self).staged() == old(self).staged() + data@
                && final(self).zero_acks() == old(self).zero_acks() && final(self).failures()
                == old(self).failures() && final(self).interrupts() == old(self).interrupts(),
            r is Ok ==> final(self).failures() == old(self).failures(),
            r is Ok && data@.len() <= old(self).cap() ==> final(self).zero_acks() == old(self).zero_acks(),
            r == Err::<(), WriteError>(WriteError::WriteZero) ==> final(self).zero_acks() == old(self).zero_acks() + 1,
            r == Err::<(), WriteError>(WriteError::Sink) ==> final(self).failures() > old(self).failures() || final(self).interrupts() > old(self).interrupts(),
            match r {
                Ok(_) => (exists|k: int|
                    0 <= k <= data@.len() && final(self).stream() == old(self).stream()
                        + data@.subrange(0, k)) && (data@.len() <= old(self).cap() ==> final(self).stream() == old(self).stream() + data@),
                Err(_) => final(self).stream() == old(self).stream(),
            },
    {
        let r = self.write(data);
        match r {
            Ok(n) => {
                proof {
                    assert(0 <= n as int <= data@.len() && self.stream() == old(self).stream()
                        + data@.subrange(0, n as int));
                    assert(data@.subrange(0, data@.len() as int) =~= data@);
                }
                Ok(())
            }
            Err(e) => Err(e),
        }
    }

    /// Fast-path integer writer: formats `value` as decimal ASCII straight
    /// into the free tail when ten bytes of headroom exist, flushing first
    /// otherwise. Cannot fail when the headroom is already there.
    pub fn write_int(&mut self, value: u32) -> (r: Result<usize, WriteError>)
        requires
            old(self).wf(),
        ensures
            final(self).wf(),
            final(self).cap() == old(self).cap(),
            !old(self).is_faulted() ==> !final(self).is_faulted(),
            old(self).staged().len() + U32_MAX_DIGITS <= old(self).cap() ==> r is Ok && final(self).sunk() == old(self).sunk() && final(self).staged() == old(self).staged()
                + dec_digits(value as nat),
            r is Ok ==> final(self).failures() == old(self).failures() && final(self).zero_acks()
                == old(self).zero_acks(),
            r == Err::<usize, WriteError>(WriteError::WriteZero) ==> final(self).zero_acks()
                == old(self).zero_acks() + 1,
            r == Err::<usize, WriteError>(WriteError::Sink) ==> final(self).failures() > old(self).failures() || final(self).interrupts() > old(self).interrupts(),
            match r {
                Ok(n) => n == dec_digits(value as nat).len() && final(self).stream() == old(self).stream() + dec_digits(value as nat),
                Err(_) => final(self).stream() == old(self).stream(),
            },
    {
        if U32_MAX_DIGITS <= self.storage.len() - self.used {
            proof {
                lemma_u32_digit_len(value);
            }
            let digits = decimal_bytes(value);
            let at = self.used;
            memcpy_16(digits.as_slice(), &mut self.storage, at, digits.len());
            self.used = at + digits.len();
            proof {
                assert(self.staged() =~= old(self).staged() + dec_digits(value as nat));
            }
            Ok(digits.len())
        } else {
            self.write_int_slow(value)
        }
    }

    /// The slow path of `write_int`: flush, then format into the start of
    /// the now-empty region, which the capacity floor guarantees to fit.
    pub fn write_int_slow(&mut self, value: u32) -> (r: Result<usize, WriteError>)
        requires
            old(self).wf(),
        ensures
            final(self).wf(),
            final(self).cap() == old(self).cap(),
            !old(self).is_faulted() ==> !final(self).is_faulted(),
            old(self).staged().len() == 0 ==> r is Ok,
            r is Ok ==> final(self).failures() == old(self).failures() && final(self).zero_acks()
                == old(self).zero_acks(),
            r == Err::<usize, WriteError>(WriteError::WriteZero) ==> final(self).zero_acks()
                == old(self).zero_acks() + 1,
            r == Err::<usize, WriteError>(WriteError::Sink) ==> final(self).failures() > old(self).failures() || final(self).interrupts() > old(self).interrupts(),
            match r {
                Ok(n) => n == dec_digits(value as nat).len() && final(self).staged()
                    == dec_digits(value as nat) && final(self).stream() == old(self).stream()
                    + dec_digits(value as nat),
                Err(_) => final(self).stream() == old(self).stream(),
            },
    {
        match self.flush_buf() {
            Ok(()) => {}
            Err(e) => {
                return Err(e);
            }
        }
        proof {
            lemma_u32_digit_len(value);
        }
        let ghost flushed = *self;
        let digits = decimal_bytes(value);
        memcpy_16(digits.as_slice(), &mut self.storage, 0, digits.len());
        self.used = digits.len();
        proof {
            assert(self.staged() =~= dec_digits(value as nat));
            assert(self.stream() =~= flushed.stream() + dec_digits(value as nat));
        }
        Ok(digits.len())
    }

    /// Appends the cursor's significant digits by fixed-size copy: the
    /// numeral-emission fast path, off the flush path.
    pub fn write_numeral(&mut self, cur: &NumeralCursor) -> (r: Result<usize, WriteError>)
        requires
            old(self).wf(),
            cur.wf(),
        ensures
            final(self).wf(),
            final(self).cap() == old(self).cap(),
            !old(self).is_faulted() ==> !final(self).is_faulted(),
            old(self).staged().len() + NUM_WIDTH <= old(self).cap() ==> r is Ok && final(self).sunk() == old(self).sunk() && final(self).staged() == old(self).staged()
                + dec_digits(cur.value()),
            r is Ok ==> final(self).failures() == old(self).failures() && final(self).zero_acks()
                == old(self).zero_acks(),
            r == Err::<usize, WriteError>(WriteError::WriteZero) ==> final(self).zero_acks()
                == old(self).zero_acks() + 1,
            r == Err::<usize, WriteError>(WriteError::Sink) ==> final(self).failures() > old(self).failures() || final(self).interrupts() > old(self).interrupts(),
            match r {
                Ok(n) => n == dec_digits(cur.value()).len() && final(self).stream() == old(self).stream() + dec_digits(cur.value()),
                Err(_) => final(self).stream() == old(self).stream(),
            },
    {
        proof {
            cur.lemma_digit_len();
        }
        let d = cur.current_digits();
        let n = d.len();
        if n <= self.storage.len() - self.used {
            let at = self.used;
            memcpy_16(d, &mut self.storage, at, n);
            self.used = at + n;
            proof {
                assert(self.staged() =~= old(self).staged() + dec_digits(cur.value()));
            }
            Ok(n)
        } else {
            match self.flush_buf() {
                Ok(()) => {}
                Err(e) => {
                    return Err(e);
                }
            }
            let ghost flushed = *self;
            memcpy_16(d, &mut self.storage, 0, n);
            self.used = n;
            proof {
                assert(self.staged() =~= dec_digits(cur.value()));
                assert(self.stream() =~= flushed.stream() + dec_digits(cur.value()));
            }
            Ok(n)
        }
    }

    /// Drains the staged bytes, then asks the sink itself to flush.
    pub fn flush(&mut self) -> (r: Result<(), WriteError>)
        requires
            old(self).wf(),
        ensures
            final(self).wf(),
            final(self).cap() == old(self).cap(),
            !old(self).is_faulted() ==> !final(self).is_faulted(),
            final(self).stream() == old(self).stream(),
            final(self).sunk() == old(self).stream().take(final(self).sunk().len() as int),
            final(self).sunk().len() >= old(self).sunk().len(),
            r is Ok ==> final(self).staged().len() == 0,
            r == Err::<(), WriteError>(WriteError::WriteZero) ==> final(self).zero_acks() == old(self).zero_acks()
                + 1,
            r != Err::<(), WriteError>(WriteError::WriteZero) ==> final(self).zero_acks() == old(self).zero_acks(),
            final(self).failures() >= old(self).failures(),
            final(self).interrupts() >= old(self).interrupts(),
            r == Err::<(), WriteError>(WriteError::Sink) ==> final(self).failures() > old(self).failures() || final(self).interrupts() > old(self).interrupts(),
    {
        match self.flush_buf() {
            Ok(()) => {}
            Err(e) => {
                return Err(e);
            }
        }
        let r = self.sink.flush();
        match r {
            Ok(()) => Ok(()),
            Err(_) => Err(WriteError::Sink),
        }
    }

    /// Best-effort finalization, to run once when the writer is retired:
    /// drains what remains staged unless a sink write was already in
    /// flight when the writer was abandoned mid-call. The outcome is
    /// swallowed: at teardown there is no caller left to receive it.
    pub fn finalize(&mut self)
        requires
            old(self).wf(),
        ensures
            final(self).wf(),
            final(self).cap() == old(self).cap(),
            !old(self).is_faulted() ==> !final(self).is_faulted(),
            final(self).stream() == old(self).stream(),
            final(self).sunk() == old(self).stream().take(final(self).sunk().len() as int),
            final(self).sunk().len() >= old(self).sunk().len(),
            final(self).is_faulted() == old(self).is_faulted(),
            !old(self).is_faulted() && final(self).staged().len() > 0 ==> final(self).zero_acks()
                + final(self).failures() + final(self).interrupts() > old(self).zero_acks() + old(self).failures() + old(self).interrupts(),
    {
        if !self.faulted {
            let outcome = self.flush_buf();
            match outcome {
                Ok(_) => {}
                Err(WriteError::WriteZero) => {}
                Err(WriteError::Sink) => {}
            }
        } else {
            proof {
                assert(self.sunk() =~= self.stream().take(self.sunk().len() as int));
            }
        }
    }

    /// The capacity the writer was built with.
    pub fn capacity(&self) -> (c: usize)
        ensures
            c as int == self.cap(),
    {
        self.storage.len()
    }

    /// How many bytes are staged.
    pub fn staged_len(&self) -> (n: usize)
        requires
            self.wf(),
        ensures
            n as int == self.staged().len(),
    {
        self.used
    }
}

} // verus!
