//! The byte sink: the append-only, blocking output endpoint the buffer
//! drains into. A sink may accept fewer bytes than offered, may report a
//! transient interruption, or may fail. The trait carries an abstract view
//! of the bytes accepted so far; verified in-memory sinks for exercising
//! the flush protocol are provided here.

use vstd::prelude::*;
use vstd::slice::slice_subrange;

verus! {

/// What a sink reports when it does not accept bytes: a transient
/// interruption, to be retried with the same data, or any other failure,
/// which is final.
#[derive(Clone, Copy, Debug, PartialEq, Eq, Structural)]
pub enum SinkError {
    Interrupted,
    Other,
}

/// An append-only byte endpoint. `accepted()` is the sequence of all
/// bytes it has acknowledged, in arrival order; a successful write
/// acknowledges some prefix of the offered bytes and nothing else, and a
/// failed call acknowledges nothing. Three event accounts come with it:
/// `zero_acks()` counts the writes that acknowledged zero bytes of a
/// nonempty offer (the event a flush must treat as fatal), `failures()`
/// the calls that failed outright, and `interrupts()` the calls that
/// reported a transient interruption. A sink that can produce none of an
/// event keeps that account at its default of zero, so a caller can rule
/// the event out by the type alone.
pub trait ByteSink {
    /// The default stands for a sink whose acceptance record is not
    /// modelled; every sink this crate provides overrides it.
    open spec fn accepted(&self) -> Seq<u8> {
        Seq::empty()
    }

    /// The default stands for a sink that never acknowledges zero bytes
    /// of a nonempty offer; a sink that can must override it.
    open spec fn zero_acks(&self) -> nat {
        0
    }

    /// The default stands for a sink whose calls never fail outright;
    /// a sink that can fail must override it.
    open spec fn failures(&self) -> nat {
        0
    }

    /// The default stands for a sink whose calls are never interrupted;
    /// a sink that can be must override it.
    open spec fn interrupts(&self) -> nat {
        0
    }

    fn write(&mut self, data: &[u8]) -> (r: Result<usize, SinkError>)
        ensures
            match r {
                Ok(n) => n <= data@.len() && final(self).accepted() == old(self).accepted()
                    + data@.subrange(0, n as int) && final(self).zero_acks() == old(
                    self,
                ).zero_acks() + (if n == 0 && data@.len() > 0 {
                    1int
                } else {
                    0int
                }) && final(self).failures() == old(self).failures() && final(self).interrupts()
                    == old(self).interrupts(),
                Err(e) => final(self).accepted() == old(self).accepted() && final(self).zero_acks()
                    == old(self).zero_acks() && final(self).failures() == old(self).failures() + (
                if e == SinkError::Other {
                    1int
                } else {
                    0int
                }) && final(self).interrupts() == old(self).interrupts() + (
                if e == SinkError::Interrupted {
                    1int
                } else {
                    0int
                }),
            },
    ;

    fn flush(&mut self) -> (r: Result<(), SinkError>)
        ensures
            final(self).accepted() == old(self).accepted(),
            final(self).zero_acks() == old(self).zero_acks(),
            match r {
                Ok(_) => final(self).failures() == old(self).failures() && final(self).interrupts()
                    == old(self).interrupts(),
                Err(e) => final(self).failures() == old(self).failures() + (
                if e == SinkError::Other {
                    1int
                } else {
                    0int
                }) && final(self).interrupts() == old(self).interrupts() + (
                if e == SinkError::Interrupted {
                    1int
                } else {
                    0int
                }),
            },
    ;
}

/// An in-memory sink that accepts every write whole.
pub struct VecSink {
    pub data: Vec<u8>,
}

impl VecSink {
    pub fn new() -> (s: VecSink)
        ensures
            s.accepted() == Seq::<u8>::empty(),
    {
        let s = VecSink { data: Vec::new() };
        proof {
            assert(s.data@ =~= Seq::<u8>::empty());
        }
        s
    }
}

impl ByteSink for VecSink {
    open spec fn accepted(&self) -> Seq<u8> {
        self.data@
    }

    open spec fn zero_acks(&self) -> nat {
        0
    }

    open spec fn failures(&self) -> nat {
        0
    }

    open spec fn interrupts(&self) -> nat {
        0
    }

    fn write(&mut self, data: &[u8]) -> (r: Result<usize, SinkError>)
        ensures
            r == Ok::<usize, SinkError>(data@.len() as usize),
    {
        self.data.extend_from_slice(data);
        proof {
            assert(data@.subrange(0, data@.len() as int) =~= data@);
        }
        Ok(data.len())
    }

    fn flush(&mut self) -> (r: Result<(), SinkError>)
        ensures
            r == Ok::<(), SinkError>(()),
    {
        Ok(())
    }
}

/// An in-memory sink that accepts at most `chunk` bytes per call, but
/// always at least one byte of a nonempty offer: with `chunk == 1` every
/// write of more than one byte is partial. It never acknowledges zero
/// bytes, never fails and is never interrupted, so its event accounts
/// stay at zero and a flush over it provably succeeds.
pub struct ChunkSink {
    pub data: Vec<u8>,
    pub chunk: usize,
}

impl ChunkSink {
    pub fn new(chunk: usize) -> (s: ChunkSink)
        ensures
            s.accepted() == Seq::<u8>::empty(),
            s.chunk == chunk,
    {
        let s = ChunkSink { data: Vec::new(), chunk };
        proof {
            assert(s.data@ =~= Seq::<u8>::empty());
        }
        s
    }
}

impl ByteSink for ChunkSink {
    open spec fn accepted(&self) -> Seq<u8> {
        self.data@
    }

    open spec fn zero_acks(&self) -> nat {
        0
    }

    open spec fn failures(&self) -> nat {
        0
    }

    open spec fn interrupts(&self) -> nat {
        0
    }

    fn write(&mut self, data: &[u8]) -> (r: Result<usize, SinkError>)
        ensures
            r == Ok::<usize, SinkError>(
                ({
                    let step: usize = if old(self).chunk == 0 {
                        1
                    } else {
                        old(self).chunk
                    };
                    if data@.len() <= step {
                        data@.len() as usize
                    } else {
                        step
                    }
                }),
            ),
            final(self).chunk == old(self).chunk,
    {
        let step: usize = if self.chunk == 0 {
            1
        } else {
            self.chunk
        };
        let n = if data.len() <= step {
            data.len()
        } else {
            step
        };
        let part = slice_subrange(data, 0, n);
        self.data.extend_from_slice(part);
        Ok(n)
    }

    fn flush(&mut self) -> (r: Result<(), SinkError>)
        ensures
            r == Ok::<(), SinkError>(()),
            final(self).chunk == old(self).chunk,
    {
        Ok(())
    }
}

/// A sink that acknowledges zero bytes of every offer while reporting
/// success: the pathological case a flush must treat as fatal. It accepts
/// nothing, so its acceptance record stays empty.
pub struct ZeroSink {
    pub zeroed: Ghost<nat>,
}

impl ZeroSink {
    pub fn new() -> (s: ZeroSink)
        ensures
            s.accepted() == Seq::<u8>::empty(),
            s.zero_acks() == 0,
    {
        ZeroSink { zeroed: Ghost(0) }
    }
}

impl ByteSink for ZeroSink {
    open spec fn accepted(&self) -> Seq<u8> {
        Seq::empty()
    }

    open spec fn zero_acks(&self) -> nat {
        self.zeroed@
    }

    open spec fn failures(&self) -> nat {
        0
    }

    open spec fn interrupts(&self) -> nat {
        0
    }

    fn write(&mut self, data: &[u8]) -> (r: Result<usize, SinkError>)
        ensures
            r == Ok::<usize, SinkError>(0),
    {
        if data.len() > 0 {
            self.zeroed = Ghost(self.zeroed@ + 1);
        }
        proof {
            assert(data@.subrange(0, 0) =~= Seq::<u8>::empty());
            assert(self.accepted() =~= old(self).accepted() + data@.subrange(0, 0));
        }
        Ok(0)
    }

    fn flush(&mut self) -> (r: Result<(), SinkError>)
        ensures
            r == Ok::<(), SinkError>(()),
    {
        Ok(())
    }
}

/// A sink that accepts nothing: every write and every flush fails.
pub struct FailSink {
    pub failed: Ghost<nat>,
}

impl FailSink {
    pub fn new() -> (s: FailSink)
        ensures
            s.accepted() == Seq::<u8>::empty(),
            s.failures() == 0,
    {
        FailSink { failed: Ghost(0) }
    }
}

impl ByteSink for FailSink {
    open spec fn accepted(&self) -> Seq<u8> {
        Seq::empty()
    }

    open spec fn zero_acks(&self) -> nat {
        0
    }

    open spec fn failures(&self) -> nat {
        self.failed@
    }

    open spec fn interrupts(&self) -> nat {
        0
    }

    fn write(&mut self, data: &[u8]) -> (r: Result<usize, SinkError>)
        ensures
            r == Err::<usize, SinkError>(SinkError::Other),
    {
        self.failed = Ghost(self.failed@ + 1);
        Err(SinkError::Other)
    }

    fn flush(&mut self) -> (r: Result<(), SinkError>)
        ensures
            r == Err::<(), SinkError>(SinkError::Other),
    {
        self.failed = Ghost(self.failed@ + 1);
        Err(SinkError::Other)
    }
}

/// An in-memory sink that reports `Interrupted` for its first `pending`
/// writes and from then on accepts every write whole.
pub struct InterruptSink {
    pub data: Vec<u8>,
    pub pending: usize,
    pub taken: Ghost<nat>,
}

impl InterruptSink {
    pub fn new(pending: usize) -> (s: InterruptSink)
        ensures
            s.accepted() == Seq::<u8>::empty(),
            s.pending == pending,
    {
        let s = InterruptSink { data: Vec::new(), pending, taken: Ghost(0) };
        proof {
            assert(s.data@ =~= Seq::<u8>::empty());
        }
        s
    }
}

impl ByteSink for InterruptSink {
    open spec fn accepted(&self) -> Seq<u8> {
        self.data@
    }

    open spec fn zero_acks(&self) -> nat {
        0
    }

    open spec fn failures(&self) -> nat {
        0
    }

    open spec fn interrupts(&self) -> nat {
        self.taken@
    }

    fn write(&mut self, data: &[u8]) -> (r: Result<usize, SinkError>)
        ensures
            old(self).pending > 0 ==> r == Err::<usize, SinkError>(SinkError::Interrupted)
                && final(self).pending == old(self).pending - 1,
            old(self).pending == 0 ==> r == Ok::<usize, SinkError>(data@.len() as usize)
                && final(self).pending == 0,
    {
        if self.pending > 0 {
            self.pending = self.pending - 1;
            self.taken = Ghost(self.taken@ + 1);
            Err(SinkError::Interrupted)
        } else {
            self.data.extend_from_slice(data);
            proof {
                assert(data@.subrange(0, data@.len() as int) =~= data@);
            }
            Ok(data.len())
        }
    }

    fn flush(&mut self) -> (r: Result<(), SinkError>)
        ensures
            r == Ok::<(), SinkError>(()),
    {
        Ok(())
    }
}

} // verus!
