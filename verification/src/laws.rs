//! The flush protocol's guarantees, instantiated at the in-memory sinks
//! and checked statically against the contracts alone: a cooperative sink
//! provably receives every staged byte, a partial sink provably loses
//! none, and a zero-acknowledging sink provably turns the flush fatal.

use vstd::prelude::*;
use crate::digits::dec_digits;
use crate::writer::{BufWriter, WriteError};
use crate::sink::{ByteSink, ChunkSink, VecSink, ZeroSink};

verus! {

/// Over a sink that accepts everything and never fails, a flush must
/// succeed and deliver exactly the staged bytes: the sink's event
/// accounts are fixed at zero by its type, which rules both errors out.
pub fn flush_over_vec_sink_succeeds() {
    let s = VecSink::new();
    let mut w = BufWriter::with_capacity(40, s);
    let mut v: Vec<u8> = Vec::new();
    v.push(72u8);
    let r1 = w.write(v.as_slice());
    assert(r1 is Ok);
    let r = w.flush();
    let s_after = w.sink_ref();
    assert(s_after.zero_acks() == 0 && s_after.failures() == 0 && s_after.interrupts() == 0);
    match r {
        Ok(_) => {}
        Err(WriteError::WriteZero) => {
            proof {
                assert(false);
            }
        },
        Err(WriteError::Sink) => {
            proof {
                assert(false);
            }
        },
    }
    assert(r is Ok);
    assert(w.sunk() =~= seq![72u8]);
}

/// Partial-write recovery: a sink that takes one byte per call still
/// provably receives every staged byte, in order, with no duplication.
pub fn flush_over_chunk_sink_delivers_all() {
    let mut w = BufWriter::with_capacity(40, ChunkSink::new(1));
    let mut v: Vec<u8> = Vec::new();
    v.push(72u8);
    v.push(105u8);
    let r1 = w.write(v.as_slice());
    assert(r1 is Ok);
    let r = w.flush_buf();
    let s_after = w.sink_ref();
    assert(s_after.zero_acks() == 0 && s_after.failures() == 0 && s_after.interrupts() == 0);
    match r {
        Ok(_) => {}
        Err(WriteError::WriteZero) => {
            proof {
                assert(false);
            }
        },
        Err(WriteError::Sink) => {
            proof {
                assert(false);
            }
        },
    }
    assert(r is Ok);
    assert(w.sunk() =~= seq![72u8, 105u8]);
}

/// Zero-write fatality: a sink that acknowledges zero bytes while staged
/// bytes remain provably makes the flush fail with `WriteZero`, with the
/// staged bytes kept and nothing delivered.
pub fn flush_over_zero_sink_is_write_zero() {
    let mut w = BufWriter::with_capacity(40, ZeroSink::new());
    let mut v: Vec<u8> = Vec::new();
    v.push(72u8);
    let r1 = w.write(v.as_slice());
    assert(r1 is Ok);
    let r = w.flush_buf();
    let s_after = w.sink_ref();
    assert(s_after.failures() == 0 && s_after.interrupts() == 0);
    assert(s_after.accepted() =~= Seq::<u8>::empty());
    match r {
        Ok(_) => {
            proof {
                assert(w.staged().len() == 0);
                assert(w.stream().len() == 1);
                assert(false);
            }
        },
        Err(WriteError::WriteZero) => {}
        Err(WriteError::Sink) => {
            proof {
                assert(false);
            }
        },
    }
    assert(r == Err::<(), WriteError>(WriteError::WriteZero));
    assert(w.staged() =~= seq![72u8]);
}

/// The end-to-end example: three `Hello, <n>` elements, tab-separated,
/// written through the buffer over a cooperative sink come out
/// byte-for-byte, and the closing flush provably succeeds.
pub fn three_elements_over_a_cooperative_sink() {
    let mut w = BufWriter::with_capacity(40, VecSink::new());
    let mut greeting: Vec<u8> = Vec::new();
    greeting.push(72u8);
    greeting.push(101u8);
    greeting.push(108u8);
    greeting.push(108u8);
    greeting.push(111u8);
    greeting.push(44u8);
    greeting.push(32u8);
    let mut tab: Vec<u8> = Vec::new();
    tab.push(9u8);
    let mut i: u32 = 0;
    while i < 3
        invariant
            w.wf(),
            w.cap() == 40,
            i <= 3,
            w.sunk() =~= Seq::<u8>::empty(),
            greeting@ =~= seq![72u8, 101u8, 108u8, 108u8, 111u8, 44u8, 32u8],
            tab@ =~= seq![9u8],
            w.staged() =~= hello_lines(i as nat),
            w.staged().len() == 9 * (i as int),
        decreases 3 - i,
    {
        let r1 = w.write_all(greeting.as_slice());
        assert(r1 is Ok);
        let r2 = w.write_int(i);
        assert(r2 is Ok);
        let r3 = w.write_all(tab.as_slice());
        assert(r3 is Ok);
        proof {
            assert(dec_digits(i as nat) =~= seq![(48 + i) as u8]);
            assert(w.staged() =~= hello_lines(i as nat) + greeting@ + dec_digits(i as nat)
                + tab@);
            assert(w.staged() =~= hello_lines((i + 1) as nat));
        }
        i += 1;
    }
    let s_before = w.sink_ref();
    assert(s_before.zero_acks() == 0 && s_before.failures() == 0 && s_before.interrupts() == 0);
    let r = w.flush();
    let s_after = w.sink_ref();
    assert(s_after.zero_acks() == 0 && s_after.failures() == 0 && s_after.interrupts() == 0);
    match r {
        Ok(_) => {}
        Err(WriteError::WriteZero) => {
            proof {
                assert(false);
            }
        },
        Err(WriteError::Sink) => {
            proof {
                assert(false);
            }
        },
    }
    assert(r is Ok);
    assert(w.sunk() =~= hello_lines(3));
}

/// The first `n` lines of the emitted text: `Hello, 0\tHello, 1\t…`,
/// one line per value below `n`.
pub open spec fn hello_lines(n: nat) -> Seq<u8>
    decreases n,
{
    if n == 0 {
        Seq::empty()
    } else {
        hello_lines((n - 1) as nat) + seq![72u8, 101u8, 108u8, 108u8, 111u8, 44u8, 32u8]
            + dec_digits((n - 1) as nat) + seq![9u8]
    }
}

} // verus!
