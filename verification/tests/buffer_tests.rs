use linebuf::BufWriter;
use linebuf::ChunkSink;
use linebuf::FailSink;
use linebuf::InterruptSink;
use linebuf::VecSink;
use linebuf::WriteError;
use linebuf::ZeroSink;

#[test]
fn capacity_is_clamped_to_the_floor() {
    let w = BufWriter::with_capacity(0, VecSink::new());
    assert_eq!(w.capacity(), 40);
    let w = BufWriter::with_capacity(39, VecSink::new());
    assert_eq!(w.capacity(), 40);
    let w = BufWriter::with_capacity(40, VecSink::new());
    assert_eq!(w.capacity(), 40);
    let w = BufWriter::with_capacity(64, VecSink::new());
    assert_eq!(w.capacity(), 64);
}

#[test]
fn small_writes_are_staged_without_touching_the_sink() {
    let mut w = BufWriter::with_capacity(64, VecSink::new());
    w.write_all(b"Hello, ".as_slice()).unwrap();
    w.write_all(b"world".as_slice()).unwrap();
    assert_eq!(w.staged_len(), 12);
    assert_eq!(w.sink_ref().data.len(), 0);
    w.flush().unwrap();
    assert_eq!(w.staged_len(), 0);
    assert_eq!(w.sink_ref().data.as_slice(), b"Hello, world".as_slice());
}

#[test]
fn empty_write_is_a_no_op_that_succeeds() {
    let mut w = BufWriter::with_capacity(40, VecSink::new());
    let n = w.write(b"".as_slice()).unwrap();
    assert_eq!(n, 0);
    assert_eq!(w.staged_len(), 0);
    w.flush().unwrap();
    assert_eq!(w.sink_ref().data.len(), 0);
}

#[test]
fn oversize_write_bypasses_the_buffer() {
    let mut w = BufWriter::with_capacity(40, VecSink::new());
    let data = b"this payload is noticeably longer than the whole buffer region";
    assert!(data.len() > 40);
    let n = w.write(data.as_slice()).unwrap();
    assert_eq!(n, data.len());
    assert_eq!(w.staged_len(), 0);
    assert_eq!(w.sink_ref().data.as_slice(), data.as_slice());
}

#[test]
fn oversize_write_may_be_partial_like_the_sink() {
    let mut w = BufWriter::with_capacity(40, ChunkSink::new(1));
    let data = b"another payload noticeably longer than the whole buffer region";
    assert!(data.len() > 40);
    let n = w.write(data.as_slice()).unwrap();
    assert_eq!(n, 1);
    assert_eq!(w.sink_ref().data.as_slice(), b"a".as_slice());
}

#[test]
fn flush_recovers_from_partial_writes_of_one_byte() {
    let mut w = BufWriter::with_capacity(0, ChunkSink::new(1));
    w.write_all(b"abcdefghijkl".as_slice()).unwrap();
    assert_eq!(w.staged_len(), 12);
    w.flush().unwrap();
    assert_eq!(w.staged_len(), 0);
    assert_eq!(w.sink_ref().data.as_slice(), b"abcdefghijkl".as_slice());
}

#[test]
fn flush_resumes_on_the_suffix_after_larger_partial_writes() {
    let mut w = BufWriter::with_capacity(40, ChunkSink::new(5));
    w.write_all(b"0123456789abcdef".as_slice()).unwrap();
    w.flush().unwrap();
    assert_eq!(w.sink_ref().data.as_slice(), b"0123456789abcdef".as_slice());
}

#[test]
fn zero_length_sink_write_is_fatal_and_delivers_nothing_twice() {
    let mut w = BufWriter::with_capacity(40, ZeroSink::new());
    w.write_all(b"abc".as_slice()).unwrap();
    let r = w.flush();
    assert_eq!(r, Err(WriteError::WriteZero));
    assert_eq!(w.staged_len(), 3);
    let r = w.flush();
    assert_eq!(r, Err(WriteError::WriteZero));
    assert_eq!(w.staged_len(), 3);
}

#[test]
fn interruptions_are_retried_without_losing_bytes() {
    let mut w = BufWriter::with_capacity(40, InterruptSink::new(3));
    w.write_all(b"xyz".as_slice()).unwrap();
    w.flush().unwrap();
    assert_eq!(w.sink_ref().data.as_slice(), b"xyz".as_slice());
}

#[test]
fn a_failing_sink_surfaces_a_sink_error_and_keeps_the_bytes() {
    let mut w = BufWriter::with_capacity(40, FailSink::new());
    w.write_all(b"abc".as_slice()).unwrap();
    let r = w.flush();
    assert_eq!(r, Err(WriteError::Sink));
    assert_eq!(w.staged_len(), 3);
}

#[test]
fn a_failing_sink_fails_the_direct_write_too() {
    let mut w = BufWriter::with_capacity(40, FailSink::new());
    let data = b"a direct payload noticeably longer than the whole buffer region";
    assert!(data.len() > 40);
    let r = w.write(data.as_slice());
    assert_eq!(r, Err(WriteError::Sink));
}

#[test]
fn partial_delivery_keeps_every_byte_exactly_once() {
    // a sink that accepts one byte per call: every flush is a run of
    // partial writes resumed on the remaining suffix
    let mut w = BufWriter::with_capacity(40, ChunkSink::new(1));
    w.write_all(b"abcd".as_slice()).unwrap();
    w.flush().unwrap();
    assert_eq!(w.sink_ref().data.as_slice(), b"abcd".as_slice());
    w.write_all(b"efgh".as_slice()).unwrap();
    w.flush().unwrap();
    // everything arrived exactly once, in order
    assert_eq!(w.sink_ref().data.as_slice(), b"abcdefgh".as_slice());
}

#[test]
fn write_int_formats_decimal_values_exactly() {
    let mut w = BufWriter::with_capacity(64, VecSink::new());
    assert_eq!(w.write_int(0).unwrap(), 1);
    assert_eq!(w.write_int(7).unwrap(), 1);
    assert_eq!(w.write_int(42).unwrap(), 2);
    assert_eq!(w.write_int(4294967295).unwrap(), 10);
    w.flush().unwrap();
    assert_eq!(w.sink_ref().data.as_slice(), b"07424294967295".as_slice());
}

#[test]
fn write_int_flushes_first_when_headroom_is_short() {
    let mut w = BufWriter::with_capacity(40, VecSink::new());
    let filler = vec![b'a'; 35];
    w.write_all(&filler).unwrap();
    assert_eq!(w.write_int(123456).unwrap(), 6);
    // the staged prefix had to leave before the digits were formatted
    assert_eq!(w.sink_ref().data.as_slice(), filler.as_slice());
    assert_eq!(w.staged_len(), 6);
    w.flush().unwrap();
    assert_eq!(&w.sink_ref().data[35..], b"123456".as_slice());
}

#[test]
fn finalize_drains_what_remains() {
    let mut w = BufWriter::with_capacity(64, VecSink::new());
    w.write_all(b"tail".as_slice()).unwrap();
    w.finalize();
    assert_eq!(w.staged_len(), 0);
    assert_eq!(w.sink_ref().data.as_slice(), b"tail".as_slice());
}

#[test]
fn finalize_swallows_sink_failures() {
    let mut w = BufWriter::with_capacity(40, ZeroSink::new());
    w.write_all(b"abc".as_slice()).unwrap();
    w.finalize();
    assert_eq!(w.staged_len(), 3);
}

#[test]
fn three_hello_lines_byte_for_byte() {
    let mut w = BufWriter::with_capacity(0, VecSink::new());
    for i in 0..3u32 {
        w.write_all(b"Hello, ".as_slice()).unwrap();
        w.write_int(i).unwrap();
        w.write_all(b"\t".as_slice()).unwrap();
    }
    w.flush().unwrap();
    assert_eq!(
        w.sink_ref().data.as_slice(),
        b"Hello, 0\tHello, 1\tHello, 2\t".as_slice()
    );
}

#[test]
fn hello_lines_survive_a_mid_stream_flush() {
    // five lines are 45 bytes, more than the floor capacity of 40, so the
    // buffer must flush mid-stream; the delivered bytes are identical
    // wherever the flush boundary falls
    let mut w = BufWriter::with_capacity(0, VecSink::new());
    let mut flushed_midway = false;
    for i in 0..5u32 {
        w.write_all(b"Hello, ".as_slice()).unwrap();
        w.write_int(i).unwrap();
        w.write_all(b"\t".as_slice()).unwrap();
        if !w.sink_ref().data.is_empty() {
            flushed_midway = true;
        }
    }
    assert!(flushed_midway);
    w.flush().unwrap();
    assert_eq!(
        w.sink_ref().data.as_slice(),
        b"Hello, 0\tHello, 1\tHello, 2\tHello, 3\tHello, 4\t".as_slice()
    );
}

#[test]
fn interleaved_writes_and_flushes_round_trip() {
    let mut w = BufWriter::with_capacity(40, ChunkSink::new(3));
    let mut expected: Vec<u8> = Vec::new();
    let pieces: [&[u8]; 6] = [
        b"alpha".as_slice(),
        b"\t".as_slice(),
        b"b".as_slice(),
        b"gamma gamma".as_slice(),
        b"".as_slice(),
        b"a piece noticeably longer than the whole buffer region it crosses".as_slice(),
    ];
    for (k, piece) in pieces.iter().enumerate() {
        if piece.len() <= 40 {
            w.write_all(piece).unwrap();
            expected.extend_from_slice(piece);
        } else {
            // oversize pieces go to the sink directly and may be partial
            let n = w.write(piece).unwrap();
            expected.extend_from_slice(&piece[..n]);
        }
        if k % 2 == 1 {
            w.flush().unwrap();
        }
    }
    w.flush().unwrap();
    assert_eq!(w.sink_ref().data, expected);
}
