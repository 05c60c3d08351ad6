use linebuf::increase_str_num;
use linebuf::memcpy_16;
use linebuf::BufWriter;
use linebuf::NumeralCursor;
use linebuf::VecSink;

#[test]
fn cursor_starts_at_zero() {
    let c = NumeralCursor::new();
    assert_eq!(c.current_digits(), b"0".as_slice());
    assert_eq!(c.significant_len(), 1);
}

#[test]
fn cursor_counts_exactly_like_reformatting() {
    let mut c = NumeralCursor::new();
    for i in 1..=10000u32 {
        let n = c.increment();
        let expect = format!("{}", i);
        assert_eq!(n, expect.len());
        assert_eq!(c.significant_len(), expect.len());
        assert_eq!(c.current_digits(), expect.as_bytes());
    }
}

#[test]
fn significant_length_grows_at_each_power_of_ten() {
    let mut c = NumeralCursor::new();
    let mut lengths: Vec<(u32, usize)> = Vec::new();
    let mut last = c.significant_len();
    for i in 1..=10000u32 {
        c.increment();
        let n = c.significant_len();
        if n != last {
            lengths.push((i, n));
            last = n;
        }
    }
    assert_eq!(lengths, vec![(10, 2), (100, 3), (1000, 4), (10000, 5)]);
}

#[test]
fn carry_wraps_trailing_nines() {
    let mut v = b"000000000009".to_vec();
    let grown = increase_str_num(&mut v);
    assert_eq!(v, b"000000000010".to_vec());
    assert_eq!(grown, 2);

    let mut v = b"000000000123".to_vec();
    let grown = increase_str_num(&mut v);
    assert_eq!(v, b"000000000124".to_vec());
    assert_eq!(grown, 0);

    let mut v = b"000000999999".to_vec();
    let grown = increase_str_num(&mut v);
    assert_eq!(v, b"000001000000".to_vec());
    assert_eq!(grown, 7);

    let mut v = b"000000120099".to_vec();
    let grown = increase_str_num(&mut v);
    assert_eq!(v, b"000000120100".to_vec());
    assert_eq!(grown, 3);
}

#[test]
fn carry_reaches_the_top_slot() {
    let mut v = b"099999999999".to_vec();
    let grown = increase_str_num(&mut v);
    assert_eq!(v, b"100000000000".to_vec());
    assert_eq!(grown, 12);
}

#[test]
fn fixed_copy_equals_a_byte_for_byte_copy() {
    for len in 0..=16usize {
        for seed in 0..4u8 {
            let mut src: Vec<u8> = Vec::new();
            for i in 0..len {
                src.push((i as u8).wrapping_mul(31).wrapping_add(7).wrapping_add(seed));
            }
            let mut dst: Vec<u8> = vec![0xAA; 24];
            memcpy_16(&src, &mut dst, 3, len);
            let mut expect: Vec<u8> = vec![0xAA; 24];
            for i in 0..len {
                expect[3 + i] = src[i];
            }
            assert_eq!(dst, expect);
        }
    }
}

#[test]
fn fixed_copy_leaves_the_surroundings_alone() {
    let src = b"0123456789abcdef".to_vec();
    let mut dst: Vec<u8> = vec![0x55; 20];
    memcpy_16(&src, &mut dst, 2, 16);
    assert_eq!(&dst[..2], [0x55, 0x55].as_slice());
    assert_eq!(&dst[2..18], src.as_slice());
    assert_eq!(&dst[18..], [0x55, 0x55].as_slice());
}

#[test]
fn cursor_digits_flow_into_the_buffer() {
    let mut w = BufWriter::with_capacity(40, VecSink::new());
    let mut c = NumeralCursor::new();
    for _ in 0..12u32 {
        w.write_numeral(&c).unwrap();
        w.write_all(b"\t".as_slice()).unwrap();
        c.increment();
    }
    w.flush().unwrap();
    assert_eq!(
        w.sink_ref().data.as_slice(),
        b"0\t1\t2\t3\t4\t5\t6\t7\t8\t9\t10\t11\t".as_slice()
    );
}
