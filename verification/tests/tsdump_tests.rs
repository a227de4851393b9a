use pat_timing::tsdump::{
    extract_ts, ts_diff, ts_to_us, TsBlock, TsDump, BLOCK_LEN, BLOCK_SIZE, HEADER_SIZE, MAX_TS,
    TS_OFFSET,
};

const DATA: &[u8] = &[
    0x47, 0x00, 0x12, 0x14,
    0x47, 0x15, 0x37, 0x16,
    0x47, 0x15, 0x41, 0x12,
    0x47, 0x15, 0x2d, 0x1f,
    0x47, 0x00, 0xc9, 0x1f,
    0x47, 0x0f, 0xe8, 0x1c,
    0x47, 0x00, 0x65, 0x10,
    0x06, 0xde, 0x6b, 0xb8,
];

/// A block of zeroed headers whose clock field holds `word`.
fn block_with_clock(word: u32) -> Vec<u8> {
    let mut block = vec![0u8; TS_OFFSET];
    block.extend_from_slice(&word.to_be_bytes());
    block
}

#[test]
fn block_parse() {
    let mut i = TsDump::build(DATA);
    let q = i.next().unwrap();
    assert_eq!(q.packet(0), [71, 0, 18, 20]);
    assert_eq!(q.packet(1), [71, 21, 55, 22]);
    assert_eq!(q.ts, 115239864);
}

#[test]
fn ts_diff_test() {
    let t1: u32 = 123;
    let t2: u32 = 23;
    let t3: u32 = (MAX_TS - 1) as u32;
    let d1 = ts_diff(t1, t2);
    assert_eq!(d1, 100);
    let d2 = ts_diff(t2, t1);
    assert_eq!(d2, -100);
    let d3 = ts_diff(t3, t2);
    assert_eq!(d3, -25);

    let t4: u32 = 2801941399;
    let t5: u32 = 2802805678;
    let d4 = ts_diff(t4, t5);
    assert_eq!(d4, -864279);
}

#[test]
fn ts_to_us_test() {
    let v = ts_to_us(-865109);
    assert_eq!(v, -11534);
}

#[test]
fn layout_constants() {
    assert_eq!(BLOCK_SIZE, 7);
    assert_eq!(HEADER_SIZE, 4);
    assert_eq!(TS_OFFSET, 28);
    assert_eq!(BLOCK_LEN, 32);
    assert_eq!(MAX_TS, 134217727);
}

#[test]
fn ts_diff_of_a_reading_with_itself_is_zero() {
    for t in [0u32, 1, 23, 0x3FF_FFFF, 0x400_0000, MAX_TS - 1, MAX_TS] {
        assert_eq!(ts_diff(t, t), 0);
    }
}

#[test]
fn ts_diff_changes_sign_when_swapped() {
    let readings = [0u32, 1, 23, 123, 0x3FF_FFFF, 0x400_0000, 0x400_0001, MAX_TS - 1, MAX_TS];
    for a in readings {
        for b in readings {
            assert_eq!(ts_diff(a, b), -ts_diff(b, a));
        }
    }
}

#[test]
fn ts_diff_stays_within_half_a_turn() {
    let readings = [0u32, 1, 23, 123, 0x3FF_FFFF, 0x400_0000, 0x400_0001, MAX_TS - 1, MAX_TS];
    for a in readings {
        for b in readings {
            let d = ts_diff(a, b);
            assert!(-0x400_0000 <= d && d <= 0x400_0000);
            if b.wrapping_sub(a) != 0x400_0000 {
                assert!(-0x400_0000 < d);
            }
        }
    }
}

#[test]
fn ts_diff_at_half_a_turn() {
    assert_eq!(ts_diff(0x400_0000, 0), 0x400_0000);
    assert_eq!(ts_diff(0, 0x400_0000), -0x400_0000);
    assert_eq!(ts_diff(0x400_0001, 0), -0x3FF_FFFF);
    assert_eq!(ts_diff(0, 0x400_0001), 0x3FF_FFFF);
    assert_eq!(ts_diff(MAX_TS, 0x3FF_FFFF), 0x400_0000);
    assert_eq!(ts_diff(0x3FF_FFFF, MAX_TS), -0x400_0000);
}

#[test]
fn ts_diff_across_the_wrap() {
    assert_eq!(ts_diff(0, MAX_TS), 1);
    assert_eq!(ts_diff(MAX_TS, 0), -1);
    assert_eq!(ts_diff(1, MAX_TS), 2);
    assert_eq!(ts_diff(23, MAX_TS - 1), 25);
    assert_eq!(ts_diff(MAX_TS, 0x7FF_FF00), 255);
}

#[test]
fn ts_diff_of_words_above_the_clock() {
    assert_eq!(ts_diff(2802805678, 2801941399), 864279);
    assert_eq!(ts_diff(0xFFFF_FFFF, 0), -1);
    assert_eq!(ts_diff(0, 0xFFFF_FFFF), 1);
    assert_eq!(ts_diff(0x8000_0000, 0x8000_0001), -1);
    assert_eq!(ts_diff(0x7FFF_FFFF, 0), 0x77FF_FFFF);
    assert_eq!(ts_diff(0, 0x7FFF_FFFF), -0x77FF_FFFF);
}

#[test]
fn ts_to_us_rounds_toward_zero() {
    assert_eq!(ts_to_us(0), 0);
    assert_eq!(ts_to_us(74), 0);
    assert_eq!(ts_to_us(75), 1);
    assert_eq!(ts_to_us(149), 1);
    assert_eq!(ts_to_us(150), 2);
    assert_eq!(ts_to_us(-74), 0);
    assert_eq!(ts_to_us(-75), -1);
    assert_eq!(ts_to_us(-149), -1);
    assert_eq!(ts_to_us(-150), -2);
    assert_eq!(ts_to_us(-864279), -11523);
    assert_eq!(ts_to_us(864279), 11523);
    assert_eq!(ts_to_us(i32::MAX), 28633115);
    assert_eq!(ts_to_us(i32::MIN), -28633115);
}

#[test]
fn extract_ts_reads_the_field_big_endian() {
    assert_eq!(extract_ts(DATA), 0x06de6bb8);
    assert_eq!(extract_ts(&block_with_clock(0x0102_0304)), 0x0102_0304);
    assert_eq!(extract_ts(&block_with_clock(0xFFFF_FFFF)), 0xFFFF_FFFF);
    assert_eq!(extract_ts(&block_with_clock(0)), 0);
}

#[test]
fn packet_returns_each_header() {
    let mut dump = TsDump::build(DATA);
    let block = dump.next().unwrap();
    for i in 0..BLOCK_SIZE {
        assert_eq!(block.packet(i), &DATA[HEADER_SIZE * i..HEADER_SIZE * i + HEADER_SIZE]);
    }
    assert_eq!(block.packet(6), [0x47, 0x00, 0x65, 0x10]);
}

#[test]
fn default_block_is_all_zero() {
    let block = TsBlock::default();
    assert_eq!(block.ts, 0);
    for i in 0..BLOCK_SIZE {
        assert_eq!(block.packet(i), [0, 0, 0, 0]);
    }
}

#[test]
fn one_block_and_ten_bytes_more_give_one_block() {
    let mut stream = DATA.to_vec();
    stream.extend_from_slice(&[0x47, 0x00, 0x00, 0x10, 0x47, 0x00, 0x00, 0x11, 0x47, 0x00]);
    assert_eq!(stream.len(), BLOCK_LEN + 10);
    let mut dump = TsDump::build(&stream);
    let block = dump.next().unwrap();
    assert_eq!(block.ts, 115239864);
    assert_eq!(block.packet(0), [0x47, 0x00, 0x12, 0x14]);
    assert!(dump.next().is_none());
    assert!(dump.next().is_none());
}

#[test]
fn an_empty_stream_has_no_block() {
    let mut dump = TsDump::build(&[]);
    assert!(dump.next().is_none());
    assert!(dump.next().is_none());
}

#[test]
fn a_stream_shorter_than_a_block_has_no_block() {
    let mut dump = TsDump::build(&DATA[..BLOCK_LEN - 1]);
    assert!(dump.next().is_none());
}

#[test]
fn next_reads_the_blocks_in_order() {
    let mut stream = Vec::new();
    for word in [5u32, 80, 1000] {
        stream.extend_from_slice(&block_with_clock(word));
    }
    let mut dump = TsDump::build(&stream);
    assert_eq!(dump.next().unwrap().ts, 5);
    assert_eq!(dump.next().unwrap().ts, 80);
    assert_eq!(dump.next().unwrap().ts, 1000);
    assert!(dump.next().is_none());
}

#[test]
fn corrected_reading_follows_the_clock_across_a_wrap() {
    let mut dump = TsDump::build(&[]);
    let readings = [MAX_TS - 100, MAX_TS - 1, MAX_TS, 0, 3, 0x400_0003, 2, MAX_TS, 0x3FF_FFFF];
    for raw in readings {
        let block = dump.parse_block(block_with_clock(raw));
        assert_eq!(block.ts, raw);
    }
}

#[test]
fn high_bits_of_the_clock_field_are_dropped() {
    let mut dump = TsDump::build(&[]);
    assert_eq!(dump.parse_block(block_with_clock(0xF800_0005)).ts, 5);
    assert_eq!(dump.parse_block(block_with_clock(0x0800_0007)).ts, 7);
    assert_eq!(dump.parse_block(block_with_clock(0xFFFF_FFFF)).ts, MAX_TS);
    assert_eq!(dump.parse_block(block_with_clock(0x8000_0000)).ts, 0);
}

#[test]
fn parse_block_keeps_the_bytes() {
    let mut dump = TsDump::build(&[]);
    let block = dump.parse_block(DATA.to_vec());
    assert_eq!(block.ts, 115239864);
    assert_eq!(block.packet(2), [0x47, 0x15, 0x41, 0x12]);
    assert_eq!(block.packet(5), [0x47, 0x0f, 0xe8, 0x1c]);
}
