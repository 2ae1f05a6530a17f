use haste::bitreader::{BitAngle, BitCoord, BitError, BitNormal, BitReader, BitVec3Normal};

/// Packs values of the given numbers of bits, the lowest bit first.
fn pack(fields: &[(u64, usize)]) -> Vec<u8> {
    let mut bits: Vec<bool> = Vec::new();
    for (value, width) in fields {
        for i in 0..*width {
            bits.push((value >> i) & 1 == 1);
        }
    }
    let mut bytes = vec![0u8; (bits.len() + 7) / 8];
    for (i, bit) in bits.iter().enumerate() {
        if *bit {
            bytes[i / 8] |= 1 << (i % 8);
        }
    }
    bytes
}

#[test]
fn test_read_string() {
    let buf = b"Life's but a walking shadow, a poor player.\0";
    let mut br = BitReader::new(buf);

    let mut out = vec![0u8; buf.len()];
    let num_chars = br.read_string(&mut out, false).unwrap();
    assert_eq!(&out, &buf);
    assert_eq!(num_chars, buf.len() - 1);
}

#[test]
fn string_is_read_to_its_end_even_where_it_does_not_fit() {
    let data = b"abcdef\0Z";
    let mut br = BitReader::new(data);
    let mut out = [9u8; 4];
    assert_eq!(br.read_string(&mut out, false), Err(BitError::BufferTooSmall));
    assert_eq!(&out, b"abc\0");
    assert_eq!(br.read_byte(), Ok(b'Z'));
}

#[test]
fn string_that_just_fits() {
    let data = b"abc\0Z";
    let mut br = BitReader::new(data);
    let mut out = [9u8; 4];
    assert_eq!(br.read_string(&mut out, false), Ok(3));
    assert_eq!(&out, b"abc\0");
}

#[test]
fn line_ends_at_line_feed() {
    let data = b"ab\ncd\0";
    let mut br = BitReader::new(data);
    let mut out = [9u8; 8];
    assert_eq!(br.read_string(&mut out, true), Ok(2));
    assert_eq!(&out, b"ab\0\x09\x09\x09\x09\x09");
    assert_eq!(br.read_string(&mut out, false), Ok(2));
    assert_eq!(&out[..3], b"cd\0");

    let mut br = BitReader::new(data);
    assert_eq!(br.read_string(&mut out, false), Ok(5));
    assert_eq!(&out[..6], b"ab\ncd\0");
}

#[test]
fn string_without_room_is_read_to_its_end() {
    let data = b"ab\0c";
    let mut br = BitReader::new(data);
    let mut out: [u8; 0] = [];
    assert_eq!(br.read_string(&mut out, false), Err(BitError::BufferTooSmall));
    assert_eq!(br.read_byte(), Ok(b'c'));
    assert_eq!(br.read_string(&mut out, false), Err(BitError::Overflow));
    assert_eq!(BitReader::new(b"\0").read_string(&mut out, false), Err(BitError::BufferTooSmall));
}

#[test]
fn unterminated_string_overflows_and_is_still_terminated() {
    let data = b"ab";
    let mut br = BitReader::new(data);
    let mut out = [9u8; 8];
    assert_eq!(br.read_string(&mut out, false), Err(BitError::Overflow));
    assert_eq!(&out[..3], b"ab\0");
    assert_eq!(br.num_bits_left(), 0);
}

#[test]
fn bits_come_lowest_first() {
    let data = [0b1011_0101u8, 0b0000_0011];
    let mut br = BitReader::new(&data);
    assert_eq!(br.num_bits_left(), 16);
    assert_eq!(br.read_ubit64(3), Ok(0b101));
    assert_eq!(br.read_ubit64(7), Ok(0b11_10110));
    assert_eq!(br.position(), 10);
    assert_eq!(br.num_bits_left(), 6);
    assert_eq!(br.read_ubit64(7), Err(BitError::Overflow));
    assert_eq!(br.num_bits_left(), 6);
    assert_eq!(br.read_ubit64(6), Ok(0));
    assert_eq!(br.read_bool(), Err(BitError::Overflow));
    assert_eq!(br.is_overflowed(), Ok(()));
}

#[test]
fn reading_in_parts_is_reading_at_once() {
    let data = [0x12u8, 0x34, 0x56, 0x78, 0x9a, 0xbc, 0xde, 0xf0, 0x5a];
    for shift in 0..8usize {
        for first in 0..=64usize {
            let mut whole = BitReader::resume_at(&data, shift);
            let mut parts = BitReader::resume_at(&data, shift);
            let all = whole.read_ubit64(64).unwrap();
            let low = parts.read_ubit64(first).unwrap() as u128;
            let high = parts.read_ubit64(64 - first).unwrap() as u128;
            assert_eq!(all as u128, low + (high << first));
            assert_eq!(whole.position(), parts.position());
        }
    }
}

#[test]
fn all_64_bits_at_once() {
    let data = [0xffu8; 8];
    let mut br = BitReader::new(&data);
    assert_eq!(br.read_ubit64(64), Ok(u64::MAX));
    assert_eq!(br.read_ubit64(0), Ok(0));
    assert_eq!(br.read_ubit64(1), Err(BitError::Overflow));
}

#[test]
fn flags_and_bytes_across_byte_borders() {
    let data = pack(&[(1, 1), (0xa5, 8), (0, 1), (0x3c, 8)]);
    let mut br = BitReader::new(&data);
    assert_eq!(br.read_bool(), Ok(true));
    assert_eq!(br.read_byte(), Ok(0xa5));
    assert_eq!(br.read_bool(), Ok(false));
    assert_eq!(br.read_byte(), Ok(0x3c));
    assert_eq!(br.read_byte(), Err(BitError::Overflow));
}

#[test]
fn bits_into_a_buffer() {
    let data = pack(&[(1, 1), (0x5_a5c3, 19), (0, 4)]);
    let mut br = BitReader::new(&data);
    br.read_bool().unwrap();
    let mut out = [0xffu8; 4];
    assert_eq!(br.read_bits(&mut out, 19), Ok(()));
    assert_eq!(out, [0xc3, 0xa5, 0x05, 0xff]);
    assert_eq!(br.num_bits_left(), 4);
    assert_eq!(br.read_bits(&mut out, 5), Err(BitError::Overflow));
    assert_eq!(br.read_bits(&mut out, 33), Err(BitError::BufferTooSmall));
    assert_eq!(out, [0xc3, 0xa5, 0x05, 0xff]);
}

#[test]
fn bytes_into_a_buffer() {
    let data = [0x10u8, 0x32, 0x54];
    let mut br = BitReader::new(&data);
    br.read_ubit64(4).unwrap();
    let mut out = [0u8; 2];
    assert_eq!(br.read_bytes(&mut out), Ok(()));
    assert_eq!(out, [0x21, 0x43]);
    assert_eq!(br.read_bytes(&mut out), Err(BitError::Overflow));
    assert_eq!(br.num_bits_left(), 4);
}

#[test]
fn unsigned_varints() {
    let data = [0x96u8, 0x01, 0x05, 0xff, 0xff, 0xff, 0xff, 0x0f];
    let mut br = BitReader::new(&data);
    assert_eq!(br.read_uvarint32(), Ok(150));
    assert_eq!(br.read_uvarint32(), Ok(5));
    assert_eq!(br.read_uvarint32(), Ok(u32::MAX));
    assert_eq!(br.read_uvarint32(), Err(BitError::Overflow));

    let data = [0xffu8, 0xff, 0xff, 0xff, 0xff, 0xff, 0xff, 0xff, 0xff, 0x01];
    assert_eq!(BitReader::new(&data).read_uvarint64(), Ok(u64::MAX));
    assert_eq!(BitReader::new(&data).read_uvarint32(), Err(BitError::MalformedVarint));
    let data = [0x80u8; 11];
    assert_eq!(BitReader::new(&data).read_uvarint64(), Err(BitError::MalformedVarint));
    assert_eq!(BitReader::new(&data[..3]).read_uvarint64(), Err(BitError::Overflow));
}

#[test]
fn signed_varints() {
    for (byte, value) in [(0u8, 0i32), (1, -1), (2, 1), (3, -2), (4, 2)] {
        assert_eq!(BitReader::new(&[byte]).read_varint32(), Ok(value));
        assert_eq!(BitReader::new(&[byte]).read_varint64(), Ok(value as i64));
    }
    let data = [0xffu8, 0xff, 0xff, 0xff, 0x0f];
    assert_eq!(BitReader::new(&data).read_varint32(), Ok(i32::MIN));
    let data = [0xfeu8, 0xff, 0xff, 0xff, 0x0f];
    assert_eq!(BitReader::new(&data).read_varint32(), Ok(i32::MAX));
    let data = [0xffu8, 0xff, 0xff, 0xff, 0xff, 0xff, 0xff, 0xff, 0xff, 0x01];
    assert_eq!(BitReader::new(&data).read_varint64(), Ok(i64::MIN));
}

#[test]
fn ubitvar_in_all_four_widths() {
    let data = pack(&[
        (0b00_1010, 6),
        (0b01_0011, 6),
        (0b1001, 4),
        (0b10_0101, 6),
        (0xab, 8),
        (0b11_1111, 6),
        (0xfff_ffff, 28),
    ]);
    let mut br = BitReader::new(&data);
    assert_eq!(br.read_ubitvar(), Ok(10));
    assert_eq!(br.read_ubitvar(), Ok(0x93));
    assert_eq!(br.read_ubitvar(), Ok(0xab5));
    assert_eq!(br.read_ubitvar(), Ok(u32::MAX));
    assert_eq!(br.position(), 64);
    assert_eq!(br.read_ubitvar(), Err(BitError::Overflow));
}

#[test]
fn ubitvarfp_in_all_five_widths() {
    let data = pack(&[
        (1, 1),
        (0b10, 2),
        (0b10, 2),
        (0b1101, 4),
        (0b100, 3),
        (0x3a5, 10),
        (0b1000, 4),
        (0x1_2345, 17),
        (0b0000, 4),
        (0x7654_3210, 31),
    ]);
    let mut br = BitReader::new(&data);
    assert_eq!(br.read_ubitvarfp(), Ok(2));
    assert_eq!(br.read_ubitvarfp(), Ok(13));
    assert_eq!(br.read_ubitvarfp(), Ok(0x3a5));
    assert_eq!(br.read_ubitvarfp(), Ok(0x1_2345));
    assert_eq!(br.read_ubitvarfp(), Ok(0x7654_3210));
    assert_eq!(BitReader::new(&[]).read_ubitvarfp(), Err(BitError::Overflow));
}

#[test]
fn float_bit_pattern() {
    let data = 1.5f32.to_le_bytes();
    assert_eq!(BitReader::new(&data).read_bitfloat().map(f32::from_bits), Ok(1.5));
    assert_eq!(BitReader::new(&data[..3]).read_bitfloat(), Err(BitError::Overflow));
}

#[test]
fn coordinates() {
    let zero = BitCoord { negative: false, intval: 0, fractval: 0 };
    let data = pack(&[(0b00, 2), (0b111, 3), (41, 14), (16, 5), (0b001, 3), (0, 14), (0b110, 3), (31, 5)]);
    let mut br = BitReader::new(&data);
    assert_eq!(br.read_bitcoord(), Ok(zero));
    assert_eq!(br.read_bitcoord(), Ok(BitCoord { negative: true, intval: 42, fractval: 16 }));
    assert_eq!(br.read_bitcoord(), Ok(BitCoord { negative: false, intval: 1, fractval: 0 }));
    assert_eq!(br.read_bitcoord(), Ok(BitCoord { negative: true, intval: 0, fractval: 31 }));

    let data = pack(&[(0b101, 3), (0, 3), (0b011, 3), (7, 14), (3, 5)]);
    let mut br = BitReader::new(&data[..0]);
    assert_eq!(br.read_bitcoord(), Err(BitError::Overflow));
    let mut br = BitReader::new(&[0b0000_0001]);
    assert_eq!(br.read_bitcoord(), Err(BitError::Overflow));
    let mut br = BitReader::new(&data);
    br.read_ubit64(6).unwrap();
    assert_eq!(br.read_bitcoord(), Ok(BitCoord { negative: false, intval: 8, fractval: 3 }));
}

#[test]
fn normals() {
    let data = pack(&[(1, 1), (2047, 11), (0, 1), (5, 11)]);
    let mut br = BitReader::new(&data);
    assert_eq!(br.read_bitnormal(), Ok(BitNormal { negative: true, fractval: 2047 }));
    assert_eq!(br.read_bitnormal(), Ok(BitNormal { negative: false, fractval: 5 }));
    assert_eq!(br.read_bitnormal(), Err(BitError::Overflow));
}

#[test]
fn three_coordinates() {
    let zero = BitCoord { negative: false, intval: 0, fractval: 0 };
    let data = pack(&[(0b101, 3), (0b001, 3), (9, 14), (0b010, 3), (4, 5)]);
    let mut br = BitReader::new(&data);
    assert_eq!(
        br.read_bitvec3coord(),
        Ok([
            BitCoord { negative: false, intval: 10, fractval: 0 },
            zero,
            BitCoord { negative: false, intval: 0, fractval: 4 },
        ])
    );
    assert_eq!(BitReader::new(&[]).read_bitvec3coord(), Err(BitError::Overflow));
}

#[test]
fn normal_with_implied_third_component() {
    let data = pack(&[(0b10, 2), (1, 1), (1024, 11), (1, 1)]);
    let mut br = BitReader::new(&data);
    assert_eq!(
        br.read_bitvec3normal(),
        Ok(BitVec3Normal {
            x: BitNormal { negative: false, fractval: 0 },
            y: BitNormal { negative: true, fractval: 1024 },
            znegative: true,
        })
    );
    assert_eq!(BitReader::new(&[]).read_bitvec3normal(), Err(BitError::Overflow));
}

#[test]
fn angles() {
    let data = pack(&[(192, 8)]);
    let mut br = BitReader::new(&data);
    assert_eq!(br.read_bitangle(8), Ok(BitAngle { value: 192, full_turn: 256 }));
    assert_eq!(br.read_bitangle(1), Err(BitError::Overflow));
    assert_eq!(br.read_bitangle(0), Ok(BitAngle { value: 0, full_turn: 1 }));
    let data = [0xffu8; 8];
    assert_eq!(
        BitReader::new(&data).read_bitangle(64),
        Ok(BitAngle { value: u64::MAX, full_turn: 1 << 64 })
    );
}
