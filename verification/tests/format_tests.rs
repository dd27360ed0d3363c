//! Bit-exact wire format checks and decode failure checks.

use nimble::config;
use nimble::decode;
use nimble::encode;
use nimble::Config;
use nimble::Encode;
use nimble::Endianness;
use nimble::Error;
use nimble::VarInt;
use nimble::ZigZag;

#[test]
fn default_config_is_little_endian() {
    let c = config();
    assert_eq!(c.endianness, Endianness::LittleEndian);
    assert_eq!(Config::default(), Config::new_default());
    assert_eq!(Endianness::new_default(), Endianness::LittleEndian);
}

#[test]
fn little_endian_fixed_width_layout() {
    assert_eq!(encode(&0x0102u16), vec![0x02, 0x01]);
    assert_eq!(encode(&0x01020304u32), vec![0x04, 0x03, 0x02, 0x01]);
    assert_eq!(
        encode(&0x0102030405060708u64),
        vec![0x08, 0x07, 0x06, 0x05, 0x04, 0x03, 0x02, 0x01]
    );
    assert_eq!(encode(&-2i8), vec![0xFE]);
    assert_eq!(encode(&-2i32), vec![0xFE, 0xFF, 0xFF, 0xFF]);
}

#[test]
fn big_endian_fixed_width_layout() {
    let c = Config {
        endianness: Endianness::BigEndian,
    };
    assert_eq!(c.encode(&0x0102u16), vec![0x01, 0x02]);
    assert_eq!(c.encode(&0x01020304u32), vec![0x01, 0x02, 0x03, 0x04]);
    assert_eq!(c.encode(&-2i16), vec![0xFF, 0xFE]);
    let decoded: u32 = c.decode(&[0x01, 0x02, 0x03, 0x04]).unwrap();
    assert_eq!(decoded, 0x01020304);
}

#[test]
fn bool_and_char_layout() {
    assert_eq!(encode(&true), vec![0x01]);
    assert_eq!(encode(&false), vec![0x00]);
    assert_eq!(encode(&'A'), vec![0x41, 0x00, 0x00, 0x00]);
    let decoded: char = decode(&encode(&'\u{1F600}')).unwrap();
    assert_eq!(decoded, '\u{1F600}');
}

#[test]
fn invalid_char_is_rejected() {
    // 0xD800 is a surrogate code point, not a Unicode scalar value.
    let r: Result<char, Error> = decode(&[0x00, 0xD8, 0x00, 0x00]);
    assert_eq!(r, Err(Error::InvalidChar(0xD800)));
}

#[test]
fn varint_layout() {
    assert_eq!(encode(&VarInt::from_u128(0)), vec![0x00]);
    assert_eq!(encode(&VarInt::from_u128(127)), vec![0x7F]);
    assert_eq!(encode(&VarInt::from_u128(128)), vec![0x80, 0x01]);
    assert_eq!(encode(&VarInt::from_u128(300)), vec![0xAC, 0x02]);
}

#[test]
fn varint_round_trips_across_magnitudes() {
    let magnitudes: Vec<u128> = vec![
        0,
        1,
        127,
        128,
        129,
        16383,
        16384,
        u64::MAX as u128,
        u128::MAX - 1,
        u128::MAX,
    ];
    for m in magnitudes {
        let original = VarInt::from_u128(m);
        let encoded = encode(&original);
        assert_eq!(original.size(), encoded.len());
        let decoded: VarInt = decode(&encoded).unwrap();
        assert_eq!(original, decoded);
        assert_eq!(decoded.to_u128(), m);
    }
}

#[test]
fn varint_max_takes_nineteen_bytes() {
    let original = VarInt::from_u128(u128::MAX);
    assert_eq!(original.size(), 19);
    assert_eq!(encode(&original).len(), 19);
}

#[test]
fn varint_overflowing_group_sequence_is_rejected() {
    // Eighteen continuation groups, then a 19th group above 3: the value
    // would overflow a 128-bit accumulator.
    let mut bytes = vec![0x80u8; 18];
    bytes.push(0x84);
    let r: Result<VarInt, Error> = decode(&bytes);
    assert_eq!(r, Err(Error::TryFromIntError));

    // A 20th group is never acceptable.
    let mut bytes = vec![0x80u8; 18];
    bytes.push(0x81);
    bytes.push(0x01);
    let r: Result<VarInt, Error> = decode(&bytes);
    assert_eq!(r, Err(Error::TryFromIntError));
}

#[test]
fn varint_unterminated_stream_is_io_error() {
    let r: Result<VarInt, Error> = decode(&[0x80, 0x80]);
    assert_eq!(r, Err(Error::IoError));
}

#[test]
fn varint_integer_conversions() {
    assert_eq!(VarInt::from_u8(200).to_u8(), Ok(200));
    assert_eq!(VarInt::from_u16(300).to_u8(), Err(Error::TryFromIntError));
    assert_eq!(VarInt::from_u32(70000).to_u32(), Ok(70000));
    assert_eq!(VarInt::from_u64(u64::MAX).to_u64(), Ok(u64::MAX));
    assert_eq!(VarInt::from_usize(42).to_usize(), Ok(42));
    assert_eq!(VarInt::from_i8(-1).to_u128(), 1);
    assert_eq!(VarInt::from_i8(-1).to_i8(), Ok(-1));
    assert_eq!(VarInt::from_i16(-2).to_i16(), Ok(-2));
    assert_eq!(VarInt::from_i32(i32::MIN).to_i32(), Ok(i32::MIN));
    assert_eq!(VarInt::from_i64(i64::MAX).to_i64(), Ok(i64::MAX));
    assert_eq!(VarInt::from_i128(i128::MIN).to_i128(), i128::MIN);
    assert_eq!(VarInt::from_isize(-5).to_isize(), Ok(-5));
    assert_eq!(VarInt::from_u128(u128::MAX).to_i64(), Err(Error::TryFromIntError));
}

#[test]
fn zigzag_i8_test() {
    assert_eq!(0, 0i8.encode_zigzag());
    assert_eq!(1, (-1i8).encode_zigzag());
    assert_eq!(2, 1i8.encode_zigzag());
    assert_eq!(3, (-2i8).encode_zigzag());
    assert_eq!(4, 2i8.encode_zigzag());
    assert_eq!(u8::MAX - 2, (i8::MIN + 1).encode_zigzag());
    assert_eq!(u8::MAX - 1, i8::MAX.encode_zigzag());
    assert_eq!(u8::MAX, i8::MIN.encode_zigzag());

    assert_eq!(0, i8::decode_zigzag(0));
    assert_eq!(-1, i8::decode_zigzag(1));
    assert_eq!(1, i8::decode_zigzag(2));
    assert_eq!(-2, i8::decode_zigzag(3));
    assert_eq!(2, i8::decode_zigzag(4));
    assert_eq!(i8::MIN + 1, i8::decode_zigzag(u8::MAX - 2));
    assert_eq!(i8::MAX, i8::decode_zigzag(u8::MAX - 1));
    assert_eq!(i8::MIN, i8::decode_zigzag(u8::MAX));
}

#[test]
fn zigzag_inverts_across_full_i8_range() {
    let mut n: i16 = i8::MIN as i16;
    while n <= i8::MAX as i16 {
        let v = n as i8;
        assert_eq!(v, i8::decode_zigzag(v.encode_zigzag()));
        n += 1;
    }
    let mut u: u16 = 0;
    while u <= u8::MAX as u16 {
        let x = u as u8;
        assert_eq!(x, i8::decode_zigzag(x).encode_zigzag());
        u += 1;
    }
}

#[test]
fn zigzag_wide_types() {
    assert_eq!(u16::MAX, i16::MIN.encode_zigzag());
    assert_eq!(u32::MAX, i32::MIN.encode_zigzag());
    assert_eq!(u64::MAX, i64::MIN.encode_zigzag());
    assert_eq!(u128::MAX, i128::MIN.encode_zigzag());
    assert_eq!(usize::MAX, isize::MIN.encode_zigzag());
    assert_eq!(i16::MIN, i16::decode_zigzag(u16::MAX));
    assert_eq!(i32::MIN, i32::decode_zigzag(u32::MAX));
    assert_eq!(i64::MIN, i64::decode_zigzag(u64::MAX));
    assert_eq!(i128::MIN, i128::decode_zigzag(u128::MAX));
    assert_eq!(isize::MIN, isize::decode_zigzag(usize::MAX));
}

#[test]
fn option_layout() {
    let none: Option<u8> = None;
    assert_eq!(encode(&none), vec![0x00]);
    let some: Option<u8> = Some(0x07);
    assert_eq!(encode(&some), vec![0x01, 0x07]);
}

#[test]
fn option_invalid_tag_is_rejected() {
    let r: Result<Option<u8>, Error> = decode(&[0x02]);
    assert_eq!(r, Err(Error::InvalidEnumVariant(2)));
}

#[test]
fn result_layout_and_invalid_tag() {
    let ok: Result<u8, u16> = Ok(0x07);
    assert_eq!(encode(&ok), vec![0x00, 0x07]);
    let err: Result<u8, u16> = Err(0x0102);
    assert_eq!(encode(&err), vec![0x01, 0x02, 0x01]);
    let r: Result<Result<u8, u16>, Error> = decode(&[0x03]);
    assert_eq!(r, Err(Error::InvalidEnumVariant(3)));
}

#[test]
fn truncated_integer_is_io_error() {
    let r: Result<u32, Error> = decode(&[0x01, 0x02]);
    assert_eq!(r, Err(Error::IoError));
    let r: Result<u32, Error> = decode(&[]);
    assert_eq!(r, Err(Error::IoError));
}

#[test]
fn fixed_array_exact_payload() {
    let original = [1i32, 2i32, 3i32];
    let encoded = encode(&original);
    assert_eq!(
        encoded,
        vec![1, 0, 0, 0, 2, 0, 0, 0, 3, 0, 0, 0]
    );
    let decoded: [i32; 3] = decode(&encoded).unwrap();
    assert_eq!(original, decoded);
}

#[test]
fn vec_layout_has_length_prefix() {
    let original: Vec<u8> = vec![9, 8];
    assert_eq!(encode(&original), vec![2, 0, 0, 0, 0, 0, 0, 0, 9, 8]);
    let empty: Vec<u8> = Vec::new();
    assert_eq!(encode(&empty), vec![0, 0, 0, 0, 0, 0, 0, 0]);
}

#[test]
fn string_layout_is_byte_container() {
    let original = String::from("hi");
    assert_eq!(encode(&original), vec![2, 0, 0, 0, 0, 0, 0, 0, 0x68, 0x69]);
    let empty = String::new();
    let decoded: String = decode(&encode(&empty)).unwrap();
    assert_eq!(decoded, empty);
}

#[test]
fn invalid_utf8_is_rejected() {
    let bytes: Vec<u8> = vec![0xFF, 0xFE];
    let encoded = encode(&bytes);
    let r: Result<String, Error> = decode(&encoded);
    assert_eq!(r, Err(Error::InvalidUtf8String));
}

#[test]
fn unit_takes_no_bytes() {
    let original = ();
    assert_eq!(original.size(), 0);
    assert_eq!(encode(&original), Vec::<u8>::new());
    let decoded: () = decode(&[]).unwrap();
    assert_eq!(decoded, ());
}

#[test]
fn trailing_bytes_are_left_unread() {
    let r: u8 = decode(&[0x05, 0xAA, 0xBB]).unwrap();
    assert_eq!(r, 5);
}

#[test]
fn usize_and_isize_travel_as_eight_bytes() {
    let original: usize = 300;
    let encoded = encode(&original);
    assert_eq!(encoded.len(), 8);
    let decoded: usize = decode(&encoded).unwrap();
    assert_eq!(original, decoded);

    let original: isize = -300;
    let encoded = encode(&original);
    assert_eq!(encoded.len(), 8);
    let decoded: isize = decode(&encoded).unwrap();
    assert_eq!(original, decoded);
}

#[test]
fn error_descriptions_name_the_kind() {
    assert_eq!(
        Error::IoError.describe(),
        "byte stream ended before the value was complete"
    );
    assert_eq!(Error::InvalidEnumVariant(9).describe(), "invalid enum variant");
    assert_eq!(Error::InvalidUtf8String.describe(), "invalid UTF-8 string");
}

#[test]
fn zigzag_i16_test() {
    assert_eq!(0, 0i16.encode_zigzag());
    assert_eq!(1, (-1i16).encode_zigzag());
    assert_eq!(2, 1i16.encode_zigzag());
    assert_eq!(3, (-2i16).encode_zigzag());
    assert_eq!(4, 2i16.encode_zigzag());
    assert_eq!(u16::MAX - 2, (i16::MIN + 1).encode_zigzag());
    assert_eq!(u16::MAX - 1, i16::MAX.encode_zigzag());
    assert_eq!(u16::MAX, i16::MIN.encode_zigzag());
    assert_eq!(0, i16::decode_zigzag(0));
    assert_eq!(-1, i16::decode_zigzag(1));
    assert_eq!(1, i16::decode_zigzag(2));
    assert_eq!(-2, i16::decode_zigzag(3));
    assert_eq!(2, i16::decode_zigzag(4));
    assert_eq!(i16::MIN + 1, i16::decode_zigzag(u16::MAX - 2));
    assert_eq!(i16::MAX, i16::decode_zigzag(u16::MAX - 1));
    assert_eq!(i16::MIN, i16::decode_zigzag(u16::MAX));
}

#[test]
fn zigzag_i32_test() {
    assert_eq!(0, 0i32.encode_zigzag());
    assert_eq!(1, (-1i32).encode_zigzag());
    assert_eq!(2, 1i32.encode_zigzag());
    assert_eq!(3, (-2i32).encode_zigzag());
    assert_eq!(4, 2i32.encode_zigzag());
    assert_eq!(u32::MAX - 2, (i32::MIN + 1).encode_zigzag());
    assert_eq!(u32::MAX - 1, i32::MAX.encode_zigzag());
    assert_eq!(u32::MAX, i32::MIN.encode_zigzag());
    assert_eq!(0, i32::decode_zigzag(0));
    assert_eq!(-1, i32::decode_zigzag(1));
    assert_eq!(1, i32::decode_zigzag(2));
    assert_eq!(-2, i32::decode_zigzag(3));
    assert_eq!(2, i32::decode_zigzag(4));
    assert_eq!(i32::MIN + 1, i32::decode_zigzag(u32::MAX - 2));
    assert_eq!(i32::MAX, i32::decode_zigzag(u32::MAX - 1));
    assert_eq!(i32::MIN, i32::decode_zigzag(u32::MAX));
}

#[test]
fn zigzag_i64_test() {
    assert_eq!(0, 0i64.encode_zigzag());
    assert_eq!(1, (-1i64).encode_zigzag());
    assert_eq!(2, 1i64.encode_zigzag());
    assert_eq!(3, (-2i64).encode_zigzag());
    assert_eq!(4, 2i64.encode_zigzag());
    assert_eq!(u64::MAX - 2, (i64::MIN + 1).encode_zigzag());
    assert_eq!(u64::MAX - 1, i64::MAX.encode_zigzag());
    assert_eq!(u64::MAX, i64::MIN.encode_zigzag());
    assert_eq!(0, i64::decode_zigzag(0));
    assert_eq!(-1, i64::decode_zigzag(1));
    assert_eq!(1, i64::decode_zigzag(2));
    assert_eq!(-2, i64::decode_zigzag(3));
    assert_eq!(2, i64::decode_zigzag(4));
    assert_eq!(i64::MIN + 1, i64::decode_zigzag(u64::MAX - 2));
    assert_eq!(i64::MAX, i64::decode_zigzag(u64::MAX - 1));
    assert_eq!(i64::MIN, i64::decode_zigzag(u64::MAX));
}

#[test]
fn zigzag_i128_test() {
    assert_eq!(0, 0i128.encode_zigzag());
    assert_eq!(1, (-1i128).encode_zigzag());
    assert_eq!(2, 1i128.encode_zigzag());
    assert_eq!(3, (-2i128).encode_zigzag());
    assert_eq!(4, 2i128.encode_zigzag());
    assert_eq!(u128::MAX - 2, (i128::MIN + 1).encode_zigzag());
    assert_eq!(u128::MAX - 1, i128::MAX.encode_zigzag());
    assert_eq!(u128::MAX, i128::MIN.encode_zigzag());
    assert_eq!(0, i128::decode_zigzag(0));
    assert_eq!(-1, i128::decode_zigzag(1));
    assert_eq!(1, i128::decode_zigzag(2));
    assert_eq!(-2, i128::decode_zigzag(3));
    assert_eq!(2, i128::decode_zigzag(4));
    assert_eq!(i128::MIN + 1, i128::decode_zigzag(u128::MAX - 2));
    assert_eq!(i128::MAX, i128::decode_zigzag(u128::MAX - 1));
    assert_eq!(i128::MIN, i128::decode_zigzag(u128::MAX));
}

#[test]
fn zigzag_isize_test() {
    assert_eq!(0, 0isize.encode_zigzag());
    assert_eq!(1, (-1isize).encode_zigzag());
    assert_eq!(2, 1isize.encode_zigzag());
    assert_eq!(3, (-2isize).encode_zigzag());
    assert_eq!(4, 2isize.encode_zigzag());
    assert_eq!(usize::MAX - 2, (isize::MIN + 1).encode_zigzag());
    assert_eq!(usize::MAX - 1, isize::MAX.encode_zigzag());
    assert_eq!(usize::MAX, isize::MIN.encode_zigzag());
    assert_eq!(0, isize::decode_zigzag(0));
    assert_eq!(-1, isize::decode_zigzag(1));
    assert_eq!(1, isize::decode_zigzag(2));
    assert_eq!(-2, isize::decode_zigzag(3));
    assert_eq!(2, isize::decode_zigzag(4));
    assert_eq!(isize::MIN + 1, isize::decode_zigzag(usize::MAX - 2));
    assert_eq!(isize::MAX, isize::decode_zigzag(usize::MAX - 1));
    assert_eq!(isize::MIN, isize::decode_zigzag(usize::MAX));
}
