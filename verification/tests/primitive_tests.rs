//! Round-trip tests for the fixed-width primitive encodings, on random
//! values, under both byte orders.

use nimble::decode;
use nimble::encode;
use nimble::Config;
use nimble::Encode;
use nimble::Endianness;
use rand::random;

#[test]
fn u8_test() {
    let original = random::<u8>();
    let encoded = encode(&original);
    assert_eq!(original.size(), encoded.len());
    let decoded: u8 = decode(&encoded).unwrap();
    assert_eq!(original, decoded, "Invalid encoding/decoding");
}

#[test]
fn u16_test() {
    let original = random::<u16>();
    let encoded = encode(&original);
    assert_eq!(original.size(), encoded.len());
    let decoded: u16 = decode(&encoded).unwrap();
    assert_eq!(original, decoded, "Invalid encoding/decoding");
}

#[test]
fn u32_test() {
    let original = random::<u32>();
    let encoded = encode(&original);
    assert_eq!(original.size(), encoded.len());
    let decoded: u32 = decode(&encoded).unwrap();
    assert_eq!(original, decoded, "Invalid encoding/decoding");
}

#[test]
fn u64_test() {
    let original = random::<u64>();
    let encoded = encode(&original);
    assert_eq!(original.size(), encoded.len());
    let decoded: u64 = decode(&encoded).unwrap();
    assert_eq!(original, decoded, "Invalid encoding/decoding");
}

#[test]
fn u128_test() {
    let original = random::<u128>();
    let encoded = encode(&original);
    assert_eq!(original.size(), encoded.len());
    let decoded: u128 = decode(&encoded).unwrap();
    assert_eq!(original, decoded, "Invalid encoding/decoding");
}

#[test]
fn i8_test() {
    let original = random::<i8>();
    let encoded = encode(&original);
    assert_eq!(original.size(), encoded.len());
    let decoded: i8 = decode(&encoded).unwrap();
    assert_eq!(original, decoded, "Invalid encoding/decoding");
}

#[test]
fn i16_test() {
    let original = random::<i16>();
    let encoded = encode(&original);
    assert_eq!(original.size(), encoded.len());
    let decoded: i16 = decode(&encoded).unwrap();
    assert_eq!(original, decoded, "Invalid encoding/decoding");
}

#[test]
fn i32_test() {
    let original = random::<i32>();
    let encoded = encode(&original);
    assert_eq!(original.size(), encoded.len());
    let decoded: i32 = decode(&encoded).unwrap();
    assert_eq!(original, decoded, "Invalid encoding/decoding");
}

#[test]
fn i64_test() {
    let original = random::<i64>();
    let encoded = encode(&original);
    assert_eq!(original.size(), encoded.len());
    let decoded: i64 = decode(&encoded).unwrap();
    assert_eq!(original, decoded, "Invalid encoding/decoding");
}

#[test]
fn i128_test() {
    let original = random::<i128>();
    let encoded = encode(&original);
    assert_eq!(original.size(), encoded.len());
    let decoded: i128 = decode(&encoded).unwrap();
    assert_eq!(original, decoded, "Invalid encoding/decoding");
}

#[test]
fn usize_test() {
    let original = random::<usize>();
    let encoded = encode(&original);
    assert_eq!(original.size(), encoded.len());
    let decoded: usize = decode(&encoded).unwrap();
    assert_eq!(original, decoded, "Invalid encoding/decoding");
}

#[test]
fn isize_test() {
    let original = random::<isize>();
    let encoded = encode(&original);
    assert_eq!(original.size(), encoded.len());
    let decoded: isize = decode(&encoded).unwrap();
    assert_eq!(original, decoded, "Invalid encoding/decoding");
}

#[test]
fn bool_test() {
    let original = random::<bool>();
    let encoded = encode(&original);
    assert_eq!(original.size(), encoded.len());
    let decoded: bool = decode(&encoded).unwrap();
    assert_eq!(original, decoded, "Invalid encoding/decoding");
}

#[test]
fn char_test() {
    let original = random::<char>();
    let encoded = encode(&original);
    assert_eq!(original.size(), encoded.len());
    let decoded: char = decode(&encoded).unwrap();
    assert_eq!(original, decoded, "Invalid encoding/decoding");
}

#[test]
fn u8_arr_test() {
    let original = random::<[u8; 32]>();
    let encoded = encode(&original);
    assert_eq!(original.size(), encoded.len());
    let decoded: [u8; 32] = decode(&encoded).unwrap();
    assert_eq!(original, decoded, "Invalid encoding/decoding");
}

#[test]
fn i64_arr_test() {
    let original = random::<[i64; 32]>();
    let encoded = encode(&original);
    assert_eq!(original.size(), encoded.len());
    let decoded: [i64; 32] = decode(&encoded).unwrap();
    assert_eq!(original, decoded, "Invalid encoding/decoding");
}

#[test]
fn big_endian_round_trips() {
    let c = Config {
        endianness: Endianness::BigEndian,
    };
    let a = random::<u64>();
    let decoded: u64 = c.decode(&c.encode(&a)).unwrap();
    assert_eq!(a, decoded);
    let b = random::<i32>();
    let decoded: i32 = c.decode(&c.encode(&b)).unwrap();
    assert_eq!(b, decoded);
    let s = String::from("h\u{E9}llo w\u{F6}rld");
    let decoded: String = c.decode(&c.encode(&s)).unwrap();
    assert_eq!(s, decoded);
}

#[test]
fn nested_containers_round_trip() {
    let original: Vec<Option<(u8, String)>> = vec![
        None,
        Some((7, "seven".to_string())),
        Some((9, String::new())),
    ];
    let encoded = encode(&original);
    assert_eq!(original.size(), encoded.len());
    let decoded: Vec<Option<(u8, String)>> = decode(&encoded).unwrap();
    assert_eq!(original, decoded, "Invalid encoding/decoding");
}

#[test]
fn shared_pointers_round_trip() {
    let original = std::rc::Rc::new(42u32);
    let decoded: std::rc::Rc<u32> = decode(&encode(&original)).unwrap();
    assert_eq!(original, decoded);
    let original = std::sync::Arc::new("shared".to_string());
    let decoded: std::sync::Arc<String> = decode(&encode(&original)).unwrap();
    assert_eq!(original, decoded);
}

#[test]
fn tuple_arities_round_trip() {
    let one = (5u8,);
    let decoded: (u8,) = decode(&encode(&one)).unwrap();
    assert_eq!(one, decoded);
    let two = (5u8, 6u16);
    let decoded: (u8, u16) = decode(&encode(&two)).unwrap();
    assert_eq!(two, decoded);
    let four = (5u8, 6u16, 7u32, true);
    let decoded: (u8, u16, u32, bool) = decode(&encode(&four)).unwrap();
    assert_eq!(four, decoded);
}
