//! Round-trip tests for the built-in encodings, through the default
//! configuration entry points.

use nimble::decode;
use nimble::encode;
use nimble::Encode;
use rand::random;

#[test]
fn option_none_test() {
    let original: Option<u8> = None;
    let encoded = encode(&original);
    assert_eq!(original.size(), encoded.len());
    let decoded: Option<u8> = decode(&encoded).unwrap();
    assert_eq!(original, decoded, "Invalid encoding/decoding");
}

#[test]
fn lib_option_none_test() {
    let original: Option<u8> = None;
    let encoded = encode(&original);
    assert_eq!(original.size(), encoded.len());
    let decoded: Option<u8> = decode(&encoded).unwrap();
    assert_eq!(original, decoded, "Invalid encoding/decoding");
}

#[test]
fn option_some_test() {
    let original: Option<u8> = Some(random());
    let encoded = encode(&original);
    assert_eq!(original.size(), encoded.len());
    let decoded: Option<u8> = decode(&encoded).unwrap();
    assert_eq!(original, decoded, "Invalid encoding/decoding");
}

#[test]
fn lib_option_some_test() {
    let original: Option<u8> = Some(random());
    let encoded = encode(&original);
    assert_eq!(original.size(), encoded.len());
    let decoded: Option<u8> = decode(&encoded).unwrap();
    assert_eq!(original, decoded, "Invalid encoding/decoding");
}

#[test]
fn result_ok_test() {
    let original: Result<u8, u8> = Ok(random());
    let encoded = encode(&original);
    assert_eq!(original.size(), encoded.len());
    let decoded: Result<u8, u8> = decode(&encoded).unwrap();
    assert_eq!(original, decoded, "Invalid encoding/decoding");
}

#[test]
fn result_err_test() {
    let original: Result<u8, u8> = Err(random());
    let encoded = encode(&original);
    assert_eq!(original.size(), encoded.len());
    let decoded: Result<u8, u8> = decode(&encoded).unwrap();
    assert_eq!(original, decoded, "Invalid encoding/decoding");
}

#[test]
fn fixed_arr_test() {
    let original = [1i32, 2i32, 3i32];
    let encoded = encode(&original);
    assert_eq!(original.size(), encoded.len());
    let decoded: [i32; 3] = decode(&encoded).unwrap();
    assert_eq!(original, decoded, "Invalid encoding/decoding");
}

#[test]
fn lib_fixed_arr_test() {
    let original = [1i32, 2i32, 3i32];
    let encoded = encode(&original);
    assert_eq!(original.size(), encoded.len());
    let decoded: [i32; 3] = decode(&encoded).unwrap();
    assert_eq!(original, decoded, "Invalid encoding/decoding");
}

#[test]
fn vec_test() {
    let original = vec![1, 2, 3];
    let encoded = encode(&original);
    assert_eq!(original.size(), encoded.len());
    let decoded: Vec<i32> = decode(&encoded).unwrap();
    assert_eq!(original, decoded, "Invalid encoding/decoding");
}

#[test]
fn lib_vec_test() {
    let original = vec![1, 2, 3];
    let encoded = encode(&original);
    assert_eq!(original.size(), encoded.len());
    let decoded: Vec<i32> = decode(&encoded).unwrap();
    assert_eq!(original, decoded, "Invalid encoding/decoding");
}

#[test]
fn slice_test() {
    let original = [1i32, 2i32, 3i32];
    let encoded = encode(&original[..]);
    assert_eq!(original[..].size(), encoded.len());
    let decoded: Vec<i32> = decode(&encoded).unwrap();
    assert_eq!(original.to_vec(), decoded, "Invalid encoding/decoding");
}

#[test]
fn lib_slice_test() {
    let original = [1i32, 2i32, 3i32];
    let encoded = encode(&original[..]);
    assert_eq!(original[..].size(), encoded.len());
    let decoded: Vec<i32> = decode(&encoded).unwrap();
    assert_eq!(original.to_vec(), decoded, "Invalid encoding/decoding");
}

#[test]
fn string_test() {
    let original = "hello";
    let encoded = encode(original);
    assert_eq!(original.size(), encoded.len());
    let decoded: String = decode(&encoded).unwrap();
    assert_eq!("hello".to_string(), decoded, "Invalid encoding/decoding");
}

#[test]
fn lib_string_test() {
    let original = "hello";
    let encoded = encode(original);
    assert_eq!(original.size(), encoded.len());
    let decoded: String = decode(&encoded).unwrap();
    assert_eq!("hello".to_string(), decoded, "Invalid encoding/decoding");
}

#[test]
fn vec_string_test() {
    let original = vec!["hello".to_string(), "world".to_string()];
    let encoded = encode(&original);
    assert_eq!(original.size(), encoded.len());
    let decoded: Vec<String> = decode(&encoded).unwrap();
    assert_eq!(original, decoded, "Invalid encoding/decoding");
}

#[test]
fn lib_vec_string_test() {
    let original = vec!["hello".to_string(), "world".to_string()];
    let encoded = encode(&original);
    assert_eq!(original.size(), encoded.len());
    let decoded: Vec<String> = decode(&encoded).unwrap();
    assert_eq!(original, decoded, "Invalid encoding/decoding");
}

#[test]
fn box_test() {
    let original = Box::new("10".to_string());
    let encoded = encode(&original);
    assert_eq!(original.size(), encoded.len());
    let decoded: Box<String> = decode(&encoded).unwrap();
    assert_eq!(original, decoded, "Invalid encoding/decoding");
}

#[test]
fn tuple_test() {
    let original = ("hello".to_string(), 25u8, 100i32);
    let encoded = encode(&original);
    assert_eq!(original.size(), encoded.len());
    let decoded: (String, u8, i32) = decode(&encoded).unwrap();
    assert_eq!(original, decoded, "Invalid encoding/decoding");
}

#[test]
fn vec_deque_test() {
    let mut original = std::collections::VecDeque::with_capacity(3);
    original.push_back(1);
    original.push_back(2);
    original.push_back(3);
    let encoded = encode(&original);
    assert_eq!(original.size(), encoded.len());
    let decoded: std::collections::VecDeque<i32> = decode(&encoded).unwrap();
    assert_eq!(original, decoded, "Invalid encoding/decoding");
}
