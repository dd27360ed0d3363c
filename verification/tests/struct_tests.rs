//! Round-trip tests for the record and sum-type shapes.

use nimble::decode;
use nimble::encode;
use nimble::sample::MyEnum;
use nimble::sample::NamedStruct;
use nimble::sample::UnitStruct;
use nimble::sample::UnnamedStruct;
use nimble::Encode;

#[test]
fn unit_struct_test() {
    let original = UnitStruct;
    assert_eq!(0, original.size());
    let encoded = encode(&original);
    assert_eq!(encoded.len(), original.size());
    let decoded: UnitStruct = decode(&encoded).unwrap();
    assert_eq!(original, decoded);
}

#[test]
fn unnamed_struct_test() {
    let original = UnnamedStruct(10, 20);
    assert_eq!(3, original.size());
    let encoded = encode(&original);
    assert_eq!(encoded.len(), original.size());
    let decoded: UnnamedStruct = decode(&encoded).unwrap();
    assert_eq!(original, decoded);
}

#[test]
fn named_struct_test() {
    let original = NamedStruct { a: 10, b: 20 };
    assert_eq!(3, original.size());
    let encoded = encode(&original);
    assert_eq!(encoded.len(), original.size());
    let decoded: NamedStruct = decode(&encoded).unwrap();
    assert_eq!(original, decoded);
}

#[test]
fn enum_unit_variant_test() {
    let original = MyEnum::Unit;
    assert_eq!(1, original.size());
    let encoded = encode(&original);
    assert_eq!(encoded.len(), original.size());
    let decoded: MyEnum = decode(&encoded).unwrap();
    assert_eq!(original, decoded);
}

#[test]
fn enum_unnamed_variant_test() {
    let original = MyEnum::Unnamed(10, 20);
    assert_eq!(4, original.size());
    let encoded = encode(&original);
    assert_eq!(encoded.len(), original.size());
    let decoded: MyEnum = decode(&encoded).unwrap();
    assert_eq!(original, decoded);
}

#[test]
fn enum_named_variant_test() {
    let original = MyEnum::Named { a: 10, b: 20 };
    assert_eq!(4, original.size());
    let encoded = encode(&original);
    assert_eq!(encoded.len(), original.size());
    let decoded: MyEnum = decode(&encoded).unwrap();
    assert_eq!(original, decoded);
}
