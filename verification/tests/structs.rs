//! The demo composites: zero-copy and deep struct round trips, tag bytes
//! of the sum type, and the two fingerprints observed through the public
//! hasher.

use epserde::des::{deserialize_eps_copy, deserialize_full_copy, ReaderWithPos};
use epserde::hash::TypeHasher;
use epserde::impls::demo::{Data, DeepStruct, ZeroStruct};
use epserde::ser::{serialize, serialize_with_schema};
use epserde::traits::TypeHash;

#[test]
fn test_struct_zero() {
    let a = ZeroStruct { a: 0, b: 1, c: 2 };
    let (buf, n) = serialize(&a, Vec::new()).unwrap();
    // 40 header bytes, the 6-byte name, padding to 8, then the 24-byte
    // aligned image.
    assert_eq!(n, 72);
    let full: ZeroStruct = deserialize_full_copy(ReaderWithPos::new(buf.clone())).unwrap();
    assert_eq!(a, full);
    let eps = deserialize_eps_copy::<ZeroStruct>(&buf).unwrap();
    assert_eq!(a, eps);
}

#[test]
fn test_struct_deep() {
    let a = DeepStruct { a: 0, b: 1, c: 2 };
    let (buf, _n) = serialize(&a, Vec::new()).unwrap();
    let full: DeepStruct = deserialize_full_copy(ReaderWithPos::new(buf.clone())).unwrap();
    assert_eq!(a, full);
    let eps = deserialize_eps_copy::<DeepStruct>(&buf).unwrap();
    assert_eq!(a, eps);
}

#[test]
fn test_vec_of_zero_struct_window() {
    let a = vec![
        ZeroStruct { a: 1, b: 2, c: 3 },
        ZeroStruct { a: 4, b: 5, c: -6 },
    ];
    let (buf, _n) = serialize(&a, Vec::new()).unwrap();
    let eps = deserialize_eps_copy::<Vec<ZeroStruct>>(&buf).unwrap();
    assert_eq!(eps.len(), 2);
    assert_eq!(eps.get(0), a[0]);
    assert_eq!(eps.get(1), a[1]);
    assert_eq!(eps.to_vec(), a);
}

#[test]
fn test_enum_tag_bytes() {
    let cases = vec![
        (Data::A, 0u8),
        (Data::B(3), 1),
        (Data::C(4, vec![1]), 2),
        (Data::D { a: 1, b: vec![2] }, 3),
    ];
    for (value, tag) in cases {
        let (buf, _n) = serialize(&value, Vec::new()).unwrap();
        // The discriminant byte follows the 40-byte header and the 4-byte
        // type name.
        assert_eq!(buf[44], tag);
        let back: Data = deserialize_full_copy(ReaderWithPos::new(buf)).unwrap();
        assert_eq!(value, back);
    }
}

fn type_hash_of<T: TypeHash>() -> u64 {
    let mut h = TypeHasher::new();
    T::type_hash(&mut h);
    h.finish()
}

fn type_repr_hash_of<T: TypeHash>() -> u64 {
    let mut h = TypeHasher::new();
    T::type_repr_hash(&mut h);
    h.finish()
}

#[test]
fn test_type_hash_ignores_layout() {
    assert_eq!(type_hash_of::<ZeroStruct>(), type_hash_of::<DeepStruct>());
    assert_ne!(
        type_repr_hash_of::<ZeroStruct>(),
        type_repr_hash_of::<DeepStruct>()
    );
}

#[test]
fn test_type_hash_distinguishes() {
    assert_ne!(type_hash_of::<Vec<u32>>(), type_hash_of::<Vec<u64>>());
    assert_ne!(type_hash_of::<u64>(), type_hash_of::<usize>());
    assert_ne!(type_hash_of::<Vec<usize>>(), type_hash_of::<usize>());
}

#[test]
fn test_schema_records_fields() {
    let a: Vec<usize> = vec![1, 2, 3];
    let (buf, n, schema) = serialize_with_schema(&a, Vec::new()).unwrap();
    assert_eq!(buf.len(), n);
    // Seven header fields and the root.
    assert_eq!(schema.0.len(), 8);
    assert_eq!(schema.0[0].name, "MAGIC");
    assert_eq!(schema.0[0].offset, 0);
    assert_eq!(schema.0[0].size, 8);
    assert_eq!(schema.0[7].name, "ROOT");
    assert_eq!(schema.0[7].offset + schema.0[7].size, n);
}

#[test]
fn test_primitive_roundtrips() {
    let (buf, _n) = serialize(&true, Vec::new()).unwrap();
    let b: bool = deserialize_full_copy(ReaderWithPos::new(buf)).unwrap();
    assert!(b);
    let (buf, _n) = serialize(&0xDEAD_BEEFu32, Vec::new()).unwrap();
    let x: u32 = deserialize_full_copy(ReaderWithPos::new(buf)).unwrap();
    assert_eq!(x, 0xDEAD_BEEF);
    let (buf, _n) = serialize(&-123456789i32, Vec::new()).unwrap();
    let x: i32 = deserialize_full_copy(ReaderWithPos::new(buf)).unwrap();
    assert_eq!(x, -123456789);
    let (buf, _n) = serialize(&0x1234u16, Vec::new()).unwrap();
    let x: u16 = deserialize_full_copy(ReaderWithPos::new(buf)).unwrap();
    assert_eq!(x, 0x1234);
    let (buf, _n) = serialize(&0xABu8, Vec::new()).unwrap();
    let x: u8 = deserialize_full_copy(ReaderWithPos::new(buf)).unwrap();
    assert_eq!(x, 0xAB);
}
