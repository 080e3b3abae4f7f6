//! Boundary and failure behaviour: every header error on the input that
//! provokes it, the sum-type tag check, and the base-alignment check.

use epserde::des::{deserialize_eps_copy, deserialize_full_copy, DeserializeError, ReaderWithPos};
use epserde::impls::demo::{Data, DeepStruct, ZeroStruct};
use epserde::ser::serialize;

fn stream_of_vec() -> Vec<u8> {
    let a: Vec<usize> = vec![1, 2, 3];
    let (buf, _n) = serialize(&a, Vec::new()).unwrap();
    buf
}

#[test]
fn test_magic_cookie_error() {
    let mut buf = stream_of_vec();
    buf[0] ^= 0xFF;
    let r: Result<Vec<usize>, _> = deserialize_full_copy(ReaderWithPos::new(buf));
    assert!(matches!(r, Err(DeserializeError::MagicCookieError(_))));
}

#[test]
fn test_endianness_error() {
    let mut buf = stream_of_vec();
    let magic: Vec<u8> = buf[0..8].iter().rev().cloned().collect();
    buf[0..8].copy_from_slice(&magic);
    let r: Result<Vec<usize>, _> = deserialize_full_copy(ReaderWithPos::new(buf));
    assert!(matches!(r, Err(DeserializeError::EndiannessError)));
}

#[test]
fn test_major_version_mismatch() {
    let mut buf = stream_of_vec();
    buf[8] = buf[8].wrapping_add(1);
    let r: Result<Vec<usize>, _> = deserialize_full_copy(ReaderWithPos::new(buf));
    assert!(matches!(r, Err(DeserializeError::MajorVersionMismatch(_))));
}

#[test]
fn test_minor_version_mismatch() {
    let mut buf = stream_of_vec();
    buf[10] = buf[10].wrapping_add(1);
    let r: Result<Vec<usize>, _> = deserialize_full_copy(ReaderWithPos::new(buf));
    assert!(matches!(r, Err(DeserializeError::MinorVersionMismatch(_))));
}

#[test]
fn test_usize_size_mismatch() {
    let mut buf = stream_of_vec();
    buf[12] = 4;
    let r: Result<Vec<usize>, _> = deserialize_full_copy(ReaderWithPos::new(buf));
    assert!(matches!(r, Err(DeserializeError::UsizeSizeMismatch(4))));
}

#[test]
fn test_wrong_type_hash() {
    let a: Vec<u32> = vec![1, 2, 3];
    let (buf, _n) = serialize(&a, Vec::new()).unwrap();
    let r: Result<Vec<u64>, _> = deserialize_full_copy(ReaderWithPos::new(buf));
    match r {
        Err(DeserializeError::WrongTypeHash {
            got_type_name,
            expected_type_name,
            expected,
            got,
        }) => {
            assert_eq!(expected_type_name, "Vec<u32>");
            assert_eq!(got_type_name, "Vec<u64>");
            assert_ne!(expected, got);
        }
        other => panic!("expected a type-hash mismatch, got {:?}", other),
    }
}

#[test]
fn test_wrong_type_repr_hash() {
    // The two structs share the structural fingerprint, so only the
    // representation fingerprint tells their streams apart.
    let a = ZeroStruct { a: 0, b: 1, c: 2 };
    let (buf, _n) = serialize(&a, Vec::new()).unwrap();
    let r: Result<DeepStruct, _> = deserialize_full_copy(ReaderWithPos::new(buf));
    match r {
        Err(DeserializeError::WrongTypeReprHash {
            got_type_name,
            expected_type_name,
            expected,
            got,
        }) => {
            assert_eq!(expected_type_name, "Struct");
            assert_eq!(got_type_name, "Struct");
            assert_ne!(expected, got);
        }
        other => panic!("expected a representation mismatch, got {:?}", other),
    }
}

#[test]
fn test_invalid_tag() {
    let a = Data::A;
    let (mut buf, _n) = serialize(&a, Vec::new()).unwrap();
    // The header for `Data` is 40 bytes plus the 4-byte type name; the
    // discriminant byte follows it.
    buf[44] = 4;
    let r: Result<Data, _> = deserialize_full_copy(ReaderWithPos::new(buf));
    assert!(matches!(r, Err(DeserializeError::InvalidTag(4))));
}

#[test]
fn test_invalid_bool_image() {
    let a = true;
    let (mut buf, _n) = serialize(&a, Vec::new()).unwrap();
    buf[44] = 2;
    let r: Result<bool, _> = deserialize_full_copy(ReaderWithPos::new(buf));
    assert!(matches!(r, Err(DeserializeError::InvalidTag(2))));
}

#[test]
fn test_truncated_stream() {
    let mut buf = stream_of_vec();
    buf.truncate(20);
    let r: Result<Vec<usize>, _> = deserialize_full_copy(ReaderWithPos::new(buf));
    assert!(matches!(r, Err(DeserializeError::ReadError)));
}

#[test]
fn test_misaligned_base() {
    // Of sixteen copies of the same stream placed at successive offsets
    // within one allocation, exactly fifteen have a misaligned base.
    let buf = stream_of_vec();
    let mut alignment_errors = 0;
    let mut successes = 0;
    for shift in 0..16 {
        let mut padded = vec![0u8; shift];
        padded.extend_from_slice(&buf);
        let slice = &padded[shift..];
        match deserialize_eps_copy::<Vec<usize>>(slice) {
            Ok(view) => {
                assert_eq!(view.to_vec(), vec![1, 2, 3]);
                successes += 1;
            }
            Err(DeserializeError::AlignmentError) => alignment_errors += 1,
            Err(other) => panic!("unexpected error {:?}", other),
        }
    }
    assert_eq!(alignment_errors, 15);
    assert_eq!(successes, 1);
}

#[test]
fn test_option_invalid_tag() {
    let a: Option<u64> = None;
    let (mut buf, _n) = serialize(&a, Vec::new()).unwrap();
    // The tag byte follows the 40-byte header and the 11-byte type name.
    buf[51] = 7;
    let r: Result<Option<u64>, _> = deserialize_full_copy(ReaderWithPos::new(buf));
    assert!(matches!(r, Err(DeserializeError::InvalidTag(7))));
}
