//! Round trips through both deserialization flavours for the container
//! types.

use epserde::des::{deserialize_eps_copy, deserialize_full_copy, ReaderWithPos};
use epserde::impls::demo::{Data, DataView};
use epserde::ser::serialize;

#[test]
fn test_vec_usize() {
    let a: Vec<usize> = vec![1, 2, 3, 4, 5];
    let (buf, _n) = serialize(&a, Vec::new()).unwrap();
    let full: Vec<usize> = deserialize_full_copy(ReaderWithPos::new(buf.clone())).unwrap();
    assert_eq!(a, full);
    let eps = deserialize_eps_copy::<Vec<usize>>(&buf).unwrap();
    assert_eq!(eps.len(), a.len());
    assert_eq!(eps.to_vec(), a);
    for (i, x) in a.iter().enumerate() {
        assert_eq!(eps.get(i), *x);
    }
}

#[test]
fn test_vec_vec_usize() {
    let a: Vec<Vec<usize>> = vec![vec![1, 2, 3], vec![4, 5]];
    let (buf, _n) = serialize(&a, Vec::new()).unwrap();
    let full: Vec<Vec<usize>> = deserialize_full_copy(ReaderWithPos::new(buf.clone())).unwrap();
    assert_eq!(a, full);
    let eps = deserialize_eps_copy::<Vec<Vec<usize>>>(&buf).unwrap();
    assert_eq!(eps.len(), 2);
    assert_eq!(eps[0].to_vec(), vec![1, 2, 3]);
    assert_eq!(eps[1].to_vec(), vec![4, 5]);
}

#[test]
fn test_vec_array_string() {
    let a: Vec<[String; 2]> = vec![
        ["a".to_string(), "b".to_string()],
        ["c".to_string(), "aasfihjasomk".to_string()],
    ];
    let (buf, _n) = serialize(&a, Vec::new()).unwrap();
    let full: Vec<[String; 2]> = deserialize_full_copy(ReaderWithPos::new(buf.clone())).unwrap();
    assert_eq!(a, full);
    let eps = deserialize_eps_copy::<Vec<[String; 2]>>(&buf).unwrap();
    assert_eq!(eps.len(), a.len());
    for (orig, view) in a.iter().zip(eps.iter()) {
        assert_eq!(orig[0].as_str(), view[0]);
        assert_eq!(orig[1].as_str(), view[1]);
    }
}

#[test]
fn test_vec_vec_string() {
    let a: Vec<Vec<String>> = vec![
        vec!["a".to_string(), "b".to_string()],
        vec!["c".to_string(), "aasfihjasomk".to_string()],
    ];
    let (buf, _n) = serialize(&a, Vec::new()).unwrap();
    let full: Vec<Vec<String>> = deserialize_full_copy(ReaderWithPos::new(buf.clone())).unwrap();
    assert_eq!(a, full);
    let eps = deserialize_eps_copy::<Vec<Vec<String>>>(&buf).unwrap();
    assert_eq!(eps.len(), a.len());
    for (orig, view) in a.iter().zip(eps.iter()) {
        assert_eq!(orig.len(), view.len());
        for (os, vs) in orig.iter().zip(view.iter()) {
            assert_eq!(os.as_str(), *vs);
        }
    }
}

#[test]
fn test_vec_vec_array_array_string() {
    let a: Vec<Vec<[[String; 2]; 2]>> = vec![
        vec![[
            ["a".to_string(), "b".to_string()],
            ["c".to_string(), "d".to_string()],
        ]],
        vec![[
            ["a".to_string(), "b".to_string()],
            ["c".to_string(), "d".to_string()],
        ]],
    ];
    let (buf, _n) = serialize(&a, Vec::new()).unwrap();
    let full: Vec<Vec<[[String; 2]; 2]>> =
        deserialize_full_copy(ReaderWithPos::new(buf.clone())).unwrap();
    assert_eq!(a, full);
    let eps = deserialize_eps_copy::<Vec<Vec<[[String; 2]; 2]>>>(&buf).unwrap();
    assert_eq!(eps.len(), a.len());
    for (orig, view) in a.iter().zip(eps.iter()) {
        assert_eq!(orig.len(), view.len());
        for (oe, ve) in orig.iter().zip(view.iter()) {
            for k in 0..2 {
                for l in 0..2 {
                    assert_eq!(oe[k][l].as_str(), ve[k][l]);
                }
            }
        }
    }
}

#[test]
fn test_vec_vec_array_array_usize() {
    let a: Vec<Vec<[[usize; 2]; 2]>> = vec![vec![[[1, 2], [3, 4]]], vec![[[5, 6], [7, 8]]]];
    let (buf, _n) = serialize(&a, Vec::new()).unwrap();
    let full: Vec<Vec<[[usize; 2]; 2]>> =
        deserialize_full_copy(ReaderWithPos::new(buf.clone())).unwrap();
    assert_eq!(a, full);
    let eps = deserialize_eps_copy::<Vec<Vec<[[usize; 2]; 2]>>>(&buf).unwrap();
    assert_eq!(a, eps);
}

#[test]
fn test_enum_deep() {
    let vals = vec![
        Data::A,
        Data::B(3),
        Data::C(4, vec![1, 2, 3]),
        Data::D {
            a: -7,
            b: vec![9, 10],
        },
    ];
    for a in vals {
        let (buf, _n) = serialize(&a, Vec::new()).unwrap();
        let full: Data = deserialize_full_copy(ReaderWithPos::new(buf.clone())).unwrap();
        assert_eq!(a, full);
        let eps = deserialize_eps_copy::<Data>(&buf).unwrap();
        match (&a, &eps) {
            (Data::A, DataView::A) => {}
            (Data::B(x), DataView::B(y)) => assert_eq!(x, y),
            (Data::C(x, v), DataView::C(y, w)) => {
                assert_eq!(x, y);
                assert_eq!(*v, w.to_vec());
            }
            (Data::D { a: x, b: v }, DataView::D { a: y, b: w }) => {
                assert_eq!(x, y);
                assert_eq!(*v, w.to_vec());
            }
            _ => panic!("variant changed across the round trip"),
        }
    }
}

#[test]
fn test_string_roundtrip() {
    let a = "héllo, wörld".to_string();
    let (buf, _n) = serialize(&a, Vec::new()).unwrap();
    let full: String = deserialize_full_copy(ReaderWithPos::new(buf.clone())).unwrap();
    assert_eq!(a, full);
    let eps = deserialize_eps_copy::<String>(&buf).unwrap();
    assert_eq!(a.as_str(), eps);
}

#[test]
fn test_serialization_deterministic() {
    let a: Vec<usize> = vec![10, 20, 30];
    let (buf1, n1) = serialize(&a, Vec::new()).unwrap();
    let (buf2, n2) = serialize(&a, Vec::new()).unwrap();
    assert_eq!(buf1, buf2);
    assert_eq!(n1, n2);
}

#[test]
fn test_option_roundtrip() {
    let a: Option<Vec<usize>> = Some(vec![5, 6, 7]);
    let (buf, _n) = serialize(&a, Vec::new()).unwrap();
    let full: Option<Vec<usize>> = deserialize_full_copy(ReaderWithPos::new(buf.clone())).unwrap();
    assert_eq!(a, full);
    let eps = deserialize_eps_copy::<Option<Vec<usize>>>(&buf).unwrap();
    assert_eq!(eps.unwrap().to_vec(), vec![5, 6, 7]);

    let b: Option<u64> = None;
    let (buf, _n) = serialize(&b, Vec::new()).unwrap();
    let full: Option<u64> = deserialize_full_copy(ReaderWithPos::new(buf)).unwrap();
    assert_eq!(b, full);
}

#[test]
fn test_unit_roundtrip() {
    let a: () = ();
    let (buf, n) = serialize(&a, Vec::new()).unwrap();
    // Nothing is emitted for a zero-sized value: the stream is the 40-byte
    // header plus the 2-byte type name.
    assert_eq!(n, 42);
    let _full: () = deserialize_full_copy(ReaderWithPos::new(buf)).unwrap();
}
