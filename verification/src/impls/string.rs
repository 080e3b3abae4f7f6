//! Serialization of strings: a length prefix followed by the UTF-8 bytes.
//! Full-copy deserialization rebuilds an owned `String`; ε-copy hands back a
//! `&str` that borrows the input slice. UTF-8 validity is checked on the way
//! in, so a corrupted stream is rejected rather than trusted.

use vstd::prelude::*;
use vstd::string::StringSliceAdditionalSpecFns;
use vstd::utf8::{encode_utf8, decode_utf8, valid_utf8};
use crate::lemma_pad_len_bounds;
use crate::bytes::{le_bytes, pow256, lemma_pow256_64};
use crate::hash::{TypeHasher, str_feed};
use crate::ser::{FieldWrite, SerializeError};
use crate::des::{ReadWithPos, SliceWithPos, DeserializeError, DeserializeInner};
use crate::traits::{TypeHash, SerializeInner, CopyType, Deep, enc_at};
use crate::impls::prim::{prim_enc, prim_enc_at, des_prim, ser_prim, lemma_prim_enc_len};

verus! {

/// Relies on `String::from_utf8`: returns the string holding exactly the
/// given bytes when they are valid UTF-8, and rejects them otherwise.
#[verifier::external_body]
pub(crate) fn string_from_utf8(v: Vec<u8>) -> (r: Option<String>)
    ensures
        r matches Some(s) ==> encode_utf8(s@) == v@,
        valid_utf8(v@) ==> r is Some,
{
    String::from_utf8(v).ok()
}

/// Relies on `core::str::from_utf8`: returns the string slice viewing
/// exactly the given bytes when they are valid UTF-8, and rejects them
/// otherwise.
#[verifier::external_body]
fn str_from_utf8<'a>(b: &'a [u8]) -> (r: Option<&'a str>)
    ensures
        r matches Some(s) ==> s.spec_bytes() == b@,
        valid_utf8(b@) ==> r is Some,
{
    core::str::from_utf8(b).ok()
}

impl TypeHash for String {
    open spec fn th_input() -> Seq<u8> {
        str_feed("String"@)
    }

    open spec fn trh_input() -> Seq<u8> {
        le_bytes(8, 8) + le_bytes(8, 24)
    }

    open spec fn ty_name_spec() -> Seq<char> {
        "String"@
    }

    fn ty_name() -> (r: String) {
        "String".to_owned()
    }

    fn type_hash(hasher: &mut TypeHasher) {
        hasher.write_str("String");
    }

    fn type_repr_hash(hasher: &mut TypeHasher) {
        let ghost base = hasher.fed();
        hasher.write_u64(8);
        hasher.write_u64(24);
        proof {
            assert(base + le_bytes(8, 8) + le_bytes(8, 24) =~= base + Self::trh_input());
        }
    }
}

impl CopyType for String {
    type Copy = Deep;
}

impl SerializeInner for String {
    open spec fn is_zero_copy() -> bool {
        false
    }

    open spec fn zero_copy_mismatch() -> bool {
        false
    }

    open spec fn align_of() -> int {
        8
    }

    open spec fn model_wf(m: Seq<char>) -> bool {
        true
    }

    open spec fn enc(m: Seq<char>, pos: int) -> Seq<u8> {
        prim_enc(8, 8, encode_utf8(m).len() as int, pos) + encode_utf8(m)
    }

    proof fn lemma_align() {
    }

    proof fn lemma_value_wf(&self) {
    }

    fn _serialize_inner<W: FieldWrite>(&self, backend: &mut W) -> (r: Result<
        (),
        SerializeError,
    >) {
        let ghost w0 = old(backend).written();
        let ghost m = self.deep_view();
        proof {
            lemma_pow256_64();
        }
        let b = self.as_str().as_bytes();
        let n = b.len();
        ser_prim(backend, n as u64, 8, 8)?;
        let r = backend.write_bytes(b);
        match r {
            Ok(u) => {
                proof {
                    assert(w0 + prim_enc(8, 8, n as int, w0.len() as int) + b@ =~= w0 + Self::enc(
                        m,
                        w0.len() as int,
                    ));
                }
                Ok(())
            },
            Err(e) => Err(e),
        }
    }
}

/// From the encoding hypothesis for a string model, derive the facts about
/// the length prefix and the byte region that the decoders use.
proof fn lemma_string_enc_split(s: Seq<u8>, pos: int, m: Seq<char>)
    requires
        enc_at::<String>(s, pos, m),
        s.len() <= usize::MAX,
    ensures
        0 <= encode_utf8(m).len() < pow256(8),
        prim_enc_at(s, pos, 8, 8, encode_utf8(m).len() as int),
        ({
            let head = crate::pad_len(pos, 8) + 8;
            s.subrange(pos + head, pos + head + encode_utf8(m).len()) == encode_utf8(m)
        }),
        String::enc(m, pos).len() == crate::pad_len(pos, 8) + 8 + encode_utf8(m).len(),
{
    lemma_pow256_64();
    lemma_prim_enc_len(8, 8, encode_utf8(m).len() as int, pos);
    crate::bytes::lemma_le_bytes_len(8, encode_utf8(m).len() as int);
    assert(encode_utf8(m).len() < pow256(8));
    let n = encode_utf8(m).len() as int;
    let head = crate::pad_len(pos, 8) + 8;
    let whole = s.subrange(pos, pos + head + n);
    assert(whole == String::enc(m, pos));
    assert(s.subrange(pos, pos + head) =~= whole.subrange(0, head));
    assert(whole.subrange(0, head) =~= prim_enc(8, 8, n, pos));
    assert(s.subrange(pos + head, pos + head + n) =~= whole.subrange(head, head + n));
    assert(whole.subrange(head, head + n) =~= encode_utf8(m));
}

impl DeserializeInner for String {
    type DeserType<'a> = &'a str;

    open spec fn dcanon<'a>(w: &&'a str) -> Seq<char> {
        w@
    }

    fn _deserialize_full_copy_inner<R: ReadWithPos>(backend: &mut R) -> (res: Result<
        Self,
        DeserializeError,
    >) {
        broadcast use vstd::utf8::encode_utf8_valid_utf8, vstd::utf8::encode_utf8_decode_utf8;

        let ghost s = old(backend).stream();
        let ghost pos0 = old(backend).pos();
        proof {
            lemma_pow256_64();
            backend.lemma_wf();
            lemma_pad_len_bounds(pos0, 8);
        }
        let r = des_prim(backend, 8, 8);
        let x = match r {
            Ok(x) => x,
            Err(e) => {
                proof {
                    assert forall|m: Seq<char>| !(#[trigger] enc_at::<String>(s, pos0, m)) by {
                        if enc_at::<String>(s, pos0, m) {
                            lemma_string_enc_split(s, pos0, m);
                        }
                    }
                }
                return Err(e);
            },
        };
        if x > usize::MAX as u64 {
            proof {
                assert forall|m: Seq<char>| !(#[trigger] enc_at::<String>(s, pos0, m)) by {
                    if enc_at::<String>(s, pos0, m) {
                        lemma_string_enc_split(s, pos0, m);
                    }
                }
            }
            return Err(DeserializeError::ReadError);
        }
        let n = x as usize;
        let r2 = backend.read_bytes(n);
        let v = match r2 {
            Ok(v) => v,
            Err(e) => {
                proof {
                    assert forall|m: Seq<char>| !(#[trigger] enc_at::<String>(s, pos0, m)) by {
                        if enc_at::<String>(s, pos0, m) {
                            lemma_string_enc_split(s, pos0, m);
                        }
                    }
                }
                return Err(e);
            },
        };
        let ghost vbytes = v@;
        match string_from_utf8(v) {
            Some(out) => {
                proof {
                    assert(encode_utf8(out@) == vbytes);
                    assert(enc_at::<String>(s, pos0, out@)) by {
                        assert(s.subrange(
                            pos0,
                            pos0 + crate::pad_len(pos0, 8) + 8 + n,
                        ) =~= prim_enc(8, 8, n as int, pos0) + vbytes);
                        lemma_prim_enc_len(8, 8, n as int, pos0);
                    }
                    assert forall|m: Seq<char>| #[trigger] enc_at::<String>(s, pos0, m) implies out@
                        == m by {
                        lemma_string_enc_split(s, pos0, m);
                        assert(encode_utf8(m) =~= vbytes);
                        assert(decode_utf8(encode_utf8(m)) == decode_utf8(encode_utf8(out@)));
                    }
                }
                Ok(out)
            },
            None => {
                proof {
                    assert forall|m: Seq<char>| !(#[trigger] enc_at::<String>(s, pos0, m)) by {
                        if enc_at::<String>(s, pos0, m) {
                            lemma_string_enc_split(s, pos0, m);
                            assert(encode_utf8(m) =~= vbytes);
                        }
                    }
                }
                Err(DeserializeError::ReadError)
            },
        }
    }

    fn _deserialize_eps_copy_inner<'a>(backend: &mut SliceWithPos<'a>) -> (res: Result<
        &'a str,
        DeserializeError,
    >) {
        broadcast use vstd::utf8::encode_utf8_valid_utf8, vstd::utf8::encode_utf8_decode_utf8;

        let ghost s = old(backend).stream();
        let ghost pos0 = old(backend).pos();
        proof {
            lemma_pow256_64();
            backend.lemma_wf();
            lemma_pad_len_bounds(pos0, 8);
        }
        let r = des_prim(backend, 8, 8);
        let x = match r {
            Ok(x) => x,
            Err(e) => {
                proof {
                    assert forall|m: Seq<char>| !(#[trigger] enc_at::<String>(s, pos0, m)) by {
                        if enc_at::<String>(s, pos0, m) {
                            lemma_string_enc_split(s, pos0, m);
                        }
                    }
                }
                return Err(e);
            },
        };
        if x > usize::MAX as u64 {
            proof {
                assert forall|m: Seq<char>| !(#[trigger] enc_at::<String>(s, pos0, m)) by {
                    if enc_at::<String>(s, pos0, m) {
                        lemma_string_enc_split(s, pos0, m);
                    }
                }
            }
            return Err(DeserializeError::ReadError);
        }
        let n = x as usize;
        let r2 = backend.take_bytes(n);
        let b = match r2 {
            Ok(b) => b,
            Err(e) => {
                proof {
                    assert forall|m: Seq<char>| !(#[trigger] enc_at::<String>(s, pos0, m)) by {
                        if enc_at::<String>(s, pos0, m) {
                            lemma_string_enc_split(s, pos0, m);
                        }
                    }
                }
                return Err(e);
            },
        };
        match str_from_utf8(b) {
            Some(out) => {
                proof {
                    assert(encode_utf8(out@) == b@);
                    assert(enc_at::<String>(s, pos0, out@)) by {
                        assert(s.subrange(
                            pos0,
                            pos0 + crate::pad_len(pos0, 8) + 8 + n,
                        ) =~= prim_enc(8, 8, n as int, pos0) + b@);
                        lemma_prim_enc_len(8, 8, n as int, pos0);
                    }
                    assert forall|m: Seq<char>| #[trigger] enc_at::<String>(s, pos0, m) implies out@
                        == m by {
                        lemma_string_enc_split(s, pos0, m);
                        assert(encode_utf8(m) =~= b@);
                        assert(decode_utf8(encode_utf8(m)) == decode_utf8(encode_utf8(out@)));
                    }
                }
                Ok(out)
            },
            None => {
                proof {
                    assert forall|m: Seq<char>| !(#[trigger] enc_at::<String>(s, pos0, m)) by {
                        if enc_at::<String>(s, pos0, m) {
                            lemma_string_enc_split(s, pos0, m);
                            assert(encode_utf8(m) =~= b@);
                        }
                    }
                }
                Err(DeserializeError::ReadError)
            },
        }
    }
}

} // verus!
