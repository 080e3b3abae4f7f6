//! Concrete composite types of the kind a derive front-end would generate
//! implementations for: the same three-field struct once declared zero-copy
//! and once left deep-copy, and a four-variant sum type. They exercise and
//! demonstrate the copy-class taxonomy, the discriminant encoding, and the
//! two fingerprints: the two structs share a structural fingerprint but
//! differ in the representation fingerprint.

use vstd::prelude::*;
use crate::{pad_len, zeros, lemma_pad_len_bounds, lemma_aligned_step};
use crate::bytes::{le_bytes, le_val, lemma_pow256_64, lemma_le_bytes_len, lemma_le_bytes_val,
    lemma_le_val_bytes, u64_to_le, le_to_u64};
use crate::hash::{TypeHasher, str_feed};
use crate::ser::{FieldWrite, SerializeError, zero_vec};
use crate::des::{ReadWithPos, SliceWithPos, DeserializeError, DeserializeInner};
use crate::traits::{TypeHash, SerializeInner, ZeroCopy, CopyType, Zero, Deep, enc_at};
use crate::impls::prim::{prim_enc, prim_enc_at, ser_prim, des_prim, lemma_prim_enc_len, i32_rep};

verus! {

/// A struct of three scalars declared zero-copy with an explicit C layout:
/// its serialized form is its 24-byte memory image (four bytes of trailing
/// padding included), and a run of them can be read back as one borrowed
/// window.
#[derive(Clone, Copy, PartialEq, Eq, Structural, Debug)]
pub struct ZeroStruct {
    pub a: u64,
    pub b: u64,
    pub c: i32,
}

impl DeepView for ZeroStruct {
    type V = ZeroStruct;

    open spec fn deep_view(&self) -> ZeroStruct {
        *self
    }
}

/// The 24-byte memory image of a [`ZeroStruct`].
pub open spec fn zero_struct_image(m: ZeroStruct) -> Seq<u8> {
    le_bytes(8, m.a as int) + le_bytes(8, m.b as int) + le_bytes(4, i32_rep(m.c)) + zeros(4)
}

impl TypeHash for ZeroStruct {
    open spec fn th_input() -> Seq<u8> {
        str_feed("Struct"@) + str_feed("a"@) + <u64 as TypeHash>::th_input() + str_feed("b"@)
            + <u64 as TypeHash>::th_input() + str_feed("c"@) + <i32 as TypeHash>::th_input()
    }

    open spec fn trh_input() -> Seq<u8> {
        le_bytes(8, 1) + le_bytes(8, 8) + le_bytes(8, 24) + <u64 as TypeHash>::trh_input()
            + <u64 as TypeHash>::trh_input() + <i32 as TypeHash>::trh_input()
    }

    open spec fn ty_name_spec() -> Seq<char> {
        "Struct"@
    }

    fn ty_name() -> (r: String) {
        "Struct".to_owned()
    }

    fn type_hash(hasher: &mut TypeHasher) {
        let ghost base = hasher.fed();
        hasher.write_str("Struct");
        hasher.write_str("a");
        <u64 as TypeHash>::type_hash(hasher);
        hasher.write_str("b");
        <u64 as TypeHash>::type_hash(hasher);
        hasher.write_str("c");
        <i32 as TypeHash>::type_hash(hasher);
        proof {
            assert(base + str_feed("Struct"@) + str_feed("a"@) + <u64 as TypeHash>::th_input()
                + str_feed("b"@) + <u64 as TypeHash>::th_input() + str_feed("c"@)
                + <i32 as TypeHash>::th_input() =~= base + Self::th_input());
        }
    }

    fn type_repr_hash(hasher: &mut TypeHasher) {
        let ghost base = hasher.fed();
        hasher.write_u64(1);
        hasher.write_u64(8);
        hasher.write_u64(24);
        <u64 as TypeHash>::type_repr_hash(hasher);
        <u64 as TypeHash>::type_repr_hash(hasher);
        <i32 as TypeHash>::type_repr_hash(hasher);
        proof {
            assert(base + le_bytes(8, 1) + le_bytes(8, 8) + le_bytes(8, 24)
                + <u64 as TypeHash>::trh_input() + <u64 as TypeHash>::trh_input()
                + <i32 as TypeHash>::trh_input() =~= base + Self::trh_input());
        }
    }
}

impl CopyType for ZeroStruct {
    type Copy = Zero;
}

impl SerializeInner for ZeroStruct {
    open spec fn is_zero_copy() -> bool {
        true
    }

    open spec fn zero_copy_mismatch() -> bool {
        false
    }

    open spec fn align_of() -> int {
        8
    }

    open spec fn model_wf(m: ZeroStruct) -> bool {
        true
    }

    open spec fn enc(m: ZeroStruct, pos: int) -> Seq<u8> {
        zeros(pad_len(pos, 8)) + zero_struct_image(m)
    }

    proof fn lemma_align() {
    }

    proof fn lemma_value_wf(&self) {
    }

    fn _serialize_inner<W: FieldWrite>(&self, backend: &mut W) -> (r: Result<
        (),
        SerializeError,
    >) {
        let ghost w0 = old(backend).written();
        proof {
            lemma_pow256_64();
            lemma_le_bytes_len(8, self.a as int);
            lemma_le_bytes_len(8, self.b as int);
            lemma_le_bytes_len(4, i32_rep(self.c));
        }
        let r = backend.pad_to(8);
        match r {
            Ok(u) => {},
            Err(e) => {
                return Err(e);
            },
        }
        let mut img = u64_to_le(self.a, 8);
        let mut tail = u64_to_le(self.b, 8);
        img.append(&mut tail);
        let c_rep: u64 = if self.c >= 0 {
            self.c as u64
        } else {
            ((self.c as i64) + 0x1_0000_0000i64) as u64
        };
        let mut tail = u64_to_le(c_rep, 4);
        img.append(&mut tail);
        let mut tail = zero_vec(4);
        img.append(&mut tail);
        proof {
            assert(img@ =~= zero_struct_image(*self));
        }
        let r = backend.write_bytes(img.as_slice());
        match r {
            Ok(u) => {
                proof {
                    assert(backend.written() =~= w0 + Self::enc(
                        self.deep_view(),
                        w0.len() as int,
                    ));
                }
                Ok(())
            },
            Err(e) => Err(e),
        }
    }
}

impl ZeroCopy for ZeroStruct {
    open spec fn zsize() -> int {
        24
    }

    open spec fn image(m: ZeroStruct) -> Seq<u8> {
        zero_struct_image(m)
    }

    proof fn lemma_zero_props() {
    }

    proof fn lemma_zero_enc(m: ZeroStruct, pos: int) {
        lemma_le_bytes_len(8, m.a as int);
        lemma_le_bytes_len(8, m.b as int);
        lemma_le_bytes_len(4, i32_rep(m.c));
    }

    proof fn lemma_image_inj(m1: ZeroStruct, m2: ZeroStruct) {
        lemma_pow256_64();
        lemma_zero_struct_image_parts(m1);
        lemma_zero_struct_image_parts(m2);
        lemma_le_bytes_val(8, m1.a as int);
        lemma_le_bytes_val(8, m2.a as int);
        lemma_le_bytes_val(8, m1.b as int);
        lemma_le_bytes_val(8, m2.b as int);
        lemma_le_bytes_val(4, i32_rep(m1.c));
        lemma_le_bytes_val(4, i32_rep(m2.c));
    }

    fn zsize_ex() -> (r: usize) {
        24
    }

    fn from_image(b: &[u8]) -> (r: Result<Self, DeserializeError>) {
        proof {
            lemma_pow256_64();
        }
        let ba = vstd::slice::slice_subrange(b, 0, 8);
        let a = le_to_u64(ba);
        let bb = vstd::slice::slice_subrange(b, 8, 16);
        let bv = le_to_u64(bb);
        let bc = vstd::slice::slice_subrange(b, 16, 20);
        let cv = le_to_u64(bc);
        proof {
            lemma_le_val_bytes(bc@);
        }
        let c: i32 = if cv < 0x8000_0000 {
            cv as i32
        } else {
            ((cv as i64) - 0x1_0000_0000i64) as i32
        };
        let mut i: usize = 20;
        while i < 24
            invariant
                20 <= i <= 24,
                b@.len() == 24,
                forall|k: int| 20 <= k < i ==> b@[k] == 0,
            decreases 24 - i,
        {
            if *vstd::slice::slice_index_get(b, i) != 0 {
                proof {
                    assert forall|m: ZeroStruct| b@ != #[trigger] Self::image(m) by {
                        if b@ == Self::image(m) {
                            lemma_zero_struct_image_parts(m);
                            assert(b@[i as int] == 0);
                        }
                    }
                }
                return Err(DeserializeError::ReadError);
            }
            i = i + 1;
        }
        let out = ZeroStruct { a, b: bv, c };
        proof {
            lemma_zero_struct_image_parts(out);
            lemma_le_val_bytes(ba@);
            lemma_le_val_bytes(bb@);
            lemma_le_val_bytes(bc@);
            assert(b@ =~= Self::image(out));
            assert forall|m: ZeroStruct| b@ == #[trigger] Self::image(m) implies out == m by {
                lemma_zero_struct_image_parts(m);
                lemma_le_bytes_val(8, m.a as int);
                lemma_le_bytes_val(8, m.b as int);
                lemma_le_bytes_val(4, i32_rep(m.c));
            }
        }
        Ok(out)
    }
}

/// Where each field's bytes sit inside a [`ZeroStruct`] image.
proof fn lemma_zero_struct_image_parts(m: ZeroStruct)
    ensures
        zero_struct_image(m).len() == 24,
        zero_struct_image(m).subrange(0, 8) == le_bytes(8, m.a as int),
        zero_struct_image(m).subrange(8, 16) == le_bytes(8, m.b as int),
        zero_struct_image(m).subrange(16, 20) == le_bytes(4, i32_rep(m.c)),
        forall|k: int| 20 <= k < 24 ==> zero_struct_image(m)[k] == 0,
{
    lemma_le_bytes_len(8, m.a as int);
    lemma_le_bytes_len(8, m.b as int);
    lemma_le_bytes_len(4, i32_rep(m.c));
    assert(zero_struct_image(m).subrange(0, 8) =~= le_bytes(8, m.a as int));
    assert(zero_struct_image(m).subrange(8, 16) =~= le_bytes(8, m.b as int));
    assert(zero_struct_image(m).subrange(16, 20) =~= le_bytes(4, i32_rep(m.c)));
}

impl DeserializeInner for ZeroStruct {
    type DeserType<'a> = ZeroStruct;

    open spec fn dcanon<'a>(w: &ZeroStruct) -> ZeroStruct {
        *w
    }

    fn _deserialize_full_copy_inner<R: ReadWithPos>(backend: &mut R) -> (res: Result<
        Self,
        DeserializeError,
    >) {
        let ghost s = old(backend).stream();
        let ghost pos0 = old(backend).pos();
        proof {
            backend.lemma_wf();
            lemma_pad_len_bounds(pos0, 8);
        }
        let ghost p = pad_len(pos0, 8);
        let r = backend.pad_align(8);
        match r {
            Ok(u) => {},
            Err(e) => {
                proof {
                    assert forall|m: ZeroStruct| !(#[trigger] enc_at::<ZeroStruct>(s, pos0, m)) by {
                        if enc_at::<ZeroStruct>(s, pos0, m) {
                            lemma_zero_struct_image_parts(m);
                            let whole = s.subrange(pos0, pos0 + p + 24);
                            assert(whole == Self::enc(m, pos0));
                            assert(s.subrange(pos0, pos0 + p) =~= whole.subrange(0, p));
                            assert(whole.subrange(0, p) =~= zeros(p));
                        }
                    }
                }
                return Err(e);
            },
        }
        let r = backend.read_bytes(24);
        let img = match r {
            Ok(v) => v,
            Err(e) => {
                proof {
                    assert forall|m: ZeroStruct| !(#[trigger] enc_at::<ZeroStruct>(s, pos0, m)) by {
                        if enc_at::<ZeroStruct>(s, pos0, m) {
                            lemma_zero_struct_image_parts(m);
                        }
                    }
                }
                return Err(e);
            },
        };
        let ghost ib = img@;
        let r = Self::from_image(img.as_slice());
        match r {
            Ok(v) => {
                proof {
                    lemma_zero_struct_image_parts(v);
                    assert(s.subrange(pos0, pos0 + p + 24) =~= zeros(p) + ib) by {
                        assert(s.subrange(pos0, pos0 + p) == zeros(p));
                        assert(ib == s.subrange(pos0 + p, pos0 + p + 24));
                    }
                    assert(enc_at::<ZeroStruct>(s, pos0, v));
                    assert forall|m: ZeroStruct|
                        #[trigger] enc_at::<ZeroStruct>(s, pos0, m) implies v == m by {
                        lemma_zero_struct_image_parts(m);
                        let whole = s.subrange(pos0, pos0 + p + 24);
                        assert(whole == Self::enc(m, pos0));
                        assert(ib =~= whole.subrange(p, p + 24));
                        assert(whole.subrange(p, p + 24) =~= Self::image(m));
                    }
                }
                Ok(v)
            },
            Err(e) => {
                proof {
                    assert forall|m: ZeroStruct| !(#[trigger] enc_at::<ZeroStruct>(s, pos0, m)) by {
                        if enc_at::<ZeroStruct>(s, pos0, m) {
                            lemma_zero_struct_image_parts(m);
                            let whole = s.subrange(pos0, pos0 + p + 24);
                            assert(whole == Self::enc(m, pos0));
                            assert(ib =~= whole.subrange(p, p + 24));
                            assert(whole.subrange(p, p + 24) =~= Self::image(m));
                        }
                    }
                }
                Err(e)
            },
        }
    }

    fn _deserialize_eps_copy_inner<'a>(backend: &mut SliceWithPos<'a>) -> (res: Result<
        ZeroStruct,
        DeserializeError,
    >) {
        Self::_deserialize_full_copy_inner(backend)
    }
}

/// The same three scalars left deep-copy: serialized field by field, with
/// no trailing padding, so its stream layout differs from [`ZeroStruct`]'s
/// although the structural fingerprint is the same. All of its fields are
/// zero-copy, so it carries the copy-class mismatch diagnostic flag.
#[derive(Clone, Copy, PartialEq, Eq, Structural, Debug)]
pub struct DeepStruct {
    pub a: u64,
    pub b: u64,
    pub c: i32,
}

impl DeepView for DeepStruct {
    type V = DeepStruct;

    open spec fn deep_view(&self) -> DeepStruct {
        *self
    }
}

impl TypeHash for DeepStruct {
    open spec fn th_input() -> Seq<u8> {
        str_feed("Struct"@) + str_feed("a"@) + <u64 as TypeHash>::th_input() + str_feed("b"@)
            + <u64 as TypeHash>::th_input() + str_feed("c"@) + <i32 as TypeHash>::th_input()
    }

    open spec fn trh_input() -> Seq<u8> {
        le_bytes(8, 0) + le_bytes(8, 8) + le_bytes(8, 20) + <u64 as TypeHash>::trh_input()
            + <u64 as TypeHash>::trh_input() + <i32 as TypeHash>::trh_input()
    }

    open spec fn ty_name_spec() -> Seq<char> {
        "Struct"@
    }

    fn ty_name() -> (r: String) {
        "Struct".to_owned()
    }

    fn type_hash(hasher: &mut TypeHasher) {
        let ghost base = hasher.fed();
        hasher.write_str("Struct");
        hasher.write_str("a");
        <u64 as TypeHash>::type_hash(hasher);
        hasher.write_str("b");
        <u64 as TypeHash>::type_hash(hasher);
        hasher.write_str("c");
        <i32 as TypeHash>::type_hash(hasher);
        proof {
            assert(base + str_feed("Struct"@) + str_feed("a"@) + <u64 as TypeHash>::th_input()
                + str_feed("b"@) + <u64 as TypeHash>::th_input() + str_feed("c"@)
                + <i32 as TypeHash>::th_input() =~= base + Self::th_input());
        }
    }

    fn type_repr_hash(hasher: &mut TypeHasher) {
        let ghost base = hasher.fed();
        hasher.write_u64(0);
        hasher.write_u64(8);
        hasher.write_u64(20);
        <u64 as TypeHash>::type_repr_hash(hasher);
        <u64 as TypeHash>::type_repr_hash(hasher);
        <i32 as TypeHash>::type_repr_hash(hasher);
        proof {
            assert(base + le_bytes(8, 0) + le_bytes(8, 8) + le_bytes(8, 20)
                + <u64 as TypeHash>::trh_input() + <u64 as TypeHash>::trh_input()
                + <i32 as TypeHash>::trh_input() =~= base + Self::trh_input());
        }
    }
}

impl CopyType for DeepStruct {
    type Copy = Deep;
}

impl SerializeInner for DeepStruct {
    open spec fn is_zero_copy() -> bool {
        false
    }

    open spec fn zero_copy_mismatch() -> bool {
        true
    }

    open spec fn align_of() -> int {
        8
    }

    open spec fn model_wf(m: DeepStruct) -> bool {
        true
    }

    open spec fn enc(m: DeepStruct, pos: int) -> Seq<u8> {
        let e0 = prim_enc(8, 8, m.a as int, pos);
        let e1 = prim_enc(8, 8, m.b as int, pos + e0.len());
        let e2 = prim_enc(4, 4, i32_rep(m.c), pos + e0.len() + e1.len());
        e0 + e1 + e2
    }

    proof fn lemma_align() {
    }

    proof fn lemma_value_wf(&self) {
    }

    fn _serialize_inner<W: FieldWrite>(&self, backend: &mut W) -> (r: Result<
        (),
        SerializeError,
    >) {
        let ghost w0 = old(backend).written();
        let ghost m = self.deep_view();
        proof {
            lemma_pow256_64();
        }
        let r = ser_prim(backend, self.a, 8, 8);
        match r {
            Ok(u) => {},
            Err(e) => {
                return Err(e);
            },
        }
        let r = ser_prim(backend, self.b, 8, 8);
        match r {
            Ok(u) => {},
            Err(e) => {
                return Err(e);
            },
        }
        let c_rep: u64 = if self.c >= 0 {
            self.c as u64
        } else {
            ((self.c as i64) + 0x1_0000_0000i64) as u64
        };
        let r = ser_prim(backend, c_rep, 4, 4);
        match r {
            Ok(u) => {
                proof {
                    assert(backend.written() =~= w0 + Self::enc(m, w0.len() as int));
                }
                Ok(())
            },
            Err(e) => Err(e),
        }
    }
}

/// Where each field's encoding sits inside a [`DeepStruct`] encoding.
proof fn lemma_deep_struct_split(s: Seq<u8>, pos: int, m: DeepStruct)
    requires
        enc_at::<DeepStruct>(s, pos, m),
    ensures
        prim_enc_at(s, pos, 8, 8, m.a as int),
        prim_enc_at(s, pos + prim_enc(8, 8, m.a as int, pos).len(), 8, 8, m.b as int),
        prim_enc_at(
            s,
            pos + prim_enc(8, 8, m.a as int, pos).len() + 8,
            4,
            4,
            i32_rep(m.c),
        ),
{
    lemma_pad_len_bounds(pos, 8);
    let e0 = prim_enc(8, 8, m.a as int, pos);
    lemma_prim_enc_len(8, 8, m.a as int, pos);
    let p1 = pos + e0.len();
    lemma_aligned_step(pos + pad_len(pos, 8), 8, 8);
    assert(pad_len(p1, 8) == 0) by {
        vstd::arithmetic::div_mod::lemma_mod_self_0(8);
        vstd::arithmetic::div_mod::lemma_small_mod(0, 8);
    }
    let e1 = prim_enc(8, 8, m.b as int, p1);
    lemma_prim_enc_len(8, 8, m.b as int, p1);
    let p2 = p1 + e1.len();
    assert(pad_len(p2, 4) == 0) by {
        lemma_aligned_step(p1, 8, 8);
        crate::impls::vec::lemma_mod8_to_align_pub(p2, 4);
        vstd::arithmetic::div_mod::lemma_mod_self_0(4);
        vstd::arithmetic::div_mod::lemma_small_mod(0, 4);
    }
    let e2 = prim_enc(4, 4, i32_rep(m.c), p2);
    lemma_prim_enc_len(4, 4, i32_rep(m.c), p2);
    let whole = s.subrange(pos, pos + e0.len() + e1.len() + e2.len());
    assert(whole == e0 + e1 + e2);
    crate::traits::lemma_cat_split(s, pos, e0 + e1, e2);
    crate::traits::lemma_cat_split(s, pos, e0, e1);
}

impl DeserializeInner for DeepStruct {
    type DeserType<'a> = DeepStruct;

    open spec fn dcanon<'a>(w: &DeepStruct) -> DeepStruct {
        *w
    }

    #[verifier::rlimit(100)]
    #[verifier::spinoff_prover]
    fn _deserialize_full_copy_inner<R: ReadWithPos>(backend: &mut R) -> (res: Result<
        Self,
        DeserializeError,
    >) {
        let ghost s = old(backend).stream();
        let ghost pos0 = old(backend).pos();
        proof {
            lemma_pow256_64();
            backend.lemma_wf();
            lemma_pad_len_bounds(pos0, 8);
        }
        let ra = des_prim(backend, 8, 8);
        let a = match ra {
            Ok(x) => x,
            Err(e) => {
                proof {
                    assert forall|m: DeepStruct| !(#[trigger] enc_at::<DeepStruct>(s, pos0, m)) by {
                        if enc_at::<DeepStruct>(s, pos0, m) {
                            lemma_deep_struct_split(s, pos0, m);
                        }
                    }
                }
                return Err(e);
            },
        };
        let rb = des_prim(backend, 8, 8);
        let b = match rb {
            Ok(x) => x,
            Err(e) => {
                proof {
                    assert forall|m: DeepStruct| !(#[trigger] enc_at::<DeepStruct>(s, pos0, m)) by {
                        if enc_at::<DeepStruct>(s, pos0, m) {
                            lemma_deep_struct_split(s, pos0, m);
                            lemma_prim_enc_len(8, 8, m.a as int, pos0);
                        }
                    }
                }
                return Err(e);
            },
        };
        let rc = des_prim(backend, 4, 4);
        let cv = match rc {
            Ok(x) => x,
            Err(e) => {
                proof {
                    assert forall|m: DeepStruct| !(#[trigger] enc_at::<DeepStruct>(s, pos0, m)) by {
                        if enc_at::<DeepStruct>(s, pos0, m) {
                            lemma_deep_struct_split(s, pos0, m);
                            lemma_prim_enc_len(8, 8, m.a as int, pos0);
                        }
                    }
                }
                return Err(e);
            },
        };
        let c: i32 = if cv < 0x8000_0000 {
            cv as i32
        } else {
            ((cv as i64) - 0x1_0000_0000i64) as i32
        };
        let out = DeepStruct { a, b, c };
        proof {
            lemma_prim_enc_len(8, 8, a as int, pos0);
            let e0 = prim_enc(8, 8, a as int, pos0);
            let p1 = pos0 + e0.len();
            lemma_prim_enc_len(8, 8, b as int, p1);
            let e1 = prim_enc(8, 8, b as int, p1);
            let p2 = p1 + e1.len();
            lemma_prim_enc_len(4, 4, i32_rep(c), p2);
            let e2 = prim_enc(4, 4, i32_rep(c), p2);
            assert(pad_len(p1, 8) == pad_len(pos0, 8) + 8 + pad_len(p1, 8) - pad_len(pos0, 8) - 8);
            assert(i32_rep(c) == cv as int);
            crate::traits::lemma_cat_at(s, pos0, e0, e1);
            crate::traits::lemma_cat_at(s, pos0, e0 + e1, e2);
            assert(enc_at::<DeepStruct>(s, pos0, out)) by {
                assert(Self::enc(out, pos0) == e0 + e1 + e2);
            }
            assert forall|m: DeepStruct|
                #[trigger] enc_at::<DeepStruct>(s, pos0, m) implies out == m by {
                lemma_deep_struct_split(s, pos0, m);
                lemma_prim_enc_len(8, 8, m.a as int, pos0);
            }
        }
        Ok(out)
    }

    fn _deserialize_eps_copy_inner<'a>(backend: &mut SliceWithPos<'a>) -> (res: Result<
        DeepStruct,
        DeserializeError,
    >) {
        Self::_deserialize_full_copy_inner(backend)
    }
}

/// A sum type with one unit, two tuple and one struct-like variant, written
/// as a one-byte discriminant followed by the payload of the selected
/// variant.
#[derive(Clone, Debug, PartialEq)]
pub enum Data {
    A,
    B(u64),
    C(u64, Vec<usize>),
    D { a: i32, b: Vec<usize> },
}

/// The mathematical model of a [`Data`] value.
pub enum DataModel {
    A,
    B(u64),
    C(u64, Seq<usize>),
    D { a: i32, b: Seq<usize> },
}

impl DeepView for Data {
    type V = DataModel;

    open spec fn deep_view(&self) -> DataModel {
        match self {
            Data::A => DataModel::A,
            Data::B(x) => DataModel::B(*x),
            Data::C(x, v) => DataModel::C(*x, v.deep_view()),
            Data::D { a, b } => DataModel::D { a: *a, b: b.deep_view() },
        }
    }
}

/// The discriminant byte of each variant.
pub open spec fn data_tag(m: DataModel) -> int {
    match m {
        DataModel::A => 0,
        DataModel::B(_) => 1,
        DataModel::C(_, _) => 2,
        DataModel::D { .. } => 3,
    }
}

/// The payload bytes of a variant, encoded right after the discriminant.
pub open spec fn data_payload_enc(m: DataModel, pos: int) -> Seq<u8> {
    match m {
        DataModel::A => Seq::empty(),
        DataModel::B(x) => <u64 as SerializeInner>::enc(x, pos),
        DataModel::C(x, v) => {
            let e = <u64 as SerializeInner>::enc(x, pos);
            e + <Vec<usize> as SerializeInner>::enc(v, pos + e.len())
        },
        DataModel::D { a, b } => {
            let e = <i32 as SerializeInner>::enc(a, pos);
            e + <Vec<usize> as SerializeInner>::enc(b, pos + e.len())
        },
    }
}

impl TypeHash for Data {
    open spec fn th_input() -> Seq<u8> {
        str_feed("Data"@) + str_feed("A"@) + str_feed("B"@) + <u64 as TypeHash>::th_input()
            + str_feed("C"@) + <u64 as TypeHash>::th_input()
            + <Vec<usize> as TypeHash>::th_input() + str_feed("D"@)
            + <i32 as TypeHash>::th_input() + <Vec<usize> as TypeHash>::th_input()
    }

    open spec fn trh_input() -> Seq<u8> {
        le_bytes(8, 0) + le_bytes(8, 8) + <u64 as TypeHash>::trh_input()
            + <Vec<usize> as TypeHash>::trh_input() + <i32 as TypeHash>::trh_input()
    }

    open spec fn ty_name_spec() -> Seq<char> {
        "Data"@
    }

    fn ty_name() -> (r: String) {
        "Data".to_owned()
    }

    fn type_hash(hasher: &mut TypeHasher) {
        let ghost base = hasher.fed();
        hasher.write_str("Data");
        hasher.write_str("A");
        hasher.write_str("B");
        <u64 as TypeHash>::type_hash(hasher);
        hasher.write_str("C");
        <u64 as TypeHash>::type_hash(hasher);
        <Vec<usize> as TypeHash>::type_hash(hasher);
        hasher.write_str("D");
        <i32 as TypeHash>::type_hash(hasher);
        <Vec<usize> as TypeHash>::type_hash(hasher);
        proof {
            assert(base + str_feed("Data"@) + str_feed("A"@) + str_feed("B"@)
                + <u64 as TypeHash>::th_input() + str_feed("C"@) + <u64 as TypeHash>::th_input()
                + <Vec<usize> as TypeHash>::th_input() + str_feed("D"@)
                + <i32 as TypeHash>::th_input() + <Vec<usize> as TypeHash>::th_input() =~= base
                + Self::th_input());
        }
    }

    fn type_repr_hash(hasher: &mut TypeHasher) {
        let ghost base = hasher.fed();
        hasher.write_u64(0);
        hasher.write_u64(8);
        <u64 as TypeHash>::type_repr_hash(hasher);
        <Vec<usize> as TypeHash>::type_repr_hash(hasher);
        <i32 as TypeHash>::type_repr_hash(hasher);
        proof {
            assert(base + le_bytes(8, 0) + le_bytes(8, 8) + <u64 as TypeHash>::trh_input()
                + <Vec<usize> as TypeHash>::trh_input() + <i32 as TypeHash>::trh_input() =~= base
                + Self::trh_input());
        }
    }
}

impl CopyType for Data {
    type Copy = Deep;
}

impl SerializeInner for Data {
    open spec fn is_zero_copy() -> bool {
        false
    }

    open spec fn zero_copy_mismatch() -> bool {
        false
    }

    open spec fn align_of() -> int {
        1
    }

    open spec fn model_wf(m: DataModel) -> bool {
        match m {
            DataModel::C(_, v) => <Vec<usize> as SerializeInner>::model_wf(v),
            DataModel::D { b, .. } => <Vec<usize> as SerializeInner>::model_wf(b),
            _ => true,
        }
    }

    open spec fn enc(m: DataModel, pos: int) -> Seq<u8> {
        prim_enc(1, 1, data_tag(m), pos) + data_payload_enc(m, pos + prim_enc(
            1,
            1,
            data_tag(m),
            pos,
        ).len())
    }

    proof fn lemma_align() {
    }

    proof fn lemma_value_wf(&self) {
        match self {
            Data::C(x, v) => {
                v.lemma_value_wf();
            },
            Data::D { a, b } => {
                b.lemma_value_wf();
            },
            _ => {},
        }
    }

    fn _serialize_inner<W: FieldWrite>(&self, backend: &mut W) -> (r: Result<
        (),
        SerializeError,
    >) {
        let ghost w0 = old(backend).written();
        let ghost m = self.deep_view();
        proof {
            lemma_pow256_64();
            lemma_prim_enc_len(1, 1, data_tag(m), w0.len() as int);
        }
        match self {
            Data::A => {
                let r = ser_prim(backend, 0, 1, 1);
                match r {
                    Ok(u) => {
                        proof {
                            assert(backend.written() =~= w0 + Self::enc(m, w0.len() as int));
                        }
                        Ok(())
                    },
                    Err(e) => Err(e),
                }
            },
            Data::B(x) => {
                ser_prim(backend, 1, 1, 1)?;
                let r = x._serialize_inner(backend);
                match r {
                    Ok(u) => {
                        proof {
                            assert(backend.written() =~= w0 + Self::enc(m, w0.len() as int));
                        }
                        Ok(())
                    },
                    Err(e) => Err(e),
                }
            },
            Data::C(x, v) => {
                ser_prim(backend, 2, 1, 1)?;
                let r = x._serialize_inner(backend);
                match r {
                    Ok(u) => {},
                    Err(e) => {
                        return Err(e);
                    },
                }
                let r = v._serialize_inner(backend);
                match r {
                    Ok(u) => {
                        proof {
                            assert(backend.written() =~= w0 + Self::enc(m, w0.len() as int));
                        }
                        Ok(())
                    },
                    Err(e) => Err(e),
                }
            },
            Data::D { a, b } => {
                ser_prim(backend, 3, 1, 1)?;
                let r = a._serialize_inner(backend);
                match r {
                    Ok(u) => {},
                    Err(e) => {
                        return Err(e);
                    },
                }
                let r = b._serialize_inner(backend);
                match r {
                    Ok(u) => {
                        proof {
                            assert(backend.written() =~= w0 + Self::enc(m, w0.len() as int));
                        }
                        Ok(())
                    },
                    Err(e) => Err(e),
                }
            },
        }
    }
}

/// Where the discriminant and the payload pieces of a [`Data`] encoding
/// sit.
proof fn lemma_data_enc_split(s: Seq<u8>, pos: int, m: DataModel)
    requires
        enc_at::<Data>(s, pos, m),
    ensures
        prim_enc_at(s, pos, 1, 1, data_tag(m)),
        m matches DataModel::B(x) ==> enc_at::<u64>(s, pos + 1, x),
        m matches DataModel::C(x, v) ==> enc_at::<u64>(s, pos + 1, x) && enc_at::<Vec<usize>>(
            s,
            pos + 1 + <u64 as SerializeInner>::enc(x, pos + 1).len(),
            v,
        ),
        m matches DataModel::D { a, b } ==> enc_at::<i32>(s, pos + 1, a) && enc_at::<Vec<usize>>(
            s,
            pos + 1 + <i32 as SerializeInner>::enc(a, pos + 1).len(),
            b,
        ),
{
    lemma_prim_enc_len(1, 1, data_tag(m), pos);
    let t = prim_enc(1, 1, data_tag(m), pos);
    assert(t.len() == 1);
    let pay = data_payload_enc(m, pos + 1);
    let whole = s.subrange(pos, pos + 1 + pay.len());
    assert(whole == t + pay);
    crate::traits::lemma_cat_split(s, pos, t, pay);
    match m {
        DataModel::A => {},
        DataModel::B(x) => {},
        DataModel::C(x, v) => {
            let e = <u64 as SerializeInner>::enc(x, pos + 1);
            let ev = <Vec<usize> as SerializeInner>::enc(v, pos + 1 + e.len());
            crate::traits::lemma_cat_split(s, pos + 1, e, ev);
        },
        DataModel::D { a, b } => {
            let e = <i32 as SerializeInner>::enc(a, pos + 1);
            let ev = <Vec<usize> as SerializeInner>::enc(b, pos + 1 + e.len());
            crate::traits::lemma_cat_split(s, pos + 1, e, ev);
        },
    }
}

/// The ε-copy view of a [`Data`] value: the same shape with vector payloads
/// replaced by borrowed windows over the input slice.
pub enum DataView<'a> {
    A,
    B(u64),
    C(u64, crate::impls::vec::ZeroSliceView<'a, usize>),
    D { a: i32, b: crate::impls::vec::ZeroSliceView<'a, usize> },
}

impl DeserializeInner for Data {
    type DeserType<'a> = DataView<'a>;

    open spec fn dcanon<'a>(w: &DataView<'a>) -> DataModel {
        match w {
            DataView::A => DataModel::A,
            DataView::B(x) => DataModel::B(*x),
            DataView::C(x, v) => DataModel::C(*x, v.canon()),
            DataView::D { a, b } => DataModel::D { a: *a, b: b.canon() },
        }
    }

    #[verifier::rlimit(100)]
    #[verifier::spinoff_prover]
    fn _deserialize_full_copy_inner<R: ReadWithPos>(backend: &mut R) -> (res: Result<
        Self,
        DeserializeError,
    >) {
        let ghost s = old(backend).stream();
        let ghost pos0 = old(backend).pos();
        proof {
            lemma_pow256_64();
            backend.lemma_wf();
            lemma_pad_len_bounds(pos0, 1);
        }
        let rt = des_prim(backend, 1, 1);
        let t = match rt {
            Ok(x) => x,
            Err(e) => {
                proof {
                    assert forall|m: DataModel| !(#[trigger] enc_at::<Data>(s, pos0, m)) by {
                        if enc_at::<Data>(s, pos0, m) {
                            lemma_data_enc_split(s, pos0, m);
                        }
                    }
                }
                return Err(e);
            },
        };
        proof {
            assert forall|m: DataModel| #[trigger] enc_at::<Data>(s, pos0, m) implies t as int
                == data_tag(m) by {
                lemma_data_enc_split(s, pos0, m);
            }
            lemma_prim_enc_len(1, 1, t as int, pos0);
        }
        if t == 0 {
            let out = Data::A;
            proof {
                assert(data_payload_enc(out.deep_view(), pos0 + 1) =~= Seq::<u8>::empty());
                assert(s.subrange(pos0, pos0 + 1) =~= <Data as SerializeInner>::enc(
                    out.deep_view(),
                    pos0,
                ));
                assert(enc_at::<Data>(s, pos0, out.deep_view()));
                assert forall|m: DataModel|
                    #[trigger] enc_at::<Data>(s, pos0, m) implies out.deep_view() == m by {
                    lemma_data_enc_split(s, pos0, m);
                    assert(data_tag(m) == 0);
                }
            }
            Ok(out)
        } else if t == 1 {
            let rx = <u64 as DeserializeInner>::_deserialize_full_copy_inner(backend);
            let x = match rx {
                Ok(x) => x,
                Err(e) => {
                    proof {
                        assert forall|m: DataModel| !(#[trigger] enc_at::<Data>(s, pos0, m)) by {
                            if enc_at::<Data>(s, pos0, m) {
                                lemma_data_enc_split(s, pos0, m);
                            }
                        }
                    }
                    return Err(e);
                },
            };
            let out = Data::B(x);
            proof {
                let e = <u64 as SerializeInner>::enc(x, pos0 + 1);
                crate::traits::lemma_cat_at(s, pos0, prim_enc(1, 1, 1, pos0), e);
                assert(enc_at::<Data>(s, pos0, out.deep_view())) by {
                    assert(<Data as SerializeInner>::enc(out.deep_view(), pos0) == prim_enc(
                        1,
                        1,
                        1,
                        pos0,
                    ) + e);
                }
                assert forall|m: DataModel|
                    #[trigger] enc_at::<Data>(s, pos0, m) implies out.deep_view() == m by {
                    lemma_data_enc_split(s, pos0, m);
                    assert(data_tag(m) == 1);
                }
            }
            Ok(out)
        } else if t == 2 {
            let rx = <u64 as DeserializeInner>::_deserialize_full_copy_inner(backend);
            let x = match rx {
                Ok(x) => x,
                Err(e) => {
                    proof {
                        assert forall|m: DataModel| !(#[trigger] enc_at::<Data>(s, pos0, m)) by {
                            if enc_at::<Data>(s, pos0, m) {
                                lemma_data_enc_split(s, pos0, m);
                            }
                        }
                    }
                    return Err(e);
                },
            };
            let rv = crate::impls::vec::deserialize_vec_full::<usize, R>(backend);
            let v = match rv {
                Ok(v) => v,
                Err(e) => {
                    proof {
                        assert forall|m: DataModel| !(#[trigger] enc_at::<Data>(s, pos0, m)) by {
                            if enc_at::<Data>(s, pos0, m) {
                                lemma_data_enc_split(s, pos0, m);
                                assert(data_tag(m) == 2);
                            }
                        }
                    }
                    return Err(e);
                },
            };
            let out = Data::C(x, v);
            proof {
                let e = <u64 as SerializeInner>::enc(x, pos0 + 1);
                let ev = <Vec<usize> as SerializeInner>::enc(v.deep_view(), pos0 + 1 + e.len());
                crate::traits::lemma_cat_at(s, pos0 + 1, e, ev);
                crate::traits::lemma_cat_at(s, pos0, prim_enc(1, 1, 2, pos0), e + ev);
                assert(enc_at::<Data>(s, pos0, out.deep_view())) by {
                    assert(<Data as SerializeInner>::enc(out.deep_view(), pos0) == prim_enc(
                        1,
                        1,
                        2,
                        pos0,
                    ) + (e + ev));
                }
                assert forall|m: DataModel|
                    #[trigger] enc_at::<Data>(s, pos0, m) implies out.deep_view() == m by {
                    lemma_data_enc_split(s, pos0, m);
                    assert(data_tag(m) == 2);
                }
            }
            Ok(out)
        } else if t == 3 {
            let ra = <i32 as DeserializeInner>::_deserialize_full_copy_inner(backend);
            let a = match ra {
                Ok(x) => x,
                Err(e) => {
                    proof {
                        assert forall|m: DataModel| !(#[trigger] enc_at::<Data>(s, pos0, m)) by {
                            if enc_at::<Data>(s, pos0, m) {
                                lemma_data_enc_split(s, pos0, m);
                            }
                        }
                    }
                    return Err(e);
                },
            };
            let rv = crate::impls::vec::deserialize_vec_full::<usize, R>(backend);
            let b = match rv {
                Ok(v) => v,
                Err(e) => {
                    proof {
                        assert forall|m: DataModel| !(#[trigger] enc_at::<Data>(s, pos0, m)) by {
                            if enc_at::<Data>(s, pos0, m) {
                                lemma_data_enc_split(s, pos0, m);
                                assert(data_tag(m) == 3);
                            }
                        }
                    }
                    return Err(e);
                },
            };
            let out = Data::D { a, b };
            proof {
                let e = <i32 as SerializeInner>::enc(a, pos0 + 1);
                let ev = <Vec<usize> as SerializeInner>::enc(b.deep_view(), pos0 + 1 + e.len());
                crate::traits::lemma_cat_at(s, pos0 + 1, e, ev);
                crate::traits::lemma_cat_at(s, pos0, prim_enc(1, 1, 3, pos0), e + ev);
                assert(enc_at::<Data>(s, pos0, out.deep_view())) by {
                    assert(<Data as SerializeInner>::enc(out.deep_view(), pos0) == prim_enc(
                        1,
                        1,
                        3,
                        pos0,
                    ) + (e + ev));
                }
                assert forall|m: DataModel|
                    #[trigger] enc_at::<Data>(s, pos0, m) implies out.deep_view() == m by {
                    lemma_data_enc_split(s, pos0, m);
                    assert(data_tag(m) == 3);
                }
            }
            Ok(out)
        } else {
            proof {
                assert forall|m: DataModel| !(#[trigger] enc_at::<Data>(s, pos0, m)) by {
                    if enc_at::<Data>(s, pos0, m) {
                        assert(t as int == data_tag(m));
                    }
                }
            }
            Err(DeserializeError::InvalidTag(t as u8))
        }
    }

    #[verifier::rlimit(100)]
    #[verifier::spinoff_prover]
    fn _deserialize_eps_copy_inner<'a>(backend: &mut SliceWithPos<'a>) -> (res: Result<
        DataView<'a>,
        DeserializeError,
    >) {
        let ghost s = old(backend).stream();
        let ghost pos0 = old(backend).pos();
        proof {
            lemma_pow256_64();
            backend.lemma_wf();
            lemma_pad_len_bounds(pos0, 1);
        }
        let rt = des_prim(backend, 1, 1);
        let t = match rt {
            Ok(x) => x,
            Err(e) => {
                proof {
                    assert forall|m: DataModel| !(#[trigger] enc_at::<Data>(s, pos0, m)) by {
                        if enc_at::<Data>(s, pos0, m) {
                            lemma_data_enc_split(s, pos0, m);
                        }
                    }
                }
                return Err(e);
            },
        };
        proof {
            assert forall|m: DataModel| #[trigger] enc_at::<Data>(s, pos0, m) implies t as int
                == data_tag(m) by {
                lemma_data_enc_split(s, pos0, m);
            }
            lemma_prim_enc_len(1, 1, t as int, pos0);
        }
        if t == 0 {
            let out = DataView::A;
            proof {
                assert(data_payload_enc(Self::dcanon(&out), pos0 + 1) =~= Seq::<u8>::empty());
                assert(s.subrange(pos0, pos0 + 1) =~= <Data as SerializeInner>::enc(
                    Self::dcanon(&out),
                    pos0,
                ));
                assert(enc_at::<Data>(s, pos0, Self::dcanon(&out)));
                assert forall|m: DataModel|
                    #[trigger] enc_at::<Data>(s, pos0, m) implies Self::dcanon(&out) == m by {
                    lemma_data_enc_split(s, pos0, m);
                    assert(data_tag(m) == 0);
                }
            }
            Ok(out)
        } else if t == 1 {
            let rx = <u64 as DeserializeInner>::_deserialize_eps_copy_inner(backend);
            let x = match rx {
                Ok(x) => x,
                Err(e) => {
                    proof {
                        assert forall|m: DataModel| !(#[trigger] enc_at::<Data>(s, pos0, m)) by {
                            if enc_at::<Data>(s, pos0, m) {
                                lemma_data_enc_split(s, pos0, m);
                            }
                        }
                    }
                    return Err(e);
                },
            };
            let out = DataView::B(x);
            proof {
                let e = <u64 as SerializeInner>::enc(x, pos0 + 1);
                crate::traits::lemma_cat_at(s, pos0, prim_enc(1, 1, 1, pos0), e);
                assert(enc_at::<Data>(s, pos0, Self::dcanon(&out))) by {
                    assert(<Data as SerializeInner>::enc(Self::dcanon(&out), pos0) == prim_enc(
                        1,
                        1,
                        1,
                        pos0,
                    ) + e);
                }
                assert forall|m: DataModel|
                    #[trigger] enc_at::<Data>(s, pos0, m) implies Self::dcanon(&out) == m by {
                    lemma_data_enc_split(s, pos0, m);
                    assert(data_tag(m) == 1);
                }
            }
            Ok(out)
        } else if t == 2 {
            let rx = <u64 as DeserializeInner>::_deserialize_eps_copy_inner(backend);
            let x = match rx {
                Ok(x) => x,
                Err(e) => {
                    proof {
                        assert forall|m: DataModel| !(#[trigger] enc_at::<Data>(s, pos0, m)) by {
                            if enc_at::<Data>(s, pos0, m) {
                                lemma_data_enc_split(s, pos0, m);
                            }
                        }
                    }
                    return Err(e);
                },
            };
            let rv = crate::impls::vec::deserialize_slice::<usize>(backend);
            let v = match rv {
                Ok(v) => v,
                Err(e) => {
                    proof {
                        assert forall|m: DataModel| !(#[trigger] enc_at::<Data>(s, pos0, m)) by {
                            if enc_at::<Data>(s, pos0, m) {
                                lemma_data_enc_split(s, pos0, m);
                                assert(data_tag(m) == 2);
                            }
                        }
                    }
                    return Err(e);
                },
            };
            let out = DataView::C(x, v);
            proof {
                let e = <u64 as SerializeInner>::enc(x, pos0 + 1);
                let ev = <Vec<usize> as SerializeInner>::enc(v.canon(), pos0 + 1 + e.len());
                crate::traits::lemma_cat_at(s, pos0 + 1, e, ev);
                crate::traits::lemma_cat_at(s, pos0, prim_enc(1, 1, 2, pos0), e + ev);
                assert(enc_at::<Data>(s, pos0, Self::dcanon(&out))) by {
                    assert(<Data as SerializeInner>::enc(Self::dcanon(&out), pos0) == prim_enc(
                        1,
                        1,
                        2,
                        pos0,
                    ) + (e + ev));
                }
                assert forall|m: DataModel|
                    #[trigger] enc_at::<Data>(s, pos0, m) implies Self::dcanon(&out) == m by {
                    lemma_data_enc_split(s, pos0, m);
                    assert(data_tag(m) == 2);
                }
            }
            Ok(out)
        } else if t == 3 {
            let ra = <i32 as DeserializeInner>::_deserialize_eps_copy_inner(backend);
            let a = match ra {
                Ok(x) => x,
                Err(e) => {
                    proof {
                        assert forall|m: DataModel| !(#[trigger] enc_at::<Data>(s, pos0, m)) by {
                            if enc_at::<Data>(s, pos0, m) {
                                lemma_data_enc_split(s, pos0, m);
                            }
                        }
                    }
                    return Err(e);
                },
            };
            let rv = crate::impls::vec::deserialize_slice::<usize>(backend);
            let b = match rv {
                Ok(v) => v,
                Err(e) => {
                    proof {
                        assert forall|m: DataModel| !(#[trigger] enc_at::<Data>(s, pos0, m)) by {
                            if enc_at::<Data>(s, pos0, m) {
                                lemma_data_enc_split(s, pos0, m);
                                assert(data_tag(m) == 3);
                            }
                        }
                    }
                    return Err(e);
                },
            };
            let out = DataView::D { a, b };
            proof {
                let e = <i32 as SerializeInner>::enc(a, pos0 + 1);
                let ev = <Vec<usize> as SerializeInner>::enc(b.canon(), pos0 + 1 + e.len());
                crate::traits::lemma_cat_at(s, pos0 + 1, e, ev);
                crate::traits::lemma_cat_at(s, pos0, prim_enc(1, 1, 3, pos0), e + ev);
                assert(enc_at::<Data>(s, pos0, Self::dcanon(&out))) by {
                    assert(<Data as SerializeInner>::enc(Self::dcanon(&out), pos0) == prim_enc(
                        1,
                        1,
                        3,
                        pos0,
                    ) + (e + ev));
                }
                assert forall|m: DataModel|
                    #[trigger] enc_at::<Data>(s, pos0, m) implies Self::dcanon(&out) == m by {
                    lemma_data_enc_split(s, pos0, m);
                    assert(data_tag(m) == 3);
                }
            }
            Ok(out)
        } else {
            proof {
                assert forall|m: DataModel| !(#[trigger] enc_at::<Data>(s, pos0, m)) by {
                    if enc_at::<Data>(s, pos0, m) {
                        assert(t as int == data_tag(m));
                    }
                }
            }
            Err(DeserializeError::InvalidTag(t as u8))
        }
    }
}

} // verus!
