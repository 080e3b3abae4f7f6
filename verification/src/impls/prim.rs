//! Serialization of the primitive types: fixed-width little-endian images
//! preceded by alignment padding, shared by every integer width through one
//! pair of checked reader/writer helpers.

use vstd::prelude::*;
use crate::{pad_len, valid_align, zeros, lemma_pad_len_bounds};
use crate::bytes::{le_bytes, le_val, pow256, u64_to_le, le_to_u64, lemma_pow256_64,
    lemma_le_bytes_len, lemma_le_bytes_val, lemma_le_val_bytes};
use crate::hash::{TypeHasher, str_feed};
use crate::ser::{FieldWrite, SerializeError};
use crate::des::{ReadWithPos, SliceWithPos, DeserializeError, DeserializeInner};
use crate::traits::{TypeHash, SerializeInner, ZeroCopy, CopyType, Zero, Deep, enc_at};

verus! {

/// The encoding of a `width`-byte value `x` written at offset `pos` with
/// alignment `align`: padding, then the little-endian image.
pub open spec fn prim_enc(width: nat, align: int, x: int, pos: int) -> Seq<u8> {
    zeros(pad_len(pos, align)) + le_bytes(width, x)
}

/// The stream `s` holds `prim_enc(width, align, x, pos)` at `pos`.
pub open spec fn prim_enc_at(s: Seq<u8>, pos: int, width: nat, align: int, x: int) -> bool {
    &&& 0 <= pos
    &&& pos + pad_len(pos, align) + width <= s.len()
    &&& s.subrange(pos, pos + pad_len(pos, align) + width) == prim_enc(width, align, x, pos)
}

pub proof fn lemma_prim_enc_len(width: nat, align: int, x: int, pos: int)
    requires
        valid_align(align),
        pos >= 0,
    ensures
        prim_enc(width, align, x, pos).len() == pad_len(pos, align) + width,
{
    lemma_pad_len_bounds(pos, align);
    lemma_le_bytes_len(width, x);
}

/// A stream region with zero padding and enough bytes always holds the
/// encoding of the value its image bytes stand for.
pub proof fn lemma_prim_region_total(s: Seq<u8>, pos: int, width: nat, align: int)
    requires
        valid_align(align),
        1 <= width <= 8,
        0 <= pos,
        pos + pad_len(pos, align) + width <= s.len(),
        s.subrange(pos, pos + pad_len(pos, align)) == zeros(pad_len(pos, align)),
    ensures
        ({
            let v = le_val(s.subrange(pos + pad_len(pos, align), pos + pad_len(pos, align) + width));
            &&& 0 <= v < pow256(width)
            &&& prim_enc_at(s, pos, width, align, v)
        }),
{
    let pd = pad_len(pos, align);
    let region = s.subrange(pos + pd, pos + pd + width);
    lemma_le_val_bytes(region);
    lemma_pad_len_bounds(pos, align);
    let v = le_val(region);
    assert(le_bytes(region.len(), v) == region);
    assert(s.subrange(pos, pos + pd + width) =~= zeros(pd) + region);
    assert(prim_enc(width, align, v, pos) == zeros(pd) + le_bytes(width, v));
}

/// Write a `width`-byte value: padding, then the little-endian image.
pub fn ser_prim<W: FieldWrite>(backend: &mut W, x: u64, width: usize, align: usize) -> (r: Result<
    (),
    SerializeError,
>)
    requires
        old(backend).wf(),
        valid_align(align as int),
        1 <= width <= 8,
        (x as int) < pow256(width as nat),
    ensures
        final(backend).wf(),
        final(backend).origin() == old(backend).origin(),
        r is Ok ==> final(backend).written() == old(backend).written() + prim_enc(
            width as nat,
            align as int,
            x as int,
            old(backend).written().len() as int,
        ),
{
    let ghost w0 = old(backend).written();
    backend.pad_to(align)?;
    let v = u64_to_le(x, width);
    let r = backend.write_bytes(v.as_slice());
    match r {
        Ok(u) => {
            proof {
                assert(w0 + zeros(pad_len(w0.len() as int, align as int)) + le_bytes(
                    width as nat,
                    x as int,
                ) =~= w0 + prim_enc(width as nat, align as int, x as int, w0.len() as int));
            }
            Ok(())
        },
        Err(e) => Err(e),
    }
}

/// Read a `width`-byte value written at the current offset: checks the
/// padding, then reads the image. Succeeds exactly when the stream holds
/// zero padding and `width` more bytes here, and then returns the value
/// whose image those bytes are.
pub fn des_prim<R: ReadWithPos>(backend: &mut R, width: usize, align: usize) -> (res: Result<
    u64,
    DeserializeError,
>)
    requires
        old(backend).wf(),
        valid_align(align as int),
        1 <= width <= 8,
    ensures
        final(backend).wf(),
        final(backend).stream() == old(backend).stream(),
        res matches Ok(x) ==> (x as int) < pow256(width as nat) && prim_enc_at(
            old(backend).stream(),
            old(backend).pos(),
            width as nat,
            align as int,
            x as int,
        ) && final(backend).pos() == old(backend).pos() + pad_len(
            old(backend).pos(),
            align as int,
        ) + width,
        forall|m: int|
            (0 <= m < pow256(width as nat) && #[trigger] prim_enc_at(
                old(backend).stream(),
                old(backend).pos(),
                width as nat,
                align as int,
                m,
            )) ==> (res matches Ok(x) && x == m),
        res matches Err(e) ==> ({
            let p = pad_len(old(backend).pos(), align as int);
            if old(backend).pos() + p > old(backend).stream().len() {
                e is ReadError
            } else if old(backend).stream().subrange(
                old(backend).pos(),
                old(backend).pos() + p,
            ) != zeros(p) {
                e is AlignmentError
            } else {
                e is ReadError
            }
        }),
{
    let ghost s = old(backend).stream();
    let ghost pos0 = old(backend).pos();
    let ghost p = pad_len(pos0, align as int);
    proof {
        backend.lemma_wf();
        lemma_pad_len_bounds(pos0, align as int);
    }
    match backend.pad_align(align) {
        Ok(u) => {},
        Err(e) => {
            proof {
                assert forall|m: int|
                    !(0 <= m < pow256(width as nat) && #[trigger] prim_enc_at(
                        s,
                        pos0,
                        width as nat,
                        align as int,
                        m,
                    )) by {
                    if 0 <= m < pow256(width as nat) && prim_enc_at(
                        s,
                        pos0,
                        width as nat,
                        align as int,
                        m,
                    ) {
                        lemma_le_bytes_len(width as nat, m);
                        let whole = s.subrange(pos0, pos0 + p + width);
                        assert(whole == prim_enc(width as nat, align as int, m, pos0));
                        assert(s.subrange(pos0, pos0 + p) =~= whole.subrange(0, p));
                        assert(whole.subrange(0, p) =~= zeros(p));
                    }
                }
            }
            return Err(e);
        },
    }
    let r = backend.read_bytes(width);
    match r {
        Ok(v) => {
            let x = le_to_u64(v.as_slice());
            proof {
                lemma_le_val_bytes(v@);
                let whole = s.subrange(pos0, pos0 + p + width);
                assert(v@ == s.subrange(pos0 + p, pos0 + p + width));
                assert(whole =~= zeros(p) + v@) by {
                    assert(s.subrange(pos0, pos0 + p) == zeros(p));
                }
                assert(v@ == le_bytes(width as nat, x as int));
                assert(whole == prim_enc(width as nat, align as int, x as int, pos0));
                assert(prim_enc_at(s, pos0, width as nat, align as int, x as int));
                assert forall|m: int|
                    (0 <= m < pow256(width as nat) && #[trigger] prim_enc_at(
                        s,
                        pos0,
                        width as nat,
                        align as int,
                        m,
                    )) implies x as int == m by {
                    lemma_le_bytes_len(width as nat, m);
                    let pm = prim_enc(width as nat, align as int, m, pos0);
                    assert(s.subrange(pos0, pos0 + p + width) == pm);
                    assert(le_bytes(width as nat, m) =~= pm.subrange(p, p + width));
                    assert(v@ =~= pm.subrange(p, p + width));
                    lemma_le_bytes_val(width as nat, m);
                }
            }
            Ok(x)
        },
        Err(e) => {
            proof {
                assert forall|m: int|
                    !(0 <= m < pow256(width as nat) && #[trigger] prim_enc_at(
                        s,
                        pos0,
                        width as nat,
                        align as int,
                        m,
                    )) by {
                    if 0 <= m < pow256(width as nat) && prim_enc_at(
                        s,
                        pos0,
                        width as nat,
                        align as int,
                        m,
                    ) {
                        lemma_le_bytes_len(width as nat, m);
                    }
                }
            }
            Err(e)
        },
    }
}

impl TypeHash for u64 {
    open spec fn th_input() -> Seq<u8> {
        str_feed("u64"@)
    }

    open spec fn trh_input() -> Seq<u8> {
        le_bytes(8, 8) + le_bytes(8, 8)
    }

    open spec fn ty_name_spec() -> Seq<char> {
        "u64"@
    }

    fn ty_name() -> (r: String) {
        "u64".to_owned()
    }

    fn type_hash(hasher: &mut TypeHasher) {
        hasher.write_str("u64");
    }

    fn type_repr_hash(hasher: &mut TypeHasher) {
        let ghost base = hasher.fed();
        hasher.write_u64(8);
        hasher.write_u64(8);
        proof {
            assert(base + le_bytes(8, 8) + le_bytes(8, 8) =~= base + Self::trh_input());
        }
    }
}

impl CopyType for u64 {
    type Copy = Zero;
}

impl SerializeInner for u64 {
    open spec fn is_zero_copy() -> bool {
        true
    }

    open spec fn zero_copy_mismatch() -> bool {
        false
    }

    open spec fn align_of() -> int {
        8
    }

    open spec fn model_wf(m: u64) -> bool {
        true
    }

    open spec fn enc(m: u64, pos: int) -> Seq<u8> {
        prim_enc(8, 8, m as int, pos)
    }

    proof fn lemma_align() {
    }

    proof fn lemma_value_wf(&self) {
    }

    fn _serialize_inner<W: FieldWrite>(&self, backend: &mut W) -> (r: Result<
        (),
        SerializeError,
    >) {
        proof {
            lemma_pow256_64();
        }
        ser_prim(backend, *self, 8, 8)
    }
}

impl ZeroCopy for u64 {
    open spec fn zsize() -> int {
        8
    }

    open spec fn image(m: u64) -> Seq<u8> {
        le_bytes(8, m as int)
    }

    proof fn lemma_zero_props() {
    }

    proof fn lemma_zero_enc(m: u64, pos: int) {
        lemma_le_bytes_len(8, m as int);
    }

    proof fn lemma_image_inj(m1: u64, m2: u64) {
        lemma_pow256_64();
        lemma_le_bytes_val(8, m1 as int);
        lemma_le_bytes_val(8, m2 as int);
    }

    fn zsize_ex() -> (r: usize) {
        8
    }

    fn from_image(b: &[u8]) -> (r: Result<Self, DeserializeError>) {
        let x = le_to_u64(b);
        proof {
            lemma_pow256_64();
            lemma_le_val_bytes(b@);
            assert forall|m: u64| b@ == #[trigger] Self::image(m) implies x == m by {
                lemma_le_bytes_val(8, m as int);
            }
        }
        Ok(x)
    }
}

impl DeserializeInner for u64 {
    type DeserType<'a> = u64;

    open spec fn dcanon<'a>(w: &u64) -> u64 {
        *w
    }

    fn _deserialize_full_copy_inner<R: ReadWithPos>(backend: &mut R) -> (res: Result<
        Self,
        DeserializeError,
    >) {
        let ghost s = old(backend).stream();
        let ghost pos0 = old(backend).pos();
        proof {
            lemma_pow256_64();
            backend.lemma_wf();
            lemma_pad_len_bounds(pos0, 8);
        }
        let r = des_prim(backend, 8, 8);
        match r {
            Ok(x) => {
                proof {
                    lemma_prim_enc_len(8, 8, x as int, pos0);
                    assert forall|m: u64| #[trigger] enc_at::<u64>(s, pos0, m) implies x == m by {
                        lemma_prim_enc_len(8, 8, m as int, pos0);
                        assert(prim_enc_at(s, pos0, 8, 8, m as int));
                    }
                }
                Ok(x)
            },
            Err(e) => {
                proof {
                    assert forall|m: u64| !(#[trigger] enc_at::<u64>(s, pos0, m)) by {
                        if enc_at::<u64>(s, pos0, m) {
                            lemma_prim_enc_len(8, 8, m as int, pos0);
                            assert(prim_enc_at(s, pos0, 8, 8, m as int));
                        }
                    }
                }
                Err(e)
            },
        }
    }

    fn _deserialize_eps_copy_inner<'a>(backend: &mut SliceWithPos<'a>) -> (res: Result<
        u64,
        DeserializeError,
    >) {
        Self::_deserialize_full_copy_inner(backend)
    }
}


impl TypeHash for u8 {
    open spec fn th_input() -> Seq<u8> {
        str_feed("u8"@)
    }

    open spec fn trh_input() -> Seq<u8> {
        le_bytes(8, 1) + le_bytes(8, 1)
    }

    open spec fn ty_name_spec() -> Seq<char> {
        "u8"@
    }

    fn ty_name() -> (r: String) {
        "u8".to_owned()
    }

    fn type_hash(hasher: &mut TypeHasher) {
        hasher.write_str("u8");
    }

    fn type_repr_hash(hasher: &mut TypeHasher) {
        let ghost base = hasher.fed();
        hasher.write_u64(1);
        hasher.write_u64(1);
        proof {
            assert(base + le_bytes(8, 1) + le_bytes(8, 1) =~= base + Self::trh_input());
        }
    }
}

impl CopyType for u8 {
    type Copy = Zero;
}

impl SerializeInner for u8 {
    open spec fn is_zero_copy() -> bool {
        true
    }

    open spec fn zero_copy_mismatch() -> bool {
        false
    }

    open spec fn align_of() -> int {
        1
    }

    open spec fn model_wf(m: u8) -> bool {
        true
    }

    open spec fn enc(m: u8, pos: int) -> Seq<u8> {
        prim_enc(1, 1, m as int, pos)
    }

    proof fn lemma_align() {
    }

    proof fn lemma_value_wf(&self) {
    }

    fn _serialize_inner<W: FieldWrite>(&self, backend: &mut W) -> (r: Result<
        (),
        SerializeError,
    >) {
        proof {
            lemma_pow256_64();
        }
        ser_prim(backend, *self as u64, 1, 1)
    }
}

impl ZeroCopy for u8 {
    open spec fn zsize() -> int {
        1
    }

    open spec fn image(m: u8) -> Seq<u8> {
        le_bytes(1, m as int)
    }

    proof fn lemma_zero_props() {
    }

    proof fn lemma_zero_enc(m: u8, pos: int) {
        lemma_le_bytes_len(1, m as int);
    }

    proof fn lemma_image_inj(m1: u8, m2: u8) {
        lemma_pow256_64();
        lemma_le_bytes_val(1, m1 as int);
        lemma_le_bytes_val(1, m2 as int);
    }

    fn zsize_ex() -> (r: usize) {
        1
    }

    fn from_image(b: &[u8]) -> (r: Result<Self, DeserializeError>) {
        let x = le_to_u64(b);
        proof {
            lemma_pow256_64();
            lemma_le_val_bytes(b@);
            assert forall|m: u8| b@ == #[trigger] Self::image(m) implies x == m by {
                lemma_le_bytes_val(1, m as int);
            }
        }
        Ok(x as u8)
    }
}

impl DeserializeInner for u8 {
    type DeserType<'a> = u8;

    open spec fn dcanon<'a>(w: &u8) -> u8 {
        *w
    }

    fn _deserialize_full_copy_inner<R: ReadWithPos>(backend: &mut R) -> (res: Result<
        Self,
        DeserializeError,
    >) {
        let ghost s = old(backend).stream();
        let ghost pos0 = old(backend).pos();
        proof {
            lemma_pow256_64();
            backend.lemma_wf();
            lemma_pad_len_bounds(pos0, 1);
        }
        let r = des_prim(backend, 1, 1);
        match r {
            Ok(x) => {
                proof {
                    lemma_prim_enc_len(1, 1, x as int, pos0);
                    assert forall|m: u8| #[trigger] enc_at::<u8>(s, pos0, m) implies x == m by {
                        lemma_prim_enc_len(1, 1, m as int, pos0);
                        assert(prim_enc_at(s, pos0, 1, 1, m as int));
                    }
                }
                Ok(x as u8)
            },
            Err(e) => {
                proof {
                    assert forall|m: u8| !(#[trigger] enc_at::<u8>(s, pos0, m)) by {
                        if enc_at::<u8>(s, pos0, m) {
                            lemma_prim_enc_len(1, 1, m as int, pos0);
                            assert(prim_enc_at(s, pos0, 1, 1, m as int));
                        }
                    }
                }
                Err(e)
            },
        }
    }

    fn _deserialize_eps_copy_inner<'a>(backend: &mut SliceWithPos<'a>) -> (res: Result<
        u8,
        DeserializeError,
    >) {
        Self::_deserialize_full_copy_inner(backend)
    }
}


impl TypeHash for u16 {
    open spec fn th_input() -> Seq<u8> {
        str_feed("u16"@)
    }

    open spec fn trh_input() -> Seq<u8> {
        le_bytes(8, 2) + le_bytes(8, 2)
    }

    open spec fn ty_name_spec() -> Seq<char> {
        "u16"@
    }

    fn ty_name() -> (r: String) {
        "u16".to_owned()
    }

    fn type_hash(hasher: &mut TypeHasher) {
        hasher.write_str("u16");
    }

    fn type_repr_hash(hasher: &mut TypeHasher) {
        let ghost base = hasher.fed();
        hasher.write_u64(2);
        hasher.write_u64(2);
        proof {
            assert(base + le_bytes(8, 2) + le_bytes(8, 2) =~= base + Self::trh_input());
        }
    }
}

impl CopyType for u16 {
    type Copy = Zero;
}

impl SerializeInner for u16 {
    open spec fn is_zero_copy() -> bool {
        true
    }

    open spec fn zero_copy_mismatch() -> bool {
        false
    }

    open spec fn align_of() -> int {
        2
    }

    open spec fn model_wf(m: u16) -> bool {
        true
    }

    open spec fn enc(m: u16, pos: int) -> Seq<u8> {
        prim_enc(2, 2, m as int, pos)
    }

    proof fn lemma_align() {
    }

    proof fn lemma_value_wf(&self) {
    }

    fn _serialize_inner<W: FieldWrite>(&self, backend: &mut W) -> (r: Result<
        (),
        SerializeError,
    >) {
        proof {
            lemma_pow256_64();
        }
        ser_prim(backend, *self as u64, 2, 2)
    }
}

impl ZeroCopy for u16 {
    open spec fn zsize() -> int {
        2
    }

    open spec fn image(m: u16) -> Seq<u8> {
        le_bytes(2, m as int)
    }

    proof fn lemma_zero_props() {
    }

    proof fn lemma_zero_enc(m: u16, pos: int) {
        lemma_le_bytes_len(2, m as int);
    }

    proof fn lemma_image_inj(m1: u16, m2: u16) {
        lemma_pow256_64();
        lemma_le_bytes_val(2, m1 as int);
        lemma_le_bytes_val(2, m2 as int);
    }

    fn zsize_ex() -> (r: usize) {
        2
    }

    fn from_image(b: &[u8]) -> (r: Result<Self, DeserializeError>) {
        let x = le_to_u64(b);
        proof {
            lemma_pow256_64();
            lemma_le_val_bytes(b@);
            assert forall|m: u16| b@ == #[trigger] Self::image(m) implies x == m by {
                lemma_le_bytes_val(2, m as int);
            }
        }
        Ok(x as u16)
    }
}

impl DeserializeInner for u16 {
    type DeserType<'a> = u16;

    open spec fn dcanon<'a>(w: &u16) -> u16 {
        *w
    }

    fn _deserialize_full_copy_inner<R: ReadWithPos>(backend: &mut R) -> (res: Result<
        Self,
        DeserializeError,
    >) {
        let ghost s = old(backend).stream();
        let ghost pos0 = old(backend).pos();
        proof {
            lemma_pow256_64();
            backend.lemma_wf();
            lemma_pad_len_bounds(pos0, 2);
        }
        let r = des_prim(backend, 2, 2);
        match r {
            Ok(x) => {
                proof {
                    lemma_prim_enc_len(2, 2, x as int, pos0);
                    assert forall|m: u16| #[trigger] enc_at::<u16>(s, pos0, m) implies x == m by {
                        lemma_prim_enc_len(2, 2, m as int, pos0);
                        assert(prim_enc_at(s, pos0, 2, 2, m as int));
                    }
                }
                Ok(x as u16)
            },
            Err(e) => {
                proof {
                    assert forall|m: u16| !(#[trigger] enc_at::<u16>(s, pos0, m)) by {
                        if enc_at::<u16>(s, pos0, m) {
                            lemma_prim_enc_len(2, 2, m as int, pos0);
                            assert(prim_enc_at(s, pos0, 2, 2, m as int));
                        }
                    }
                }
                Err(e)
            },
        }
    }

    fn _deserialize_eps_copy_inner<'a>(backend: &mut SliceWithPos<'a>) -> (res: Result<
        u16,
        DeserializeError,
    >) {
        Self::_deserialize_full_copy_inner(backend)
    }
}


impl TypeHash for u32 {
    open spec fn th_input() -> Seq<u8> {
        str_feed("u32"@)
    }

    open spec fn trh_input() -> Seq<u8> {
        le_bytes(8, 4) + le_bytes(8, 4)
    }

    open spec fn ty_name_spec() -> Seq<char> {
        "u32"@
    }

    fn ty_name() -> (r: String) {
        "u32".to_owned()
    }

    fn type_hash(hasher: &mut TypeHasher) {
        hasher.write_str("u32");
    }

    fn type_repr_hash(hasher: &mut TypeHasher) {
        let ghost base = hasher.fed();
        hasher.write_u64(4);
        hasher.write_u64(4);
        proof {
            assert(base + le_bytes(8, 4) + le_bytes(8, 4) =~= base + Self::trh_input());
        }
    }
}

impl CopyType for u32 {
    type Copy = Zero;
}

impl SerializeInner for u32 {
    open spec fn is_zero_copy() -> bool {
        true
    }

    open spec fn zero_copy_mismatch() -> bool {
        false
    }

    open spec fn align_of() -> int {
        4
    }

    open spec fn model_wf(m: u32) -> bool {
        true
    }

    open spec fn enc(m: u32, pos: int) -> Seq<u8> {
        prim_enc(4, 4, m as int, pos)
    }

    proof fn lemma_align() {
    }

    proof fn lemma_value_wf(&self) {
    }

    fn _serialize_inner<W: FieldWrite>(&self, backend: &mut W) -> (r: Result<
        (),
        SerializeError,
    >) {
        proof {
            lemma_pow256_64();
        }
        ser_prim(backend, *self as u64, 4, 4)
    }
}

impl ZeroCopy for u32 {
    open spec fn zsize() -> int {
        4
    }

    open spec fn image(m: u32) -> Seq<u8> {
        le_bytes(4, m as int)
    }

    proof fn lemma_zero_props() {
    }

    proof fn lemma_zero_enc(m: u32, pos: int) {
        lemma_le_bytes_len(4, m as int);
    }

    proof fn lemma_image_inj(m1: u32, m2: u32) {
        lemma_pow256_64();
        lemma_le_bytes_val(4, m1 as int);
        lemma_le_bytes_val(4, m2 as int);
    }

    fn zsize_ex() -> (r: usize) {
        4
    }

    fn from_image(b: &[u8]) -> (r: Result<Self, DeserializeError>) {
        let x = le_to_u64(b);
        proof {
            lemma_pow256_64();
            lemma_le_val_bytes(b@);
            assert forall|m: u32| b@ == #[trigger] Self::image(m) implies x == m by {
                lemma_le_bytes_val(4, m as int);
            }
        }
        Ok(x as u32)
    }
}

impl DeserializeInner for u32 {
    type DeserType<'a> = u32;

    open spec fn dcanon<'a>(w: &u32) -> u32 {
        *w
    }

    fn _deserialize_full_copy_inner<R: ReadWithPos>(backend: &mut R) -> (res: Result<
        Self,
        DeserializeError,
    >) {
        let ghost s = old(backend).stream();
        let ghost pos0 = old(backend).pos();
        proof {
            lemma_pow256_64();
            backend.lemma_wf();
            lemma_pad_len_bounds(pos0, 4);
        }
        let r = des_prim(backend, 4, 4);
        match r {
            Ok(x) => {
                proof {
                    lemma_prim_enc_len(4, 4, x as int, pos0);
                    assert forall|m: u32| #[trigger] enc_at::<u32>(s, pos0, m) implies x == m by {
                        lemma_prim_enc_len(4, 4, m as int, pos0);
                        assert(prim_enc_at(s, pos0, 4, 4, m as int));
                    }
                }
                Ok(x as u32)
            },
            Err(e) => {
                proof {
                    assert forall|m: u32| !(#[trigger] enc_at::<u32>(s, pos0, m)) by {
                        if enc_at::<u32>(s, pos0, m) {
                            lemma_prim_enc_len(4, 4, m as int, pos0);
                            assert(prim_enc_at(s, pos0, 4, 4, m as int));
                        }
                    }
                }
                Err(e)
            },
        }
    }

    fn _deserialize_eps_copy_inner<'a>(backend: &mut SliceWithPos<'a>) -> (res: Result<
        u32,
        DeserializeError,
    >) {
        Self::_deserialize_full_copy_inner(backend)
    }
}


impl TypeHash for usize {
    open spec fn th_input() -> Seq<u8> {
        str_feed("usize"@)
    }

    open spec fn trh_input() -> Seq<u8> {
        le_bytes(8, 8) + le_bytes(8, 8)
    }

    open spec fn ty_name_spec() -> Seq<char> {
        "usize"@
    }

    fn ty_name() -> (r: String) {
        "usize".to_owned()
    }

    fn type_hash(hasher: &mut TypeHasher) {
        hasher.write_str("usize");
    }

    fn type_repr_hash(hasher: &mut TypeHasher) {
        let ghost base = hasher.fed();
        hasher.write_u64(8);
        hasher.write_u64(8);
        proof {
            assert(base + le_bytes(8, 8) + le_bytes(8, 8) =~= base + Self::trh_input());
        }
    }
}

impl CopyType for usize {
    type Copy = Zero;
}

impl SerializeInner for usize {
    open spec fn is_zero_copy() -> bool {
        true
    }

    open spec fn zero_copy_mismatch() -> bool {
        false
    }

    open spec fn align_of() -> int {
        8
    }

    open spec fn model_wf(m: usize) -> bool {
        true
    }

    open spec fn enc(m: usize, pos: int) -> Seq<u8> {
        prim_enc(8, 8, m as int, pos)
    }

    proof fn lemma_align() {
    }

    proof fn lemma_value_wf(&self) {
    }

    fn _serialize_inner<W: FieldWrite>(&self, backend: &mut W) -> (r: Result<
        (),
        SerializeError,
    >) {
        proof {
            lemma_pow256_64();
        }
        ser_prim(backend, *self as u64, 8, 8)
    }
}

impl ZeroCopy for usize {
    open spec fn zsize() -> int {
        8
    }

    open spec fn image(m: usize) -> Seq<u8> {
        le_bytes(8, m as int)
    }

    proof fn lemma_zero_props() {
    }

    proof fn lemma_zero_enc(m: usize, pos: int) {
        lemma_le_bytes_len(8, m as int);
    }

    proof fn lemma_image_inj(m1: usize, m2: usize) {
        lemma_pow256_64();
        lemma_le_bytes_val(8, m1 as int);
        lemma_le_bytes_val(8, m2 as int);
    }

    fn zsize_ex() -> (r: usize) {
        8
    }

    fn from_image(b: &[u8]) -> (r: Result<Self, DeserializeError>) {
        let x = le_to_u64(b);
        if x > usize::MAX as u64 {
            proof {
                lemma_pow256_64();
                lemma_le_val_bytes(b@);
                assert forall|m: usize| b@ != #[trigger] Self::image(m) by {
                    if b@ == Self::image(m) {
                        lemma_le_bytes_val(8, m as int);
                    }
                }
            }
            return Err(DeserializeError::ReadError);
        }
        proof {
            lemma_pow256_64();
            lemma_le_val_bytes(b@);
            assert forall|m: usize| b@ == #[trigger] Self::image(m) implies x as int == m as int by {
                lemma_le_bytes_val(8, m as int);
            }
        }
        Ok(x as usize)
    }
}

impl DeserializeInner for usize {
    type DeserType<'a> = usize;

    open spec fn dcanon<'a>(w: &usize) -> usize {
        *w
    }

    fn _deserialize_full_copy_inner<R: ReadWithPos>(backend: &mut R) -> (res: Result<
        Self,
        DeserializeError,
    >) {
        let ghost s = old(backend).stream();
        let ghost pos0 = old(backend).pos();
        proof {
            lemma_pow256_64();
            backend.lemma_wf();
            lemma_pad_len_bounds(pos0, 8);
        }
        let r = des_prim(backend, 8, 8);
        match r {
            Ok(x) => {
                if x > usize::MAX as u64 {
                    proof {
                        assert forall|m: usize| !(#[trigger] enc_at::<usize>(s, pos0, m)) by {
                            if enc_at::<usize>(s, pos0, m) {
                                lemma_prim_enc_len(8, 8, m as int, pos0);
                                assert(prim_enc_at(s, pos0, 8, 8, m as int));
                            }
                        }
                    }
                    return Err(DeserializeError::ReadError);
                }
                proof {
                    lemma_prim_enc_len(8, 8, x as int, pos0);
                    assert forall|m: usize| #[trigger] enc_at::<usize>(s, pos0, m) implies x as int
                        == m as int by {
                        lemma_prim_enc_len(8, 8, m as int, pos0);
                        assert(prim_enc_at(s, pos0, 8, 8, m as int));
                    }
                }
                Ok(x as usize)
            },
            Err(e) => {
                proof {
                    assert forall|m: usize| !(#[trigger] enc_at::<usize>(s, pos0, m)) by {
                        if enc_at::<usize>(s, pos0, m) {
                            lemma_prim_enc_len(8, 8, m as int, pos0);
                            assert(prim_enc_at(s, pos0, 8, 8, m as int));
                        }
                    }
                }
                Err(e)
            },
        }
    }

    fn _deserialize_eps_copy_inner<'a>(backend: &mut SliceWithPos<'a>) -> (res: Result<
        usize,
        DeserializeError,
    >) {
        Self::_deserialize_full_copy_inner(backend)
    }
}

/// The one-byte image a boolean is written as.
pub open spec fn bool_rep(m: bool) -> int {
    if m {
        1
    } else {
        0
    }
}

impl TypeHash for bool {
    open spec fn th_input() -> Seq<u8> {
        str_feed("bool"@)
    }

    open spec fn trh_input() -> Seq<u8> {
        le_bytes(8, 1) + le_bytes(8, 1)
    }

    open spec fn ty_name_spec() -> Seq<char> {
        "bool"@
    }

    fn ty_name() -> (r: String) {
        "bool".to_owned()
    }

    fn type_hash(hasher: &mut TypeHasher) {
        hasher.write_str("bool");
    }

    fn type_repr_hash(hasher: &mut TypeHasher) {
        let ghost base = hasher.fed();
        hasher.write_u64(1);
        hasher.write_u64(1);
        proof {
            assert(base + le_bytes(8, 1) + le_bytes(8, 1) =~= base + Self::trh_input());
        }
    }
}

impl CopyType for bool {
    type Copy = Zero;
}

impl SerializeInner for bool {
    open spec fn is_zero_copy() -> bool {
        true
    }

    open spec fn zero_copy_mismatch() -> bool {
        false
    }

    open spec fn align_of() -> int {
        1
    }

    open spec fn model_wf(m: bool) -> bool {
        true
    }

    open spec fn enc(m: bool, pos: int) -> Seq<u8> {
        prim_enc(1, 1, bool_rep(m), pos)
    }

    proof fn lemma_align() {
    }

    proof fn lemma_value_wf(&self) {
    }

    fn _serialize_inner<W: FieldWrite>(&self, backend: &mut W) -> (r: Result<
        (),
        SerializeError,
    >) {
        proof {
            lemma_pow256_64();
        }
        let x: u64 = if *self {
            1
        } else {
            0
        };
        ser_prim(backend, x, 1, 1)
    }
}

impl ZeroCopy for bool {
    open spec fn zsize() -> int {
        1
    }

    open spec fn image(m: bool) -> Seq<u8> {
        le_bytes(1, bool_rep(m))
    }

    proof fn lemma_zero_props() {
    }

    proof fn lemma_zero_enc(m: bool, pos: int) {
        lemma_le_bytes_len(1, bool_rep(m));
    }

    proof fn lemma_image_inj(m1: bool, m2: bool) {
        lemma_pow256_64();
        lemma_le_bytes_val(1, bool_rep(m1));
        lemma_le_bytes_val(1, bool_rep(m2));
    }

    fn zsize_ex() -> (r: usize) {
        1
    }

    fn from_image(b: &[u8]) -> (r: Result<Self, DeserializeError>) {
        let x = le_to_u64(b);
        proof {
            lemma_pow256_64();
            lemma_le_val_bytes(b@);
            assert forall|m: bool| b@ == #[trigger] Self::image(m) implies x as int == bool_rep(
                m,
            ) by {
                lemma_le_bytes_val(1, bool_rep(m));
            }
        }
        if x == 0 {
            Ok(false)
        } else if x == 1 {
            Ok(true)
        } else {
            Err(DeserializeError::InvalidTag(x as u8))
        }
    }
}

impl DeserializeInner for bool {
    type DeserType<'a> = bool;

    open spec fn dcanon<'a>(w: &bool) -> bool {
        *w
    }

    fn _deserialize_full_copy_inner<R: ReadWithPos>(backend: &mut R) -> (res: Result<
        Self,
        DeserializeError,
    >) {
        let ghost s = old(backend).stream();
        let ghost pos0 = old(backend).pos();
        proof {
            lemma_pow256_64();
            backend.lemma_wf();
            lemma_pad_len_bounds(pos0, 1);
        }
        let r = des_prim(backend, 1, 1);
        match r {
            Ok(x) => {
                proof {
                    lemma_prim_enc_len(1, 1, x as int, pos0);
                    assert forall|m: bool| #[trigger] enc_at::<bool>(s, pos0, m) implies x as int
                        == bool_rep(m) by {
                        lemma_prim_enc_len(1, 1, bool_rep(m), pos0);
                        assert(prim_enc_at(s, pos0, 1, 1, bool_rep(m)));
                    }
                }
                if x == 0 {
                    Ok(false)
                } else if x == 1 {
                    Ok(true)
                } else {
                    Err(DeserializeError::InvalidTag(x as u8))
                }
            },
            Err(e) => {
                proof {
                    assert forall|m: bool| !(#[trigger] enc_at::<bool>(s, pos0, m)) by {
                        if enc_at::<bool>(s, pos0, m) {
                            lemma_prim_enc_len(1, 1, bool_rep(m), pos0);
                            assert(prim_enc_at(s, pos0, 1, 1, bool_rep(m)));
                        }
                    }
                }
                Err(e)
            },
        }
    }

    fn _deserialize_eps_copy_inner<'a>(backend: &mut SliceWithPos<'a>) -> (res: Result<
        bool,
        DeserializeError,
    >) {
        Self::_deserialize_full_copy_inner(backend)
    }
}

/// The two's-complement value a signed 32-bit integer is written as.
pub open spec fn i32_rep(m: i32) -> int {
    if m >= 0 {
        m as int
    } else {
        m + 0x1_0000_0000
    }
}

impl TypeHash for i32 {
    open spec fn th_input() -> Seq<u8> {
        str_feed("i32"@)
    }

    open spec fn trh_input() -> Seq<u8> {
        le_bytes(8, 4) + le_bytes(8, 4)
    }

    open spec fn ty_name_spec() -> Seq<char> {
        "i32"@
    }

    fn ty_name() -> (r: String) {
        "i32".to_owned()
    }

    fn type_hash(hasher: &mut TypeHasher) {
        hasher.write_str("i32");
    }

    fn type_repr_hash(hasher: &mut TypeHasher) {
        let ghost base = hasher.fed();
        hasher.write_u64(4);
        hasher.write_u64(4);
        proof {
            assert(base + le_bytes(8, 4) + le_bytes(8, 4) =~= base + Self::trh_input());
        }
    }
}

impl CopyType for i32 {
    type Copy = Zero;
}

impl SerializeInner for i32 {
    open spec fn is_zero_copy() -> bool {
        true
    }

    open spec fn zero_copy_mismatch() -> bool {
        false
    }

    open spec fn align_of() -> int {
        4
    }

    open spec fn model_wf(m: i32) -> bool {
        true
    }

    open spec fn enc(m: i32, pos: int) -> Seq<u8> {
        prim_enc(4, 4, i32_rep(m), pos)
    }

    proof fn lemma_align() {
    }

    proof fn lemma_value_wf(&self) {
    }

    fn _serialize_inner<W: FieldWrite>(&self, backend: &mut W) -> (r: Result<
        (),
        SerializeError,
    >) {
        proof {
            lemma_pow256_64();
        }
        let x: u64 = if *self >= 0 {
            *self as u64
        } else {
            ((*self as i64) + 0x1_0000_0000i64) as u64
        };
        ser_prim(backend, x, 4, 4)
    }
}

impl ZeroCopy for i32 {
    open spec fn zsize() -> int {
        4
    }

    open spec fn image(m: i32) -> Seq<u8> {
        le_bytes(4, i32_rep(m))
    }

    proof fn lemma_zero_props() {
    }

    proof fn lemma_zero_enc(m: i32, pos: int) {
        lemma_le_bytes_len(4, i32_rep(m));
    }

    proof fn lemma_image_inj(m1: i32, m2: i32) {
        lemma_pow256_64();
        lemma_le_bytes_val(4, i32_rep(m1));
        lemma_le_bytes_val(4, i32_rep(m2));
    }

    fn zsize_ex() -> (r: usize) {
        4
    }

    fn from_image(b: &[u8]) -> (r: Result<Self, DeserializeError>) {
        let x = le_to_u64(b);
        proof {
            lemma_pow256_64();
            lemma_le_val_bytes(b@);
            assert forall|m: i32| b@ == #[trigger] Self::image(m) implies x as int == i32_rep(
                m,
            ) by {
                lemma_le_bytes_val(4, i32_rep(m));
            }
        }
        if x < 0x8000_0000 {
            Ok(x as i32)
        } else {
            Ok(((x as i64) - 0x1_0000_0000i64) as i32)
        }
    }
}

impl DeserializeInner for i32 {
    type DeserType<'a> = i32;

    open spec fn dcanon<'a>(w: &i32) -> i32 {
        *w
    }

    fn _deserialize_full_copy_inner<R: ReadWithPos>(backend: &mut R) -> (res: Result<
        Self,
        DeserializeError,
    >) {
        let ghost s = old(backend).stream();
        let ghost pos0 = old(backend).pos();
        proof {
            lemma_pow256_64();
            backend.lemma_wf();
            lemma_pad_len_bounds(pos0, 4);
        }
        let r = des_prim(backend, 4, 4);
        match r {
            Ok(x) => {
                proof {
                    lemma_prim_enc_len(4, 4, x as int, pos0);
                    assert forall|m: i32| #[trigger] enc_at::<i32>(s, pos0, m) implies x as int
                        == i32_rep(m) by {
                        lemma_prim_enc_len(4, 4, i32_rep(m), pos0);
                        assert(prim_enc_at(s, pos0, 4, 4, i32_rep(m)));
                    }
                }
                if x < 0x8000_0000 {
                    Ok(x as i32)
                } else {
                    Ok(((x as i64) - 0x1_0000_0000i64) as i32)
                }
            },
            Err(e) => {
                proof {
                    assert forall|m: i32| !(#[trigger] enc_at::<i32>(s, pos0, m)) by {
                        if enc_at::<i32>(s, pos0, m) {
                            lemma_prim_enc_len(4, 4, i32_rep(m), pos0);
                            assert(prim_enc_at(s, pos0, 4, 4, i32_rep(m)));
                        }
                    }
                }
                Err(e)
            },
        }
    }

    fn _deserialize_eps_copy_inner<'a>(backend: &mut SliceWithPos<'a>) -> (res: Result<
        i32,
        DeserializeError,
    >) {
        Self::_deserialize_full_copy_inner(backend)
    }
}

impl TypeHash for () {
    open spec fn th_input() -> Seq<u8> {
        str_feed("()"@)
    }

    open spec fn trh_input() -> Seq<u8> {
        le_bytes(8, 1) + le_bytes(8, 0)
    }

    open spec fn ty_name_spec() -> Seq<char> {
        "()"@
    }

    fn ty_name() -> (r: String) {
        "()".to_owned()
    }

    fn type_hash(hasher: &mut TypeHasher) {
        hasher.write_str("()");
    }

    fn type_repr_hash(hasher: &mut TypeHasher) {
        let ghost base = hasher.fed();
        hasher.write_u64(1);
        hasher.write_u64(0);
        proof {
            assert(base + le_bytes(8, 1) + le_bytes(8, 0) =~= base + Self::trh_input());
        }
    }
}

impl CopyType for () {
    type Copy = Deep;
}

impl SerializeInner for () {
    open spec fn is_zero_copy() -> bool {
        true
    }

    open spec fn zero_copy_mismatch() -> bool {
        false
    }

    open spec fn align_of() -> int {
        1
    }

    open spec fn model_wf(m: ()) -> bool {
        true
    }

    open spec fn enc(m: (), pos: int) -> Seq<u8> {
        Seq::empty()
    }

    proof fn lemma_align() {
    }

    proof fn lemma_value_wf(&self) {
    }

    fn _serialize_inner<W: FieldWrite>(&self, backend: &mut W) -> (r: Result<
        (),
        SerializeError,
    >) {
        proof {
            assert(old(backend).written() + Self::enc(self.deep_view(), 0) =~= old(
                backend,
            ).written());
        }
        Ok(())
    }
}

impl DeserializeInner for () {
    type DeserType<'a> = ();

    open spec fn dcanon<'a>(w: &()) -> () {
        *w
    }

    fn _deserialize_full_copy_inner<R: ReadWithPos>(backend: &mut R) -> (res: Result<
        Self,
        DeserializeError,
    >) {
        proof {
            backend.lemma_wf();
            assert(old(backend).stream().subrange(old(backend).pos(), old(backend).pos())
                =~= Seq::<u8>::empty());
        }
        Ok(())
    }

    fn _deserialize_eps_copy_inner<'a>(backend: &mut SliceWithPos<'a>) -> (res: Result<
        (),
        DeserializeError,
    >) {
        proof {
            backend.lemma_wf();
            assert(old(backend).stream().subrange(old(backend).pos(), old(backend).pos())
                =~= Seq::<u8>::empty());
        }
        Ok(())
    }
}

} // verus!
