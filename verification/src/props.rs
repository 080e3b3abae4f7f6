//! The stated laws of the library, each proved once and for all.
//!
//! Round-trip for both deserialization flavours is part of the contracts of
//! [`crate::des::deserialize_full_copy`] and
//! [`crate::des::deserialize_eps_copy`]: every stream that
//! [`crate::ser::serialize`] produces satisfies [`crate::des::stream_has`],
//! and those contracts promise that such a stream is accepted and yields
//! the serialized model back. The laws below cover what is not already a
//! single function's contract.

use vstd::prelude::*;
use crate::{pad_len, zeros, valid_align, lemma_pad_len_bounds};
use crate::bytes::{le_bytes, lemma_le_bytes_len};
use crate::hash::xxh3_64_of;
use crate::traits::{TypeHash, SerializeInner, ZeroCopy};
use crate::ser::stream_enc;
use crate::impls::demo::{ZeroStruct, DeepStruct};

verus! {

/// Serialization is deterministic: the bytes written for a value depend on
/// its model alone, so two values with the same model serialize to
/// identical streams, on every invocation.
pub proof fn lemma_serialization_deterministic<T: SerializeInner>(
    m1: <T as DeepView>::V,
    m2: <T as DeepView>::V,
)
    requires
        m1 == m2,
    ensures
        stream_enc::<T>(m1) == stream_enc::<T>(m2),
{
}

/// Structural-fingerprint stability: the structural fingerprint digests
/// names alone, not layout. The same structure declared zero-copy and
/// deep-copy feeds identical bytes, so the two structural fingerprints are
/// equal although the memory layouts differ.
pub proof fn lemma_type_hash_ignores_layout()
    ensures
        <ZeroStruct as TypeHash>::th_input() == <DeepStruct as TypeHash>::th_input(),
        xxh3_64_of(<ZeroStruct as TypeHash>::th_input()) == xxh3_64_of(
            <DeepStruct as TypeHash>::th_input(),
        ),
{
}

/// Representation-fingerprint distinction: the representation fingerprints
/// of the same structure under its two layouts digest different bytes, so
/// the digests differ unless the hash collides.
pub proof fn lemma_type_repr_hash_distinguishes_layout()
    ensures
        <ZeroStruct as TypeHash>::trh_input() != <DeepStruct as TypeHash>::trh_input(),
{
    let a = <ZeroStruct as TypeHash>::trh_input();
    let b = <DeepStruct as TypeHash>::trh_input();
    lemma_le_bytes_len(8, 1);
    lemma_le_bytes_len(8, 0);
    assert(a[0] == le_bytes(8, 1)[0]);
    assert(b[0] == le_bytes(8, 0)[0]);
    assert(le_bytes(8, 1)[0] == 1int as u8);
    assert(le_bytes(8, 0)[0] == 0int as u8);
}

/// Structural-fingerprint distinction between element types: vectors of
/// 32-bit and of 64-bit integers feed different bytes, so the digests
/// differ unless the hash collides.
pub proof fn lemma_type_hash_distinguishes_element()
    ensures
        <Vec<u32> as TypeHash>::th_input() != <Vec<u64> as TypeHash>::th_input(),
{
    let a = <Vec<u32> as TypeHash>::th_input();
    let b = <Vec<u64> as TypeHash>::th_input();
    if a == b {
        reveal_strlit("Vec");
        reveal_strlit("u32");
        reveal_strlit("u64");
        broadcast use vstd::utf8::encode_utf8_decode_utf8;

        let va = vstd::utf8::encode_utf8("Vec"@);
        let ha = crate::hash::str_feed("Vec"@);
        lemma_le_bytes_len(8, va.len() as int);
        let ia = crate::hash::str_feed("u32"@);
        let ib = crate::hash::str_feed("u64"@);
        let ea = vstd::utf8::encode_utf8("u32"@);
        let eb = vstd::utf8::encode_utf8("u64"@);
        lemma_le_bytes_len(8, ea.len() as int);
        lemma_le_bytes_len(8, eb.len() as int);
        assert(ea.len() == eb.len()) by {
            assert(a.len() == b.len() || ea.len() != eb.len());
            if ea.len() != eb.len() {
                assert(a.len() == ha.len() + 8 + ea.len());
                assert(b.len() == ha.len() + 8 + eb.len());
            }
        }
        assert(ea =~= eb) by {
            assert forall|j: int| 0 <= j < ea.len() implies ea[j] == eb[j] by {
                assert(a[ha.len() + 8 + j] == ea[j]);
                assert(b[ha.len() + 8 + j] == eb[j]);
            }
        }
        assert(vstd::utf8::decode_utf8(ea) == "u32"@);
        assert(vstd::utf8::decode_utf8(eb) == "u64"@);
        assert(("u32"@)[1] == '3' && ("u64"@)[1] == '6');
        assert(false);
    }
}

/// Field alignment: the padding the writer emits before a field brings the
/// offset to an exact multiple of the field's alignment, whatever the
/// offset was.
pub proof fn lemma_field_alignment(pos: int, align: int)
    requires
        pos >= 0,
        valid_align(align),
    ensures
        (pos + pad_len(pos, align)) % align == 0,
        0 <= pad_len(pos, align) < align,
{
    lemma_pad_len_bounds(pos, align);
}

/// Alignment of zero-copy leaves: in the encoding of a zero-copy value at
/// any offset, the memory image starts right after that padding, at an
/// offset that is a multiple of the type's alignment.
pub proof fn lemma_zero_copy_field_aligned<T: ZeroCopy>(m: <T as DeepView>::V, pos: int)
    requires
        pos >= 0,
        T::model_wf(m),
    ensures
        T::enc(m, pos) == zeros(pad_len(pos, T::align_of())) + T::image(m),
        (pos + pad_len(pos, T::align_of())) % T::align_of() == 0,
{
    T::lemma_align();
    T::lemma_zero_enc(m, pos);
    lemma_pad_len_bounds(pos, T::align_of());
}

} // verus!
