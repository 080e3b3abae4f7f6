//! The serializable-type contract: copy-class markers, type fingerprints,
//! and the encoding every serializable type gives its values.
//!
//! A type's encoding is described by the spec function [`SerializeInner::enc`]
//! over its deep view (the mathematical model of a value), parameterized by
//! the stream offset at which writing starts, so that alignment padding is
//! part of the encoding itself.

use vstd::prelude::*;
use crate::ser::{FieldWrite, SerializeError};
use crate::hash::TypeHasher;
use crate::{pad_len, valid_align, zeros};

verus! {

/// Copy-class selector for types whose memory image is a fixed byte
/// sequence: their serialized form can be read back as a borrowed window.
pub struct Zero;

/// Copy-class selector for types with indirection: deserialization must
/// rebuild their spine field by field.
pub struct Deep;

/// A copy class: either [`Zero`] or [`Deep`].
pub trait CopySelector: Sized {
    spec fn is_zero() -> bool;
}

impl CopySelector for Zero {
    open spec fn is_zero() -> bool {
        true
    }
}

impl CopySelector for Deep {
    open spec fn is_zero() -> bool {
        false
    }
}

/// Associates every serializable type with its copy class; the class picks
/// the deserialization strategy for containers of the type.
pub trait CopyType {
    type Copy: CopySelector;
}

/// The two fingerprints of a type.
///
/// The structural fingerprint digests names alone: the type name, field and
/// variant names, recursively; it is the same on every architecture. The
/// representation fingerprint digests layout: alignment, size and copy
/// class, recursively; it distinguishes incompatible memory layouts of the
/// same structure.
pub trait TypeHash {
    /// Bytes fed for the structural fingerprint.
    spec fn th_input() -> Seq<u8>;

    /// Bytes fed for the representation fingerprint.
    spec fn trh_input() -> Seq<u8>;

    spec fn ty_name_spec() -> Seq<char>;

    /// The type's name, written to the stream header for diagnostics.
    fn ty_name() -> (r: String)
        ensures
            r@ == Self::ty_name_spec(),
    ;

    /// Feed the structural description of the type.
    fn type_hash(hasher: &mut TypeHasher)
        ensures
            final(hasher).fed() == old(hasher).fed() + Self::th_input(),
    ;

    /// Feed the memory-representation description of the type.
    fn type_repr_hash(hasher: &mut TypeHasher)
        ensures
            final(hasher).fed() == old(hasher).fed() + Self::trh_input(),
    ;
}

/// Inner trait to implement serialization of a type.
pub trait SerializeInner: TypeHash + DeepView + Sized {
    /// Whether the type is zero-copy: its encoding at an aligned offset is
    /// exactly its memory image.
    spec fn is_zero_copy() -> bool;

    /// Whether the type was left deep-copy although all its fields are
    /// zero-copy, so declaring it zero-copy would have been possible.
    spec fn zero_copy_mismatch() -> bool;

    /// The alignment of the type's serialized form.
    spec fn align_of() -> int;

    /// The models (deep views) that serializable values can have; lengths
    /// must fit the machine.
    spec fn model_wf(m: <Self as DeepView>::V) -> bool;

    /// The bytes emitted for a value with model `m` when writing starts at
    /// stream offset `pos`, leading alignment padding included.
    spec fn enc(m: <Self as DeepView>::V, pos: int) -> Seq<u8>;

    proof fn lemma_align()
        ensures
            valid_align(Self::align_of()),
    ;

    proof fn lemma_value_wf(&self)
        ensures
            Self::model_wf(self.deep_view()),
    ;

    /// Serialize this value using the given backend.
    fn _serialize_inner<W: FieldWrite>(&self, backend: &mut W) -> (r: Result<
        (),
        SerializeError,
    >)
        requires
            old(backend).wf(),
        ensures
            final(backend).wf(),
            final(backend).origin() == old(backend).origin(),
            r is Ok ==> final(backend).written() == old(backend).written() + Self::enc(
                self.deep_view(),
                old(backend).written().len() as int,
            ),
    ;
}

/// The stream `s` holds the encoding of model `m` at offset `pos`.
pub open spec fn enc_at<T: SerializeInner>(s: Seq<u8>, pos: int, m: <T as DeepView>::V) -> bool {
    &&& T::model_wf(m)
    &&& 0 <= pos
    &&& pos + T::enc(m, pos).len() <= s.len()
    &&& s.subrange(pos, pos + T::enc(m, pos).len() as int) == T::enc(m, pos)
}

/// The bytes of a run of elements, each encoded at the offset where the
/// previous one ended.
pub open spec fn seq_enc<T: SerializeInner>(ms: Seq<<T as DeepView>::V>, pos: int) -> Seq<u8>
    decreases ms.len(),
{
    if ms.len() == 0 {
        Seq::empty()
    } else {
        let e = T::enc(ms[0], pos);
        e + seq_enc::<T>(ms.drop_first(), pos + e.len())
    }
}

/// Peeling the last element off a run of encodings.
pub proof fn lemma_seq_enc_snoc<T: SerializeInner>(ms: Seq<<T as DeepView>::V>, pos: int)
    requires
        ms.len() > 0,
    ensures
        seq_enc::<T>(ms, pos) == seq_enc::<T>(ms.drop_last(), pos) + T::enc(
            ms.last(),
            pos + seq_enc::<T>(ms.drop_last(), pos).len(),
        ),
    decreases ms.len(),
{
    if ms.len() == 1 {
        assert(ms.drop_last() =~= Seq::<<T as DeepView>::V>::empty());
        assert(ms.drop_first() =~= Seq::<<T as DeepView>::V>::empty());
        assert(seq_enc::<T>(ms.drop_last(), pos) =~= Seq::<u8>::empty());
        assert(ms[0] == ms.last());
        assert(seq_enc::<T>(ms.drop_first(), pos + T::enc(ms[0], pos).len()) =~= Seq::<u8>::empty());
        assert(seq_enc::<T>(ms, pos) =~= T::enc(ms[0], pos) + Seq::<u8>::empty());
        assert(seq_enc::<T>(ms, pos) =~= seq_enc::<T>(ms.drop_last(), pos) + T::enc(
            ms.last(),
            pos + seq_enc::<T>(ms.drop_last(), pos).len(),
        ));
    } else {
        let e = T::enc(ms[0], pos);
        let rest = ms.drop_first();
        lemma_seq_enc_snoc::<T>(rest, pos + e.len());
        assert(rest.drop_last() =~= ms.drop_last().drop_first());
        assert(rest.last() == ms.last());
        assert(ms.drop_last()[0] == ms[0]);
        assert(ms.drop_last().len() > 0);
        assert(seq_enc::<T>(ms.drop_last(), pos) == e + seq_enc::<T>(
            ms.drop_last().drop_first(),
            pos + e.len(),
        ));
        assert(seq_enc::<T>(ms, pos) =~= seq_enc::<T>(ms.drop_last(), pos) + T::enc(
            ms.last(),
            pos + seq_enc::<T>(ms.drop_last(), pos).len(),
        ));
    }
}

/// A zero-copy type: its encoding at any offset is the alignment padding
/// followed by a fixed-size memory image, and the image alone determines
/// the value.
pub trait ZeroCopy: SerializeInner {
    /// Size in bytes of one serialized value.
    spec fn zsize() -> int;

    /// The memory image of a model: the encoding without padding.
    spec fn image(m: <Self as DeepView>::V) -> Seq<u8>;

    proof fn lemma_zero_props()
        ensures
            Self::is_zero_copy(),
            1 <= Self::zsize() <= 0xFFFF,
            Self::align_of() <= 8,
            Self::zsize() % Self::align_of() == 0,
    ;

    proof fn lemma_zero_enc(m: <Self as DeepView>::V, pos: int)
        requires
            pos >= 0,
            Self::model_wf(m),
        ensures
            Self::enc(m, pos) == zeros(pad_len(pos, Self::align_of())) + Self::image(m),
            Self::image(m).len() == Self::zsize(),
    ;

    /// The image determines the model.
    proof fn lemma_image_inj(m1: <Self as DeepView>::V, m2: <Self as DeepView>::V)
        requires
            Self::model_wf(m1),
            Self::model_wf(m2),
            Self::image(m1) == Self::image(m2),
        ensures
            m1 == m2,
    ;

    fn zsize_ex() -> (r: usize)
        ensures
            r == Self::zsize(),
    ;

    /// Rebuild a value from its memory image alone.
    fn from_image(b: &[u8]) -> (r: Result<Self, crate::des::DeserializeError>)
        requires
            b@.len() == Self::zsize(),
        ensures
            forall|m: <Self as DeepView>::V|
                (Self::model_wf(m) && b@ == #[trigger] Self::image(m)) ==> (r matches Ok(v)
                    && v.deep_view() == m),
            r matches Ok(v) ==> b@ == Self::image(v.deep_view()) && Self::model_wf(v.deep_view()),
    ;
}

/// Two byte runs found one after the other form their concatenation.
pub proof fn lemma_cat_at(s: Seq<u8>, pos: int, x: Seq<u8>, y: Seq<u8>)
    requires
        0 <= pos,
        pos + x.len() + y.len() <= s.len(),
        s.subrange(pos, pos + x.len() as int) == x,
        s.subrange(pos + x.len(), pos + x.len() + y.len()) == y,
    ensures
        s.subrange(pos, pos + x.len() + y.len()) == x + y,
{
    assert(s.subrange(pos, pos + x.len() + y.len()) =~= x + y);
}

/// A concatenation found in a stream splits into its two runs.
pub proof fn lemma_cat_split(s: Seq<u8>, pos: int, x: Seq<u8>, y: Seq<u8>)
    requires
        0 <= pos,
        pos + x.len() + y.len() <= s.len(),
        s.subrange(pos, pos + x.len() + y.len()) == x + y,
    ensures
        s.subrange(pos, pos + x.len() as int) == x,
        s.subrange(pos + x.len(), pos + x.len() + y.len()) == y,
{
    assert(s.subrange(pos, pos + x.len() as int) =~= x);
    assert(s.subrange(pos + x.len(), pos + x.len() + y.len()) =~= y) by {
        assert forall|j: int| 0 <= j < y.len() implies s.subrange(
            pos + x.len(),
            pos + x.len() + y.len(),
        )[j] == y[j] by {
            assert(s.subrange(pos, pos + x.len() + y.len())[x.len() + j] == (x + y)[x.len() + j]);
            assert(s.subrange(pos, pos + x.len() + y.len())[x.len() + j] == s[pos + x.len() + j]);
            assert((x + y)[x.len() + j] == y[j]);
            assert(s.subrange(pos + x.len(), pos + x.len() + y.len())[j] == s[pos + x.len() + j]);
        }
    }
}

} // verus!
