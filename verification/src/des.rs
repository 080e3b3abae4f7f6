//! The deserialization side: positioned readers over a stream of bytes, the
//! borrowed-slice cursor that ε-copy deserialization hands sub-slices out
//! of, and the deserialization traits.

use vstd::prelude::*;
use crate::{pad_len, valid_align, zeros, pad_align_to};
use crate::traits::{SerializeInner, CopySelector, enc_at};
use crate::bytes::{le_bytes, le_val, pow256, lemma_pow256_64};
use crate::impls::prim::{prim_enc, prim_enc_at, des_prim, lemma_prim_enc_len,
    lemma_prim_region_total};
use crate::ser::{stream_enc, header_pre, lemma_header_pre_len};
use crate::hash::{TypeHasher, xxh3_64_of};
use crate::traits::TypeHash;

verus! {

/// Errors that can happen during deserialization.
#[derive(Debug)]
pub enum DeserializeError {
    /// A file could not be opened for reading (raised by I/O front-ends).
    FileOpenError,
    /// The underlying reader ran out of bytes or failed.
    ReadError,
    /// The stream is reasonable but was written with the opposite byte
    /// order.
    EndiannessError,
    /// Padding, or the base of the byte slice, does not satisfy an
    /// alignment constraint.
    AlignmentError,
    /// The stream was written by an incompatible major version.
    MajorVersionMismatch(u16),
    /// The stream was written by a compatible but newer minor version.
    MinorVersionMismatch(u16),
    /// The stream was written on a machine with a different pointer width.
    UsizeSizeMismatch(usize),
    /// The first eight bytes are not the magic cookie: the stream is not one
    /// of ours.
    MagicCookieError(u64),
    /// A sum-type discriminant is out of range.
    InvalidTag(u8),
    /// The stream describes a different type than the one requested.
    WrongTypeHash { got_type_name: String, expected_type_name: String, expected: u64, got: u64 },
    /// The stream describes the right type with an incompatible in-memory
    /// representation.
    WrongTypeReprHash {
        got_type_name: String,
        expected_type_name: String,
        expected: u64,
        got: u64,
    },
}

/// A positioned reader over a byte stream.
pub trait ReadWithPos: Sized {
    /// The whole stream this reader walks.
    spec fn stream(&self) -> Seq<u8>;

    /// How far into the stream the reader is.
    spec fn pos(&self) -> int;

    spec fn wf(&self) -> bool;

    proof fn lemma_wf(&self)
        requires
            self.wf(),
        ensures
            0 <= self.pos() <= self.stream().len() <= usize::MAX,
    ;

    fn get_pos(&self) -> (r: usize)
        requires
            self.wf(),
        ensures
            r == self.pos(),
    ;

    /// Read the next `n` bytes; fails exactly when fewer are left.
    fn read_bytes(&mut self, n: usize) -> (r: Result<Vec<u8>, DeserializeError>)
        requires
            old(self).wf(),
        ensures
            final(self).wf(),
            final(self).stream() == old(self).stream(),
            r is Ok <==> old(self).pos() + n <= old(self).stream().len(),
            r matches Ok(v) ==> v@ == old(self).stream().subrange(
                old(self).pos(),
                old(self).pos() + n,
            ) && final(self).pos() == old(self).pos() + n,
            r is Err ==> (r matches Err(e) && e is ReadError) && final(self).pos() == old(
                self,
            ).pos(),
    ;

    /// Skip the padding that precedes an `align`-aligned field; fails when
    /// the padding runs past the stream or holds a nonzero byte.
    fn pad_align(&mut self, align: usize) -> (r: Result<(), DeserializeError>)
        requires
            old(self).wf(),
            valid_align(align as int),
        ensures
            final(self).wf(),
            final(self).stream() == old(self).stream(),
            ({
                let p = pad_len(old(self).pos(), align as int);
                &&& (r is Ok <==> (old(self).pos() + p <= old(self).stream().len() && old(
                    self,
                ).stream().subrange(old(self).pos(), old(self).pos() + p) == zeros(p)))
                &&& (r is Ok ==> final(self).pos() == old(self).pos() + p)
                &&& (r is Err ==> final(self).pos() == old(self).pos())
                &&& (r matches Err(e) ==> (if old(self).pos() + p > old(self).stream().len() {
                    e is ReadError
                } else {
                    e is AlignmentError
                }))
            }),
    ;
}

/// A positioned reader that owns its bytes: the full-copy deserializer's
/// input.
pub struct ReaderWithPos {
    data: Vec<u8>,
    pos: usize,
}

impl ReaderWithPos {
    /// Start reading `data` from its beginning.
    pub fn new(data: Vec<u8>) -> (r: Self)
        ensures
            r.wf(),
            r.stream() == data@,
            r.pos() == 0,
    {
        ReaderWithPos { data, pos: 0 }
    }
}

impl ReadWithPos for ReaderWithPos {
    closed spec fn stream(&self) -> Seq<u8> {
        self.data@
    }

    closed spec fn pos(&self) -> int {
        self.pos as int
    }

    closed spec fn wf(&self) -> bool {
        self.pos <= self.data@.len()
    }

    proof fn lemma_wf(&self) {
        vstd::std_specs::vec::axiom_spec_len(&self.data);
    }

    fn get_pos(&self) -> (r: usize) {
        self.pos
    }

    fn read_bytes(&mut self, n: usize) -> (r: Result<Vec<u8>, DeserializeError>) {
        let len = self.data.len();
        if n > len - self.pos {
            return Err(DeserializeError::ReadError);
        }
        let mut v: Vec<u8> = Vec::new();
        let mut i: usize = 0;
        while i < n
            invariant
                i <= n,
                self.pos + n <= self.data@.len(),
                self.data@.len() <= usize::MAX,
                v@ =~= self.data@.subrange(self.pos as int, self.pos + i),
            decreases n - i,
        {
            proof {
                assert(self.data@.subrange(self.pos as int, self.pos + i).push(
                    self.data@[self.pos + i],
                ) =~= self.data@.subrange(self.pos as int, self.pos + i + 1));
            }
            v.push(self.data[self.pos + i]);
            i = i + 1;
        }
        self.pos = self.pos + n;
        Ok(v)
    }

    fn pad_align(&mut self, align: usize) -> (r: Result<(), DeserializeError>) {
        let p = pad_align_to(self.pos, align);
        let len = self.data.len();
        if p > len - self.pos {
            return Err(DeserializeError::ReadError);
        }
        let mut i: usize = 0;
        while i < p
            invariant
                i <= p,
                self.pos == old(self).pos,
                self.data@ == old(self).data@,
                p == pad_len(self.pos as int, align as int),
                self.pos + p <= self.data@.len(),
                self.data@.len() <= usize::MAX,
                self.data@.subrange(self.pos as int, self.pos + i) =~= zeros(i as int),
            decreases p - i,
        {
            if self.data[self.pos + i] != 0 {
                proof {
                    let whole = self.data@.subrange(self.pos as int, self.pos + p);
                    assert(whole[i as int] == self.data@[self.pos + i]);
                    assert(zeros(p as int)[i as int] == 0);
                    assert(whole != zeros(p as int));
                }
                return Err(DeserializeError::AlignmentError);
            }
            proof {
                assert(self.data@.subrange(self.pos as int, self.pos + i).push(
                    self.data@[self.pos + i],
                ) =~= self.data@.subrange(self.pos as int, self.pos + i + 1));
                assert(zeros(i as int).push(0u8) =~= zeros(i + 1));
            }
            i = i + 1;
        }
        self.pos = self.pos + p;
        Ok(())
    }
}

/// A byte slice plus an offset: the ε-copy cursor. It reads like a
/// positioned reader but can also hand out sub-slices that borrow from the
/// underlying bytes.
pub struct SliceWithPos<'a> {
    data: &'a [u8],
    pos: usize,
}

impl<'a> SliceWithPos<'a> {
    /// Start reading `data` from its beginning.
    pub fn new(data: &'a [u8]) -> (r: Self)
        ensures
            r.wf(),
            r.stream() == data@,
            r.pos() == 0,
    {
        SliceWithPos { data, pos: 0 }
    }

    /// Hand out the next `n` bytes as a borrow of the underlying slice;
    /// fails exactly when fewer are left.
    pub fn take_bytes(&mut self, n: usize) -> (r: Result<&'a [u8], DeserializeError>)
        requires
            old(self).wf(),
        ensures
            final(self).wf(),
            final(self).stream() == old(self).stream(),
            r is Ok <==> old(self).pos() + n <= old(self).stream().len(),
            r matches Ok(b) ==> b@ == old(self).stream().subrange(
                old(self).pos(),
                old(self).pos() + n,
            ) && final(self).pos() == old(self).pos() + n,
            r is Err ==> (r matches Err(e) && e is ReadError) && final(self).pos() == old(
                self,
            ).pos(),
    {
        let len = self.data.len();
        if n > len - self.pos {
            return Err(DeserializeError::ReadError);
        }
        let whole: &'a [u8] = self.data;
        let b = vstd::slice::slice_subrange(whole, self.pos, self.pos + n);
        self.pos = self.pos + n;
        Ok(b)
    }
}

impl<'a> ReadWithPos for SliceWithPos<'a> {
    closed spec fn stream(&self) -> Seq<u8> {
        self.data@
    }

    closed spec fn pos(&self) -> int {
        self.pos as int
    }

    closed spec fn wf(&self) -> bool {
        self.pos <= self.data@.len()
    }

    proof fn lemma_wf(&self) {
        vstd::slice::axiom_spec_len(self.data);
    }

    fn get_pos(&self) -> (r: usize) {
        self.pos
    }

    fn read_bytes(&mut self, n: usize) -> (r: Result<Vec<u8>, DeserializeError>) {
        let len = self.data.len();
        if n > len - self.pos {
            return Err(DeserializeError::ReadError);
        }
        let mut v: Vec<u8> = Vec::new();
        let mut i: usize = 0;
        while i < n
            invariant
                i <= n,
                self.pos + n <= self.data@.len(),
                self.data@.len() <= usize::MAX,
                v@ =~= self.data@.subrange(self.pos as int, self.pos + i),
            decreases n - i,
        {
            proof {
                assert(self.data@.subrange(self.pos as int, self.pos + i).push(
                    self.data@[self.pos + i],
                ) =~= self.data@.subrange(self.pos as int, self.pos + i + 1));
            }
            v.push(self.data[self.pos + i]);
            i = i + 1;
        }
        self.pos = self.pos + n;
        Ok(v)
    }

    fn pad_align(&mut self, align: usize) -> (r: Result<(), DeserializeError>) {
        let p = pad_align_to(self.pos, align);
        let len = self.data.len();
        if p > len - self.pos {
            return Err(DeserializeError::ReadError);
        }
        let mut i: usize = 0;
        while i < p
            invariant
                i <= p,
                self.pos == old(self).pos,
                self.data@ == old(self).data@,
                p == pad_len(self.pos as int, align as int),
                self.pos + p <= self.data@.len(),
                self.data@.len() <= usize::MAX,
                self.data@.subrange(self.pos as int, self.pos + i) =~= zeros(i as int),
            decreases p - i,
        {
            if self.data[self.pos + i] != 0 {
                proof {
                    let whole = self.data@.subrange(self.pos as int, self.pos + p);
                    assert(whole[i as int] == self.data@[self.pos + i]);
                    assert(zeros(p as int)[i as int] == 0);
                    assert(whole != zeros(p as int));
                }
                return Err(DeserializeError::AlignmentError);
            }
            proof {
                assert(self.data@.subrange(self.pos as int, self.pos + i).push(
                    self.data@[self.pos + i],
                ) =~= self.data@.subrange(self.pos as int, self.pos + i + 1));
                assert(zeros(i as int).push(0u8) =~= zeros(i + 1));
            }
            i = i + 1;
        }
        self.pos = self.pos + p;
        Ok(())
    }
}

/// Inner trait to implement deserialization of a type.
///
/// Both methods promise the two directions that pin the result down: a
/// stream that holds the encoding of a model is accepted and yields exactly
/// that model, and whatever is accepted is the encoding of the model it
/// yields.
pub trait DeserializeInner: SerializeInner {
    /// The type ε-copy deserialization returns: the same shape with
    /// zero-copy parts replaced by borrows of the input slice.
    type DeserType<'a>;

    /// The model a deserialized view stands for.
    spec fn dcanon<'a>(w: &Self::DeserType<'a>) -> <Self as DeepView>::V;

    /// Fully deserialize an owned value.
    fn _deserialize_full_copy_inner<R: ReadWithPos>(backend: &mut R) -> (res: Result<
        Self,
        DeserializeError,
    >)
        requires
            old(backend).wf(),
        ensures
            final(backend).wf(),
            final(backend).stream() == old(backend).stream(),
            forall|m: <Self as DeepView>::V|
                #[trigger] enc_at::<Self>(old(backend).stream(), old(backend).pos(), m) ==> (
                res matches Ok(v) && v.deep_view() == m && final(backend).pos() == old(
                    backend,
                ).pos() + Self::enc(m, old(backend).pos()).len()),
            res matches Ok(v) ==> enc_at::<Self>(
                old(backend).stream(),
                old(backend).pos(),
                v.deep_view(),
            ) && final(backend).pos() == old(backend).pos() + Self::enc(
                v.deep_view(),
                old(backend).pos(),
            ).len(),
    ;

    /// ε-copy deserialize a view that borrows from the underlying slice.
    fn _deserialize_eps_copy_inner<'a>(backend: &mut SliceWithPos<'a>) -> (res: Result<
        Self::DeserType<'a>,
        DeserializeError,
    >)
        requires
            old(backend).wf(),
        ensures
            final(backend).wf(),
            final(backend).stream() == old(backend).stream(),
            forall|m: <Self as DeepView>::V|
                #[trigger] enc_at::<Self>(old(backend).stream(), old(backend).pos(), m) ==> (
                res matches Ok(w) && Self::dcanon(&w) == m && final(backend).pos() == old(
                    backend,
                ).pos() + Self::enc(m, old(backend).pos()).len()),
            res matches Ok(w) ==> enc_at::<Self>(
                old(backend).stream(),
                old(backend).pos(),
                Self::dcanon(&w),
            ) && final(backend).pos() == old(backend).pos() + Self::enc(
                Self::dcanon(&w),
                old(backend).pos(),
            ).len(),
    ;
}

/// A helper trait that makes it possible to implement deserialization
/// differently for zero-copy and deep-copy element types. Containers
/// delegate here, selecting the implementation through the element's copy
/// class.
pub trait DeserializeHelper<S: CopySelector>: SerializeInner {
    type HelpDeserType<'a>;

    spec fn hcanon<'a>(w: &Self::HelpDeserType<'a>) -> <Self as DeepView>::V;

    fn _deserialize_full_copy_inner_impl<R: ReadWithPos>(backend: &mut R) -> (res: Result<
        Self,
        DeserializeError,
    >)
        requires
            old(backend).wf(),
        ensures
            final(backend).wf(),
            final(backend).stream() == old(backend).stream(),
            forall|m: <Self as DeepView>::V|
                #[trigger] enc_at::<Self>(old(backend).stream(), old(backend).pos(), m) ==> (
                res matches Ok(v) && v.deep_view() == m && final(backend).pos() == old(
                    backend,
                ).pos() + Self::enc(m, old(backend).pos()).len()),
            res matches Ok(v) ==> enc_at::<Self>(
                old(backend).stream(),
                old(backend).pos(),
                v.deep_view(),
            ) && final(backend).pos() == old(backend).pos() + Self::enc(
                v.deep_view(),
                old(backend).pos(),
            ).len(),
    ;

    fn _deserialize_eps_copy_inner_impl<'a>(backend: &mut SliceWithPos<'a>) -> (res: Result<
        Self::HelpDeserType<'a>,
        DeserializeError,
    >)
        requires
            old(backend).wf(),
        ensures
            final(backend).wf(),
            final(backend).stream() == old(backend).stream(),
            forall|m: <Self as DeepView>::V|
                #[trigger] enc_at::<Self>(old(backend).stream(), old(backend).pos(), m) ==> (
                res matches Ok(w) && Self::hcanon(&w) == m && final(backend).pos() == old(
                    backend,
                ).pos() + Self::enc(m, old(backend).pos()).len()),
            res matches Ok(w) ==> enc_at::<Self>(
                old(backend).stream(),
                old(backend).pos(),
                Self::hcanon(&w),
            ) && final(backend).pos() == old(backend).pos() + Self::enc(
                Self::hcanon(&w),
                old(backend).pos(),
            ).len(),
    ;
}

/// The conditions under which a stream's header is accepted for a type
/// whose fingerprints are `h` and `rh`: magic cookie, compatible version,
/// native pointer width, zero padding, matching fingerprints, and a
/// readable type name.
pub open spec fn header_ok(s: Seq<u8>, h: u64, rh: u64) -> bool {
    &&& s.len() >= 40
    &&& le_val(s.subrange(0, 8)) == crate::MAGIC as int
    &&& le_val(s.subrange(8, 10)) == crate::VERSION_MAJOR as int
    &&& le_val(s.subrange(10, 12)) <= crate::VERSION_MINOR as int
    &&& le_val(s.subrange(12, 13)) == crate::USIZE_BYTES as int
    &&& s.subrange(13, 16) == zeros(3)
    &&& le_val(s.subrange(32, 40)) <= usize::MAX as int
    &&& 40 + le_val(s.subrange(32, 40)) <= s.len()
    &&& vstd::utf8::valid_utf8(s.subrange(40, 40 + le_val(s.subrange(32, 40))))
    &&& le_val(s.subrange(16, 24)) == h as int
    &&& le_val(s.subrange(24, 32)) == rh as int
}

/// Which error a rejected header produces, in the order the checks run;
/// `name` is the requesting type's name, reported in fingerprint errors.
pub open spec fn header_err(
    s: Seq<u8>,
    h: u64,
    rh: u64,
    name: Seq<char>,
    e: DeserializeError,
) -> bool {
    if s.len() < 8 {
        e is ReadError
    } else if le_val(s.subrange(0, 8)) == crate::MAGIC_REV as int {
        e is EndiannessError
    } else if le_val(s.subrange(0, 8)) != crate::MAGIC as int {
        e matches DeserializeError::MagicCookieError(m) && m as int == le_val(s.subrange(0, 8))
    } else if s.len() < 10 {
        e is ReadError
    } else if le_val(s.subrange(8, 10)) != crate::VERSION_MAJOR as int {
        e matches DeserializeError::MajorVersionMismatch(v) && v as int == le_val(
            s.subrange(8, 10),
        )
    } else if s.len() < 12 {
        e is ReadError
    } else if le_val(s.subrange(10, 12)) > crate::VERSION_MINOR as int {
        e matches DeserializeError::MinorVersionMismatch(v) && v as int == le_val(
            s.subrange(10, 12),
        )
    } else if s.len() < 13 {
        e is ReadError
    } else if le_val(s.subrange(12, 13)) != crate::USIZE_BYTES as int {
        e matches DeserializeError::UsizeSizeMismatch(u) && u as int == le_val(s.subrange(12, 13))
    } else if s.len() < 16 {
        e is ReadError
    } else if s.subrange(13, 16) != zeros(3) {
        e is AlignmentError
    } else if s.len() < 40 {
        e is ReadError
    } else if le_val(s.subrange(32, 40)) > usize::MAX as int {
        e is ReadError
    } else if 40 + le_val(s.subrange(32, 40)) > s.len() {
        e is ReadError
    } else if !vstd::utf8::valid_utf8(s.subrange(40, 40 + le_val(s.subrange(32, 40)))) {
        e is ReadError
    } else if le_val(s.subrange(16, 24)) != h as int {
        e matches DeserializeError::WrongTypeHash { got_type_name, expected_type_name, expected, got }
            && expected as int == le_val(s.subrange(16, 24)) && got == h && got_type_name@ == name
            && expected_type_name@ == vstd::utf8::decode_utf8(
            s.subrange(40, 40 + le_val(s.subrange(32, 40))),
        )
    } else if le_val(s.subrange(24, 32)) != rh as int {
        e matches DeserializeError::WrongTypeReprHash { got_type_name, expected_type_name, expected, got }
            && expected as int == le_val(s.subrange(24, 32)) && got == rh && got_type_name@ == name
            && expected_type_name@ == vstd::utf8::decode_utf8(
            s.subrange(40, 40 + le_val(s.subrange(32, 40))),
        )
    } else {
        false
    }
}

/// Validate the header at the start of the stream against the caller's
/// fingerprints: accepted exactly under [`header_ok`], and a rejection
/// reports the error [`header_err`] assigns to the stream.
pub fn check_header<R: ReadWithPos>(
    backend: &mut R,
    self_hash: u64,
    self_repr_hash: u64,
    self_name: String,
) -> (r: Result<(), DeserializeError>)
    requires
        old(backend).wf(),
        old(backend).pos() == 0,
    ensures
        final(backend).wf(),
        final(backend).stream() == old(backend).stream(),
        r is Ok <==> header_ok(old(backend).stream(), self_hash, self_repr_hash),
        r is Ok ==> final(backend).pos() == 40 + le_val(old(backend).stream().subrange(32, 40)),
        r matches Err(e) ==> header_err(
            old(backend).stream(),
            self_hash,
            self_repr_hash,
            self_name@,
            e,
        ),
{
    broadcast use vstd::utf8::encode_utf8_valid_utf8, vstd::utf8::encode_utf8_decode_utf8;

    let ghost s = old(backend).stream();
    proof {
        lemma_pow256_64();
        backend.lemma_wf();
        crate::lemma_pad_len_bounds(0, 8);
        assert(pad_len(0, 8) == 0 && pad_len(8, 2) == 0 && pad_len(10, 2) == 0 && pad_len(12, 1)
            == 0 && pad_len(13, 8) == 3 && pad_len(24, 8) == 0 && pad_len(32, 8) == 0) by {
            vstd::arithmetic::div_mod::lemma_mod_self_0(8);
            vstd::arithmetic::div_mod::lemma_mod_self_0(2);
            vstd::arithmetic::div_mod::lemma_mod_self_0(1);
        }
    }
    let magic = match des_prim(backend, 8, 8) {
        Ok(x) => x,
        Err(e) => {
            proof {
                assert(s.subrange(0, 0) =~= zeros(0));
                if s.len() >= 8 {
                    lemma_prim_region_total(s, 0, 8, 8);
                }
            }
            return Err(e);
        },
    };
    proof {
        assert(s.subrange(0, 8) =~= prim_enc(8, 8, magic as int, 0));
        crate::bytes::lemma_le_bytes_val(8, magic as int);
    }
    if magic == crate::MAGIC_REV {
        return Err(DeserializeError::EndiannessError);
    }
    if magic != crate::MAGIC {
        return Err(DeserializeError::MagicCookieError(magic));
    }
    let major = match des_prim(backend, 2, 2) {
        Ok(x) => x,
        Err(e) => {
            proof {
                assert(s.subrange(8, 8) =~= zeros(0));
                if s.len() >= 10 {
                    lemma_prim_region_total(s, 8, 2, 2);
                }
            }
            return Err(e);
        },
    };
    proof {
        assert(s.subrange(8, 10) =~= prim_enc(2, 2, major as int, 8));
        crate::bytes::lemma_le_bytes_val(2, major as int);
    }
    if major != crate::VERSION_MAJOR as u64 {
        return Err(DeserializeError::MajorVersionMismatch(major as u16));
    }
    let minor = match des_prim(backend, 2, 2) {
        Ok(x) => x,
        Err(e) => {
            proof {
                assert(s.subrange(10, 10) =~= zeros(0));
                if s.len() >= 12 {
                    lemma_prim_region_total(s, 10, 2, 2);
                }
            }
            return Err(e);
        },
    };
    proof {
        assert(s.subrange(10, 12) =~= prim_enc(2, 2, minor as int, 10));
        crate::bytes::lemma_le_bytes_val(2, minor as int);
    }
    if minor > crate::VERSION_MINOR as u64 {
        return Err(DeserializeError::MinorVersionMismatch(minor as u16));
    }
    let usize_size = match des_prim(backend, 1, 1) {
        Ok(x) => x,
        Err(e) => {
            proof {
                assert(s.subrange(12, 12) =~= zeros(0));
                if s.len() >= 13 {
                    lemma_prim_region_total(s, 12, 1, 1);
                }
            }
            return Err(e);
        },
    };
    proof {
        assert(s.subrange(12, 13) =~= prim_enc(1, 1, usize_size as int, 12));
        crate::bytes::lemma_le_bytes_val(1, usize_size as int);
    }
    if usize_size != crate::USIZE_BYTES as u64 {
        return Err(DeserializeError::UsizeSizeMismatch(usize_size as usize));
    }
    let stream_hash = match des_prim(backend, 8, 8) {
        Ok(x) => x,
        Err(e) => {
            proof {
                if s.len() >= 24 && s.subrange(13, 16) == zeros(3) {
                    lemma_prim_region_total(s, 13, 8, 8);
                }
            }
            return Err(e);
        },
    };
    proof {
        assert(s.subrange(13, 24) == prim_enc(8, 8, stream_hash as int, 13));
        assert(s.subrange(13, 16) =~= prim_enc(8, 8, stream_hash as int, 13).subrange(0, 3));
        assert(prim_enc(8, 8, stream_hash as int, 13).subrange(0, 3) =~= zeros(3));
        assert(s.subrange(16, 24) =~= prim_enc(8, 8, stream_hash as int, 13).subrange(3, 11));
        assert(prim_enc(8, 8, stream_hash as int, 13).subrange(3, 11) =~= le_bytes(
            8,
            stream_hash as int,
        ));
        crate::bytes::lemma_le_bytes_val(8, stream_hash as int);
    }
    let stream_repr_hash = match des_prim(backend, 8, 8) {
        Ok(x) => x,
        Err(e) => {
            proof {
                assert(s.subrange(24, 24) =~= zeros(0));
                if s.len() >= 32 {
                    lemma_prim_region_total(s, 24, 8, 8);
                }
            }
            return Err(e);
        },
    };
    proof {
        assert(s.subrange(24, 32) =~= prim_enc(8, 8, stream_repr_hash as int, 24));
        crate::bytes::lemma_le_bytes_val(8, stream_repr_hash as int);
    }
    let name_len = match des_prim(backend, 8, 8) {
        Ok(x) => x,
        Err(e) => {
            proof {
                assert(s.subrange(32, 32) =~= zeros(0));
                if s.len() >= 40 {
                    lemma_prim_region_total(s, 32, 8, 8);
                }
            }
            return Err(e);
        },
    };
    proof {
        assert(s.subrange(32, 40) =~= prim_enc(8, 8, name_len as int, 32));
        crate::bytes::lemma_le_bytes_val(8, name_len as int);
    }
    if name_len > usize::MAX as u64 {
        return Err(DeserializeError::ReadError);
    }
    let nl = name_len as usize;
    let name_bytes = match backend.read_bytes(nl) {
        Ok(v) => v,
        Err(e) => {
            return Err(e);
        },
    };
    let ghost nb = name_bytes@;
    let stream_name = match crate::impls::string::string_from_utf8(name_bytes) {
        Some(n) => n,
        None => {
            return Err(DeserializeError::ReadError);
        },
    };
    proof {
        assert(vstd::utf8::encode_utf8(stream_name@) == nb);
        assert(vstd::utf8::valid_utf8(nb));
        assert(vstd::utf8::decode_utf8(nb) == stream_name@);
    }
    if stream_hash != self_hash {
        return Err(DeserializeError::WrongTypeHash {
            got_type_name: self_name,
            got: self_hash,
            expected_type_name: stream_name,
            expected: stream_hash,
        });
    }
    if stream_repr_hash != self_repr_hash {
        return Err(DeserializeError::WrongTypeReprHash {
            got_type_name: self_name,
            got: self_repr_hash,
            expected_type_name: stream_name,
            expected: stream_repr_hash,
        });
    }
    Ok(())
}

/// The stream begins with the full serialized form of a value of type `T`
/// with model `m`, as this library writes it (trailing bytes are allowed
/// and ignored).
pub open spec fn stream_has<T: SerializeInner>(s: Seq<u8>, m: <T as DeepView>::V) -> bool {
    &&& T::model_wf(m)
    &&& stream_enc::<T>(m).len() <= s.len()
    &&& s.take(stream_enc::<T>(m).len() as int) == stream_enc::<T>(m)
}

/// A stream that begins with `T`'s serialized form passes the header check
/// for `T` and holds the value's encoding right after the header.
#[verifier::rlimit(60)]
pub proof fn lemma_stream_has_header<T: SerializeInner>(s: Seq<u8>, m: <T as DeepView>::V)
    requires
        stream_has::<T>(s, m),
        s.len() <= usize::MAX,
    ensures
        header_ok(s, xxh3_64_of(T::th_input()), xxh3_64_of(T::trh_input())),
        le_val(s.subrange(32, 40)) == vstd::utf8::encode_utf8(T::ty_name_spec()).len(),
        header_pre::<T>().len() == 40 + vstd::utf8::encode_utf8(T::ty_name_spec()).len(),
        enc_at::<T>(s, header_pre::<T>().len() as int, m),
{
    broadcast use vstd::utf8::encode_utf8_valid_utf8;

    lemma_pow256_64();
    lemma_header_pre_len::<T>();
    let th = xxh3_64_of(T::th_input());
    let trh = xxh3_64_of(T::trh_input());
    let nb = vstd::utf8::encode_utf8(T::ty_name_spec());
    let h = header_pre::<T>();
    let whole = stream_enc::<T>(m);
    lemma_prim_enc_len(8, 8, crate::MAGIC as int, 0);
    lemma_prim_enc_len(2, 2, crate::VERSION_MAJOR as int, 8);
    lemma_prim_enc_len(2, 2, crate::VERSION_MINOR as int, 10);
    lemma_prim_enc_len(1, 1, crate::USIZE_BYTES as int, 12);
    lemma_prim_enc_len(8, 8, th as int, 13);
    lemma_prim_enc_len(8, 8, trh as int, 24);
    lemma_prim_enc_len(8, 8, nb.len() as int, 32);
    crate::lemma_pad_len_bounds(0, 8);
    assert(pad_len(0, 8) == 0 && pad_len(8, 2) == 0 && pad_len(10, 2) == 0 && pad_len(12, 1) == 0
        && pad_len(13, 8) == 3 && pad_len(24, 8) == 0 && pad_len(32, 8) == 0) by {
        vstd::arithmetic::div_mod::lemma_mod_self_0(8);
        vstd::arithmetic::div_mod::lemma_mod_self_0(2);
        vstd::arithmetic::div_mod::lemma_mod_self_0(1);
    }
    assert(s.len() >= whole.len() >= h.len() == 40 + nb.len());
    assert(nb.len() < pow256(8));
    assert forall|j: int| 0 <= j < whole.len() implies s[j] == whole[j] by {
        assert(s.take(whole.len() as int)[j] == whole[j]);
    }
    assert(s.subrange(0, 8) =~= le_bytes(8, crate::MAGIC as int));
    crate::bytes::lemma_le_bytes_val(8, crate::MAGIC as int);
    assert(s.subrange(8, 10) =~= le_bytes(2, crate::VERSION_MAJOR as int));
    crate::bytes::lemma_le_bytes_val(2, crate::VERSION_MAJOR as int);
    assert(s.subrange(10, 12) =~= le_bytes(2, crate::VERSION_MINOR as int));
    crate::bytes::lemma_le_bytes_val(2, crate::VERSION_MINOR as int);
    assert(s.subrange(12, 13) =~= le_bytes(1, crate::USIZE_BYTES as int));
    crate::bytes::lemma_le_bytes_val(1, crate::USIZE_BYTES as int);
    assert(s.subrange(13, 16) =~= zeros(3));
    assert(s.subrange(16, 24) =~= le_bytes(8, th as int));
    crate::bytes::lemma_le_bytes_val(8, th as int);
    assert(s.subrange(24, 32) =~= le_bytes(8, trh as int));
    crate::bytes::lemma_le_bytes_val(8, trh as int);
    assert(s.subrange(32, 40) =~= le_bytes(8, nb.len() as int));
    crate::bytes::lemma_le_bytes_val(8, nb.len() as int);
    assert(s.subrange(40, 40 + nb.len() as int) =~= nb);
    assert(vstd::utf8::valid_utf8(nb));
    assert(s.subrange(h.len() as int, h.len() + T::enc(m, h.len() as int).len() as int) =~= T::enc(
        m,
        h.len() as int,
    ));
}

/// Relies on `<[u8]>::as_ptr`: the remainder of the slice's base address
/// modulo the strongest zero-copy alignment. The result depends on where
/// the allocator placed the bytes, so nothing more is promised of it.
#[verifier::external_body]
fn base_align_rem(b: &[u8]) -> (r: usize)
    ensures
        r < 16,
{
    (b.as_ptr() as usize) % crate::MAX_ALIGN
}

/// Fully deserialize a value of type `T` from the given backend: validate
/// the header, then rebuild an owned value.
///
/// Every stream this library serialized for `T` is accepted and yields the
/// serialized value back; whatever else is accepted passes the header check
/// and holds the returned value's encoding right after the header; a
/// rejected header reports the error [`header_err`] assigns.
pub fn deserialize_full_copy<T: SerializeInner + DeserializeInner, R: ReadWithPos>(backend: R) -> (res:
    Result<T, DeserializeError>)
    requires
        backend.wf(),
        backend.pos() == 0,
    ensures
        forall|m: <T as DeepView>::V|
            #[trigger] stream_has::<T>(backend.stream(), m) ==> (res matches Ok(v)
                && v.deep_view() == m),
        res matches Ok(v) ==> header_ok(
            backend.stream(),
            xxh3_64_of(T::th_input()),
            xxh3_64_of(T::trh_input()),
        ) && T::model_wf(v.deep_view()) && enc_at::<T>(
            backend.stream(),
            40 + le_val(backend.stream().subrange(32, 40)),
            v.deep_view(),
        ),
        res matches Err(e) ==> (!header_ok(
            backend.stream(),
            xxh3_64_of(T::th_input()),
            xxh3_64_of(T::trh_input()),
        ) ==> header_err(
            backend.stream(),
            xxh3_64_of(T::th_input()),
            xxh3_64_of(T::trh_input()),
            T::ty_name_spec(),
            e,
        )),
{
    let ghost s = backend.stream();
    proof {
        backend.lemma_wf();
    }
    let mut b = backend;
    let mut hasher = TypeHasher::new();
    T::type_hash(&mut hasher);
    let self_hash = hasher.finish();
    let mut hasher2 = TypeHasher::new();
    T::type_repr_hash(&mut hasher2);
    let self_repr_hash = hasher2.finish();
    match check_header(&mut b, self_hash, self_repr_hash, T::ty_name()) {
        Ok(u) => {},
        Err(e) => {
            proof {
                assert forall|m: <T as DeepView>::V| !(#[trigger] stream_has::<T>(s, m)) by {
                    if stream_has::<T>(s, m) {
                        lemma_stream_has_header::<T>(s, m);
                    }
                }
            }
            return Err(e);
        },
    }
    let r = T::_deserialize_full_copy_inner(&mut b);
    match r {
        Ok(v) => {
            proof {
                assert forall|m: <T as DeepView>::V|
                    #[trigger] stream_has::<T>(s, m) implies v.deep_view() == m by {
                    lemma_stream_has_header::<T>(s, m);
                }
            }
            Ok(v)
        },
        Err(e) => {
            proof {
                assert forall|m: <T as DeepView>::V| !(#[trigger] stream_has::<T>(s, m)) by {
                    if stream_has::<T>(s, m) {
                        lemma_stream_has_header::<T>(s, m);
                    }
                }
            }
            Err(e)
        },
    }
}

/// ε-copy deserialize a value of type `T` from a byte slice whose base must
/// be [`crate::MAX_ALIGN`]-aligned: validate the header, then rebuild only
/// the deep spine of the value, with zero-copy parts borrowing the slice.
///
/// On an aligned slice the same promises hold as for full-copy
/// deserialization, with the view canonicalized through
/// [`DeserializeInner::dcanon`]; a misaligned base is rejected with an
/// alignment error.
pub fn deserialize_eps_copy<'a, T: SerializeInner + DeserializeInner>(backend: &'a [u8]) -> (res:
    Result<<T as DeserializeInner>::DeserType<'a>, DeserializeError>)
    ensures
        forall|m: <T as DeepView>::V|
            #[trigger] stream_has::<T>(backend@, m) ==> ((res matches Ok(w) && T::dcanon(&w) == m)
                || (res matches Err(e) && e is AlignmentError)),
        res matches Ok(w) ==> header_ok(
            backend@,
            xxh3_64_of(T::th_input()),
            xxh3_64_of(T::trh_input()),
        ) && T::model_wf(T::dcanon(&w)) && enc_at::<T>(
            backend@,
            40 + le_val(backend@.subrange(32, 40)),
            T::dcanon(&w),
        ),
        res matches Err(e) ==> ((!(e is AlignmentError) && !header_ok(
            backend@,
            xxh3_64_of(T::th_input()),
            xxh3_64_of(T::trh_input()),
        )) ==> header_err(
            backend@,
            xxh3_64_of(T::th_input()),
            xxh3_64_of(T::trh_input()),
            T::ty_name_spec(),
            e,
        )),
{
    let ghost s = backend@;
    proof {
        vstd::slice::axiom_spec_len(backend);
    }
    if base_align_rem(backend) != 0 {
        return Err(DeserializeError::AlignmentError);
    }
    let mut b = SliceWithPos::new(backend);
    let mut hasher = TypeHasher::new();
    T::type_hash(&mut hasher);
    let self_hash = hasher.finish();
    let mut hasher2 = TypeHasher::new();
    T::type_repr_hash(&mut hasher2);
    let self_repr_hash = hasher2.finish();
    match check_header(&mut b, self_hash, self_repr_hash, T::ty_name()) {
        Ok(u) => {},
        Err(e) => {
            proof {
                assert forall|m: <T as DeepView>::V| !(#[trigger] stream_has::<T>(s, m)) by {
                    if stream_has::<T>(s, m) {
                        lemma_stream_has_header::<T>(s, m);
                    }
                }
            }
            return Err(e);
        },
    }
    let r = T::_deserialize_eps_copy_inner(&mut b);
    match r {
        Ok(w) => {
            proof {
                assert forall|m: <T as DeepView>::V|
                    #[trigger] stream_has::<T>(s, m) implies T::dcanon(&w) == m by {
                    lemma_stream_has_header::<T>(s, m);
                }
            }
            Ok(w)
        },
        Err(e) => {
            proof {
                assert forall|m: <T as DeepView>::V| !(#[trigger] stream_has::<T>(s, m)) by {
                    if stream_has::<T>(s, m) {
                        lemma_stream_has_header::<T>(s, m);
                    }
                }
            }
            Err(e)
        },
    }
}

} // verus!
