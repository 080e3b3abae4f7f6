//! The serialization side: byte sinks, the position-tracking writer that
//! emits alignment padding, and the field-recording schema writer.

use vstd::prelude::*;
use vstd::utf8::encode_utf8;
use crate::{pad_len, valid_align, zeros, pad_align_to};
use crate::hash::{TypeHasher, xxh3_64_of};
use crate::traits::SerializeInner;
use crate::impls::prim::{prim_enc, ser_prim, lemma_prim_enc_len};
use crate::bytes::lemma_pow256_64;

verus! {

/// Errors that can happen during serialization.
#[derive(Debug)]
pub enum SerializeError {
    /// The underlying writer returned an error.
    WriteError,
    /// A file could not be opened for writing (raised by I/O front-ends).
    FileOpenError,
}

/// A byte sink. A write either accepts the whole buffer or reports an error
/// and leaves the sink as it was.
pub trait WriteNoStd: Sized {
    /// All bytes this sink has accepted.
    spec fn out(&self) -> Seq<u8>;

    /// Write all of `buf` and return how many bytes were written.
    fn write(&mut self, buf: &[u8]) -> (r: Result<usize, SerializeError>)
        ensures
            r matches Ok(n) ==> n == buf@.len() && final(self).out() == old(self).out() + buf@
                && final(self).out().len() <= usize::MAX,
            r is Err ==> final(self).out() == old(self).out(),
    ;

    /// Flush buffered bytes to the underlying storage, if any.
    fn flush(&mut self) -> (r: Result<(), SerializeError>)
        ensures
            final(self).out() == old(self).out(),
    ;
}

impl WriteNoStd for Vec<u8> {
    open spec fn out(&self) -> Seq<u8> {
        self@
    }

    fn write(&mut self, buf: &[u8]) -> (r: Result<usize, SerializeError>) {
        let ghost base = self@;
        let mut i: usize = 0;
        while i < buf.len()
            invariant
                i <= buf@.len(),
                self@ == base + buf@.take(i as int),
            decreases buf@.len() - i,
        {
            proof {
                assert((base + buf@.take(i as int)).push(buf@[i as int]) =~= base
                    + buf@.take(i + 1));
            }
            self.push(buf[i]);
            i = i + 1;
        }
        proof {
            assert(buf@.take(buf@.len() as int) =~= buf@);
        }
        let l = self.len();
        Ok(buf.len())
    }

    fn flush(&mut self) -> (r: Result<(), SerializeError>) {
        Ok(())
    }
}

/// A positioned writer: the interface the serializers write through. It
/// tracks how many bytes have passed so that padding can bring the next
/// field to an aligned offset, and it may record fields for a schema.
pub trait FieldWrite: Sized {
    /// The bytes written through this writer since it was created.
    spec fn written(&self) -> Seq<u8>;

    /// What the underlying sink held when this writer was created; writing
    /// never disturbs it.
    spec fn origin(&self) -> Seq<u8>;

    spec fn wf(&self) -> bool;

    /// The current offset from the start of the stream.
    fn get_pos(&self) -> (r: usize)
        requires
            self.wf(),
        ensures
            r == self.written().len(),
    ;

    fn write_bytes(&mut self, buf: &[u8]) -> (r: Result<(), SerializeError>)
        requires
            old(self).wf(),
        ensures
            final(self).wf(),
            final(self).origin() == old(self).origin(),
            r is Ok ==> final(self).written() == old(self).written() + buf@,
            r is Err ==> final(self).written() == old(self).written(),
    ;

    /// Emit zero bytes until the offset is a multiple of `align`.
    fn pad_to(&mut self, align: usize) -> (r: Result<(), SerializeError>)
        requires
            old(self).wf(),
            valid_align(align as int),
        ensures
            final(self).wf(),
            final(self).origin() == old(self).origin(),
            r is Ok ==> final(self).written() == old(self).written() + zeros(
                pad_len(old(self).written().len() as int, align as int),
            ),
            r is Err ==> final(self).written() == old(self).written(),
    ;

    /// Note that the field `name` occupies `[offset, offset + size)`; writers
    /// without a schema ignore it.
    fn record_field(&mut self, name: &str, offset: usize, size: usize)
        requires
            old(self).wf(),
        ensures
            final(self).wf(),
            final(self).origin() == old(self).origin(),
            final(self).written() == old(self).written(),
    ;
}

/// A run of `n` zero bytes.
pub fn zero_vec(n: usize) -> (r: Vec<u8>)
    ensures
        r@ == zeros(n as int),
{
    let mut r: Vec<u8> = Vec::new();
    let mut i: usize = 0;
    while i < n
        invariant
            i <= n,
            r@ =~= zeros(i as int),
        decreases n - i,
    {
        proof {
            assert(zeros(i as int).push(0u8) =~= zeros(i + 1));
        }
        r.push(0u8);
        i = i + 1;
    }
    r
}

/// A little wrapper around a writer that keeps track of the current
/// position, so that the data can be aligned.
pub struct WriteWithPos<F: WriteNoStd> {
    backend: F,
    pos: usize,
    start: Ghost<Seq<u8>>,
}

impl<F: WriteNoStd> WriteWithPos<F> {
    /// Create a new positioned writer on top of a generic writer `F`,
    /// starting at position zero.
    pub fn new(backend: F) -> (r: Self)
        ensures
            r.wf(),
            r.written() == Seq::<u8>::empty(),
            r.backend_out() == backend.out(),
            r.origin() == backend.out(),
    {
        let ghost start = backend.out();
        let r = WriteWithPos { backend, pos: 0, start: Ghost(start) };
        proof {
            assert(r.backend.out().take(start.len() as int) =~= start);
            assert(r.written() =~= Seq::<u8>::empty());
        }
        r
    }

    /// Everything the underlying sink holds, including bytes from before
    /// this writer was created.
    pub closed spec fn backend_out(&self) -> Seq<u8> {
        self.backend.out()
    }

    /// The sink holds what it started with followed by what was written.
    pub proof fn lemma_split(&self)
        requires
            self.wf(),
        ensures
            self.backend_out() == self.origin() + self.written(),
    {
        assert(self.backend.out() =~= self.start@ + self.backend.out().skip(
            self.start@.len() as int,
        ));
    }

    /// Hand the underlying sink back.
    pub fn into_inner(self) -> (r: F)
        ensures
            r.out() == self.backend_out(),
    {
        self.backend
    }

    /// Flush the underlying sink.
    pub fn flush(&mut self) -> (r: Result<(), SerializeError>)
        requires
            old(self).wf(),
        ensures
            final(self).wf(),
            final(self).written() == old(self).written(),
            final(self).backend_out() == old(self).backend_out(),
            final(self).origin() == old(self).origin(),
    {
        self.backend.flush()
    }
}

impl<F: WriteNoStd> FieldWrite for WriteWithPos<F> {
    closed spec fn written(&self) -> Seq<u8> {
        self.backend.out().skip(self.start@.len() as int)
    }

    closed spec fn origin(&self) -> Seq<u8> {
        self.start@
    }

    closed spec fn wf(&self) -> bool {
        &&& self.backend.out().len() >= self.start@.len()
        &&& self.backend.out().take(self.start@.len() as int) == self.start@
        &&& self.pos == self.backend.out().len() - self.start@.len()
    }

    fn get_pos(&self) -> (r: usize) {
        self.pos
    }

    fn write_bytes(&mut self, buf: &[u8]) -> (r: Result<(), SerializeError>) {
        let ghost pre = self.backend.out();
        match self.backend.write(buf) {
            Ok(n) => {
                proof {
                    assert((pre + buf@).take(self.start@.len() as int) =~= pre.take(
                        self.start@.len() as int,
                    ));
                    assert((pre + buf@).skip(self.start@.len() as int) =~= pre.skip(
                        self.start@.len() as int,
                    ) + buf@);
                }
                self.pos = self.pos + n;
                Ok(())
            },
            Err(e) => Err(e),
        }
    }

    fn pad_to(&mut self, align: usize) -> (r: Result<(), SerializeError>) {
        let p = pad_align_to(self.pos, align);
        let buf = zero_vec(p);
        self.write_bytes(buf.as_slice())
    }

    fn record_field(&mut self, name: &str, offset: usize, size: usize) {
    }
}

/// One schema row: where a named field landed in the stream.
pub struct SchemaRecord {
    pub name: String,
    pub offset: usize,
    pub size: usize,
}

/// The field layout recorded while serializing: diagnostic output, one
/// record per field in completion order.
pub struct Schema(pub Vec<SchemaRecord>);

/// A writer decorator that additionally records a [`Schema`].
pub struct SchemaWriter<F: WriteNoStd> {
    writer: WriteWithPos<F>,
    /// The records collected so far.
    pub schema: Schema,
}

impl<F: WriteNoStd> SchemaWriter<F> {
    /// The wrapped positioned writer.
    pub closed spec fn inner(&self) -> WriteWithPos<F> {
        self.writer
    }

    /// Start recording on top of a positioned writer.
    pub fn new(writer: WriteWithPos<F>) -> (r: Self)
        requires
            writer.wf(),
        ensures
            r.wf(),
            r.written() == writer.written(),
            r.origin() == writer.origin(),
            r.inner() == writer,
    {
        SchemaWriter { writer, schema: Schema(Vec::new()) }
    }

    /// Hand back the positioned writer and the schema.
    pub fn into_parts(self) -> (r: (WriteWithPos<F>, Schema))
        ensures
            r.0 == self.inner(),
            r.0.written() == self.written(),
            r.0.origin() == self.origin(),
            r.0.wf() == self.wf(),
    {
        (self.writer, self.schema)
    }
}

impl<F: WriteNoStd> FieldWrite for SchemaWriter<F> {
    closed spec fn written(&self) -> Seq<u8> {
        self.writer.written()
    }

    closed spec fn origin(&self) -> Seq<u8> {
        self.writer.origin()
    }

    closed spec fn wf(&self) -> bool {
        self.writer.wf()
    }

    fn get_pos(&self) -> (r: usize) {
        self.writer.get_pos()
    }

    fn write_bytes(&mut self, buf: &[u8]) -> (r: Result<(), SerializeError>) {
        self.writer.write_bytes(buf)
    }

    fn pad_to(&mut self, align: usize) -> (r: Result<(), SerializeError>) {
        self.writer.pad_to(align)
    }

    fn record_field(&mut self, name: &str, offset: usize, size: usize) {
        self.schema.0.push(SchemaRecord { name: name.to_owned(), offset, size });
    }
}

/// The fixed header for type `T`: magic cookie, format version, pointer
/// width, the two type digests, and the length-prefixed type name, each at
/// its aligned offset.
pub open spec fn header_pre<T: SerializeInner>() -> Seq<u8> {
    prim_enc(8, 8, crate::MAGIC as int, 0) + prim_enc(2, 2, crate::VERSION_MAJOR as int, 8)
        + prim_enc(2, 2, crate::VERSION_MINOR as int, 10) + prim_enc(
        1,
        1,
        crate::USIZE_BYTES as int,
        12,
    ) + prim_enc(8, 8, xxh3_64_of(T::th_input()) as int, 13) + prim_enc(
        8,
        8,
        xxh3_64_of(T::trh_input()) as int,
        24,
    ) + <String as SerializeInner>::enc(T::ty_name_spec(), 32)
}

/// The whole stream written for a value of type `T` with model `m`: the
/// header, then the value at its aligned offset. Serialization is a
/// function of the model alone, so equal values give identical bytes.
pub open spec fn stream_enc<T: SerializeInner>(m: <T as DeepView>::V) -> Seq<u8> {
    header_pre::<T>() + T::enc(m, header_pre::<T>().len() as int)
}

pub proof fn lemma_header_pre_len<T: SerializeInner>()
    ensures
        header_pre::<T>().len() == 40 + encode_utf8(T::ty_name_spec()).len(),
{
    lemma_pow256_64();
    lemma_prim_enc_len(8, 8, crate::MAGIC as int, 0);
    lemma_prim_enc_len(2, 2, crate::VERSION_MAJOR as int, 8);
    lemma_prim_enc_len(2, 2, crate::VERSION_MINOR as int, 10);
    lemma_prim_enc_len(1, 1, crate::USIZE_BYTES as int, 12);
    lemma_prim_enc_len(8, 8, xxh3_64_of(T::th_input()) as int, 13);
    lemma_prim_enc_len(8, 8, xxh3_64_of(T::trh_input()) as int, 24);
    lemma_prim_enc_len(8, 8, encode_utf8(T::ty_name_spec()).len() as int, 32);
}

/// Serialize the header and then the value through the given field writer,
/// which must stand at the start of its stream.
pub fn serialize_on_field_write<T: SerializeInner, W: FieldWrite>(value: &T, backend: &mut W) -> (r:
    Result<(), SerializeError>)
    requires
        old(backend).wf(),
        old(backend).written() == Seq::<u8>::empty(),
    ensures
        final(backend).wf(),
        final(backend).origin() == old(backend).origin(),
        r is Ok ==> final(backend).written() == stream_enc::<T>(value.deep_view()),
{
    proof {
        lemma_pow256_64();
        lemma_header_pre_len::<T>();
    }
    let mut hasher = TypeHasher::new();
    T::type_hash(&mut hasher);
    let self_hash = hasher.finish();
    let mut hasher2 = TypeHasher::new();
    T::type_repr_hash(&mut hasher2);
    let self_repr_hash = hasher2.finish();

    let ghost e0 = prim_enc(8, 8, crate::MAGIC as int, 0);
    let ghost e1 = prim_enc(2, 2, crate::VERSION_MAJOR as int, 8);
    let ghost e2 = prim_enc(2, 2, crate::VERSION_MINOR as int, 10);
    let ghost e3 = prim_enc(1, 1, crate::USIZE_BYTES as int, 12);
    let ghost e4 = prim_enc(8, 8, xxh3_64_of(T::th_input()) as int, 13);
    let ghost e5 = prim_enc(8, 8, xxh3_64_of(T::trh_input()) as int, 24);
    let ghost e6 = <String as SerializeInner>::enc(T::ty_name_spec(), 32);
    proof {
        lemma_prim_enc_len(8, 8, crate::MAGIC as int, 0);
        lemma_prim_enc_len(2, 2, crate::VERSION_MAJOR as int, 8);
        lemma_prim_enc_len(2, 2, crate::VERSION_MINOR as int, 10);
        lemma_prim_enc_len(1, 1, crate::USIZE_BYTES as int, 12);
        lemma_prim_enc_len(8, 8, xxh3_64_of(T::th_input()) as int, 13);
        lemma_prim_enc_len(8, 8, xxh3_64_of(T::trh_input()) as int, 24);
        lemma_prim_enc_len(8, 8, encode_utf8(T::ty_name_spec()).len() as int, 32);
    }

    let off = backend.get_pos();
    ser_prim(backend, crate::MAGIC, 8, 8)?;
    let end = backend.get_pos();
    backend.record_field("MAGIC", off, end - off);
    proof {
        assert(backend.written() =~= e0);
    }

    let off = backend.get_pos();
    ser_prim(backend, crate::VERSION_MAJOR as u64, 2, 2)?;
    let end = backend.get_pos();
    backend.record_field("VERSION_MAJOR", off, end - off);
    proof {
        assert(backend.written() =~= e0 + e1);
    }

    let off = backend.get_pos();
    ser_prim(backend, crate::VERSION_MINOR as u64, 2, 2)?;
    let end = backend.get_pos();
    backend.record_field("VERSION_MINOR", off, end - off);
    proof {
        assert(backend.written() =~= e0 + e1 + e2);
    }

    let off = backend.get_pos();
    ser_prim(backend, crate::USIZE_BYTES as u64, 1, 1)?;
    let end = backend.get_pos();
    backend.record_field("USIZE_SIZE", off, end - off);
    proof {
        assert(backend.written() =~= e0 + e1 + e2 + e3);
    }

    let off = backend.get_pos();
    ser_prim(backend, self_hash, 8, 8)?;
    let end = backend.get_pos();
    backend.record_field("TYPE_HASH", off, end - off);
    proof {
        assert(backend.written() =~= e0 + e1 + e2 + e3 + e4);
    }

    let off = backend.get_pos();
    ser_prim(backend, self_repr_hash, 8, 8)?;
    let end = backend.get_pos();
    backend.record_field("TYPE_REPR_HASH", off, end - off);
    proof {
        assert(backend.written() =~= e0 + e1 + e2 + e3 + e4 + e5);
    }

    let off = backend.get_pos();
    let name = T::ty_name();
    let r = name._serialize_inner(backend);
    match r {
        Ok(u) => {},
        Err(e) => {
            return Err(e);
        },
    }
    let end = backend.get_pos();
    backend.record_field("TYPE_NAME", off, end - off);
    proof {
        assert(backend.written() =~= e0 + e1 + e2 + e3 + e4 + e5 + e6);
        assert(backend.written() =~= header_pre::<T>());
    }

    let off = backend.get_pos();
    let r = value._serialize_inner(backend);
    match r {
        Ok(u) => {},
        Err(e) => {
            return Err(e);
        },
    }
    let end = backend.get_pos();
    backend.record_field("ROOT", off, end - off);
    proof {
        assert(backend.written() =~= stream_enc::<T>(value.deep_view()));
    }
    Ok(())
}

/// Serialize the value into the given sink and return the sink and the
/// number of bytes written.
pub fn serialize<T: SerializeInner, F: WriteNoStd>(value: &T, backend: F) -> (r: Result<
    (F, usize),
    SerializeError,
>)
    ensures
        r matches Ok(p) ==> p.0.out() == backend.out() + stream_enc::<T>(value.deep_view()) && p.1
            == stream_enc::<T>(value.deep_view()).len(),
{
    let mut w = WriteWithPos::new(backend);
    match serialize_on_field_write(value, &mut w) {
        Ok(u) => {},
        Err(e) => {
            return Err(e);
        },
    }
    match w.flush() {
        Ok(u) => {},
        Err(e) => {
            return Err(e);
        },
    }
    let n = w.get_pos();
    proof {
        w.lemma_split();
    }
    let out = w.into_inner();
    Ok((out, n))
}

/// Serialize the value and also return the number of bytes written and the
/// recorded field schema.
pub fn serialize_with_schema<T: SerializeInner, F: WriteNoStd>(value: &T, backend: F) -> (r: Result<
    (F, usize, Schema),
    SerializeError,
>)
    ensures
        r matches Ok(p) ==> p.0.out() == backend.out() + stream_enc::<T>(value.deep_view()) && p.1
            == stream_enc::<T>(value.deep_view()).len(),
{
    let w = WriteWithPos::new(backend);
    let mut sw = SchemaWriter::new(w);
    match serialize_on_field_write(value, &mut sw) {
        Ok(u) => {},
        Err(e) => {
            return Err(e);
        },
    }
    let n = sw.get_pos();
    let (mut w, schema) = sw.into_parts();
    match w.flush() {
        Ok(u) => {},
        Err(e) => {
            return Err(e);
        },
    }
    proof {
        w.lemma_split();
    }
    let out = w.into_inner();
    Ok((out, n, schema))
}

} // verus!
