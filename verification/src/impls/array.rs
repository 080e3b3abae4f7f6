//! Serialization of two-element arrays: the elements back to back, each at
//! the offset where the previous one ended, with no length prefix. Arrays
//! are rebuilt element by element on both deserialization paths; their byte
//! form is the same as a zero-copy bulk image would be, since padding
//! between identically aligned elements vanishes.

use vstd::prelude::*;
use crate::bytes::le_bytes;
use crate::hash::{TypeHasher, str_feed};
use crate::ser::{FieldWrite, SerializeError};
use crate::des::{ReadWithPos, SliceWithPos, DeserializeError, DeserializeInner};
use vstd::string::StringExecFns;
use crate::traits::{TypeHash, SerializeInner, CopyType, Deep, enc_at, seq_enc};
use crate::impls::vec::lemma_seq_enc_elem_at;

verus! {

impl<T: TypeHash> TypeHash for [T; 2] {
    open spec fn th_input() -> Seq<u8> {
        str_feed("[; 2]"@) + T::th_input()
    }

    open spec fn trh_input() -> Seq<u8> {
        le_bytes(8, 2) + T::trh_input()
    }

    open spec fn ty_name_spec() -> Seq<char> {
        "[ic; 2]"@.take(1) + T::ty_name_spec() + "; 2]"@
    }

    fn ty_name() -> (r: String) {
        let inner = T::ty_name();
        let r = <String as vstd::string::StringExecFns>::from_str("[");
        let r = r.concat(inner.as_str());
        let r = r.concat("; 2]");
        proof {
            reveal_strlit("[");
            reveal_strlit("[ic; 2]");
            assert(("[ic; 2]"@).take(1) =~= ("[")@);
            assert(r@ =~= Self::ty_name_spec());
        }
        r
    }

    fn type_hash(hasher: &mut TypeHasher) {
        let ghost base = hasher.fed();
        hasher.write_str("[; 2]");
        T::type_hash(hasher);
        proof {
            assert(base + str_feed("[; 2]"@) + T::th_input() =~= base + Self::th_input());
        }
    }

    fn type_repr_hash(hasher: &mut TypeHasher) {
        let ghost base = hasher.fed();
        hasher.write_u64(2);
        T::type_repr_hash(hasher);
        proof {
            assert(base + le_bytes(8, 2) + T::trh_input() =~= base + Self::trh_input());
        }
    }
}

impl<T> CopyType for [T; 2] {
    type Copy = Deep;
}

impl<T: SerializeInner> SerializeInner for [T; 2] {
    open spec fn is_zero_copy() -> bool {
        false
    }

    open spec fn zero_copy_mismatch() -> bool {
        T::is_zero_copy()
    }

    open spec fn align_of() -> int {
        T::align_of()
    }

    open spec fn model_wf(m: Seq<<T as DeepView>::V>) -> bool {
        &&& m.len() == 2
        &&& T::model_wf(m[0])
        &&& T::model_wf(m[1])
    }

    open spec fn enc(m: Seq<<T as DeepView>::V>, pos: int) -> Seq<u8> {
        seq_enc::<T>(m, pos)
    }

    proof fn lemma_align() {
        T::lemma_align();
    }

    proof fn lemma_value_wf(&self) {
        assert(self.deep_view().len() == 2);
        assert(self.deep_view()[0] == self[0].deep_view());
        assert(self.deep_view()[1] == self[1].deep_view());
        self[0].lemma_value_wf();
        self[1].lemma_value_wf();
    }

    fn _serialize_inner<W: FieldWrite>(&self, backend: &mut W) -> (r: Result<
        (),
        SerializeError,
    >) {
        let ghost w0 = old(backend).written();
        let ghost ms = self.deep_view();
        let e0 = vstd::array::array_index_get(self, 0);
        let r = e0._serialize_inner(backend);
        match r {
            Ok(u) => {},
            Err(e) => {
                return Err(e);
            },
        }
        proof {
            assert(ms.take(1) =~= seq![ms[0]]);
            assert(ms.take(1).drop_first() =~= Seq::<<T as DeepView>::V>::empty());
            assert(seq_enc::<T>(
                ms.take(1).drop_first(),
                w0.len() + T::enc(ms.take(1)[0], w0.len() as int).len() as int,
            ) =~= Seq::<u8>::empty());
            assert(ms.take(1)[0] == ms[0]);
            assert(seq_enc::<T>(ms.take(1), w0.len() as int) =~= T::enc(ms[0], w0.len() as int));
        }
        let e1 = vstd::array::array_index_get(self, 1);
        let r = e1._serialize_inner(backend);
        match r {
            Ok(u) => {},
            Err(e) => {
                return Err(e);
            },
        }
        proof {
            crate::traits::lemma_seq_enc_snoc::<T>(ms, w0.len() as int);
            assert(ms.drop_last() =~= ms.take(1));
            assert(ms.last() == ms[1]);
            assert(backend.written() =~= w0 + Self::enc(ms, w0.len() as int));
        }
        Ok(())
    }
}

/// From the encoding hypothesis for a two-element array, derive where each
/// element's encoding sits.
proof fn lemma_array2_enc_split<T: SerializeInner>(
    s: Seq<u8>,
    pos: int,
    m: Seq<<T as DeepView>::V>,
)
    requires
        enc_at::<[T; 2]>(s, pos, m),
    ensures
        enc_at::<T>(s, pos, m[0]),
        enc_at::<T>(s, pos + T::enc(m[0], pos).len(), m[1]),
        <[T; 2] as SerializeInner>::enc(m, pos).len() == T::enc(m[0], pos).len() + T::enc(
            m[1],
            pos + T::enc(m[0], pos).len(),
        ).len(),
{
    assert(m.take(0) =~= Seq::<<T as DeepView>::V>::empty());
    assert(seq_enc::<T>(m.take(0), pos) =~= Seq::<u8>::empty());
    lemma_seq_enc_elem_at::<T>(s, pos, m, 0);
    assert(m.take(1) =~= seq![m[0]]);
    assert(m.take(1).drop_first() =~= Seq::<<T as DeepView>::V>::empty());
    assert(seq_enc::<T>(
        m.take(1).drop_first(),
        pos + T::enc(m.take(1)[0], pos).len() as int,
    ) =~= Seq::<u8>::empty());
    assert(m.take(1)[0] == m[0]);
    assert(seq_enc::<T>(m.take(1), pos) =~= T::enc(m[0], pos));
    lemma_seq_enc_elem_at::<T>(s, pos, m, 1);
    assert(m.take(2) =~= m);
    crate::traits::lemma_seq_enc_snoc::<T>(m, pos);
    assert(m.drop_last() =~= m.take(1));
    assert(m.last() == m[1]);
}

impl<T: SerializeInner + DeserializeInner> DeserializeInner for [T; 2] {
    type DeserType<'a> = [<T as DeserializeInner>::DeserType<'a>; 2];

    open spec fn dcanon<'a>(w: &[<T as DeserializeInner>::DeserType<'a>; 2]) -> Seq<
        <T as DeepView>::V,
    > {
        seq![T::dcanon(&w[0]), T::dcanon(&w[1])]
    }

    fn _deserialize_full_copy_inner<R: ReadWithPos>(backend: &mut R) -> (res: Result<
        Self,
        DeserializeError,
    >) {
        let ghost s = old(backend).stream();
        let ghost pos0 = old(backend).pos();
        let r0 = T::_deserialize_full_copy_inner(backend);
        let v0 = match r0 {
            Ok(v) => v,
            Err(e) => {
                proof {
                    assert forall|m: Seq<<T as DeepView>::V>|
                        !(#[trigger] enc_at::<[T; 2]>(s, pos0, m)) by {
                        if enc_at::<[T; 2]>(s, pos0, m) {
                            lemma_array2_enc_split::<T>(s, pos0, m);
                        }
                    }
                }
                return Err(e);
            },
        };
        let r1 = T::_deserialize_full_copy_inner(backend);
        let v1 = match r1 {
            Ok(v) => v,
            Err(e) => {
                proof {
                    assert forall|m: Seq<<T as DeepView>::V>|
                        !(#[trigger] enc_at::<[T; 2]>(s, pos0, m)) by {
                        if enc_at::<[T; 2]>(s, pos0, m) {
                            lemma_array2_enc_split::<T>(s, pos0, m);
                            assert(v0.deep_view() == m[0]);
                        }
                    }
                }
                return Err(e);
            },
        };
        let out = [v0, v1];
        proof {
            assert(out.deep_view() =~= seq![v0.deep_view(), v1.deep_view()]);
            assert forall|m: Seq<<T as DeepView>::V>|
                #[trigger] enc_at::<[T; 2]>(s, pos0, m) implies out.deep_view() == m by {
                lemma_array2_enc_split::<T>(s, pos0, m);
                assert(v0.deep_view() == m[0]);
                assert(v1.deep_view() == m[1]);
                assert(out.deep_view() =~= m);
            }
            if enc_at::<T>(s, pos0, v0.deep_view()) && enc_at::<T>(
                s,
                pos0 + T::enc(v0.deep_view(), pos0).len(),
                v1.deep_view(),
            ) {
                let m = out.deep_view();
                assert(m[0] == v0.deep_view() && m[1] == v1.deep_view());
                assert(m.take(1) =~= seq![m[0]]);
                assert(m.take(1).drop_first() =~= Seq::<<T as DeepView>::V>::empty());
                assert(seq_enc::<T>(
                    m.take(1).drop_first(),
                    pos0 + T::enc(m.take(1)[0], pos0).len() as int,
                ) =~= Seq::<u8>::empty());
                assert(m.take(1)[0] == m[0]);
                assert(seq_enc::<T>(m.take(1), pos0) =~= T::enc(m[0], pos0));
                crate::traits::lemma_seq_enc_snoc::<T>(m, pos0);
                assert(m.drop_last() =~= m.take(1));
                assert(m.last() == m[1]);
                assert(s.subrange(
                    pos0,
                    pos0 + <[T; 2] as SerializeInner>::enc(m, pos0).len(),
                ) =~= <[T; 2] as SerializeInner>::enc(m, pos0));
            }
        }
        Ok(out)
    }

    fn _deserialize_eps_copy_inner<'a>(backend: &mut SliceWithPos<'a>) -> (res: Result<
        Self::DeserType<'a>,
        DeserializeError,
    >) {
        let ghost s = old(backend).stream();
        let ghost pos0 = old(backend).pos();
        let r0 = T::_deserialize_eps_copy_inner(backend);
        let v0 = match r0 {
            Ok(v) => v,
            Err(e) => {
                proof {
                    assert forall|m: Seq<<T as DeepView>::V>|
                        !(#[trigger] enc_at::<[T; 2]>(s, pos0, m)) by {
                        if enc_at::<[T; 2]>(s, pos0, m) {
                            lemma_array2_enc_split::<T>(s, pos0, m);
                        }
                    }
                }
                return Err(e);
            },
        };
        let r1 = T::_deserialize_eps_copy_inner(backend);
        let v1 = match r1 {
            Ok(v) => v,
            Err(e) => {
                proof {
                    assert forall|m: Seq<<T as DeepView>::V>|
                        !(#[trigger] enc_at::<[T; 2]>(s, pos0, m)) by {
                        if enc_at::<[T; 2]>(s, pos0, m) {
                            lemma_array2_enc_split::<T>(s, pos0, m);
                            assert(T::dcanon(&v0) == m[0]);
                        }
                    }
                }
                return Err(e);
            },
        };
        let out = [v0, v1];
        proof {
            assert(out[0] == v0 && out[1] == v1);
            assert forall|m: Seq<<T as DeepView>::V>|
                #[trigger] enc_at::<[T; 2]>(s, pos0, m) implies Self::dcanon(&out) == m by {
                lemma_array2_enc_split::<T>(s, pos0, m);
                assert(T::dcanon(&out[0]) == m[0]);
                assert(T::dcanon(&out[1]) == m[1]);
                assert(Self::dcanon(&out) =~= m);
            }
            if enc_at::<T>(s, pos0, T::dcanon(&v0)) && enc_at::<T>(
                s,
                pos0 + T::enc(T::dcanon(&v0), pos0).len(),
                T::dcanon(&v1),
            ) {
                let m = Self::dcanon(&out);
                assert(m[0] == T::dcanon(&v0) && m[1] == T::dcanon(&v1));
                assert(m.take(1) =~= seq![m[0]]);
                assert(m.take(1).drop_first() =~= Seq::<<T as DeepView>::V>::empty());
                assert(seq_enc::<T>(
                    m.take(1).drop_first(),
                    pos0 + T::enc(m.take(1)[0], pos0).len() as int,
                ) =~= Seq::<u8>::empty());
                assert(m.take(1)[0] == m[0]);
                assert(seq_enc::<T>(m.take(1), pos0) =~= T::enc(m[0], pos0));
                crate::traits::lemma_seq_enc_snoc::<T>(m, pos0);
                assert(m.drop_last() =~= m.take(1));
                assert(m.last() == m[1]);
                assert(s.subrange(
                    pos0,
                    pos0 + <[T; 2] as SerializeInner>::enc(m, pos0).len(),
                ) =~= <[T; 2] as SerializeInner>::enc(m, pos0));
            }
        }
        Ok(out)
    }
}

} // verus!
