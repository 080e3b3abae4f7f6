//! Serialization of vectors: a length prefix followed by the elements, each
//! encoded at the offset where the previous one ended.
//!
//! Deserialization dispatches on the element's copy class: a vector of
//! zero-copy elements is read back ε-copy as one borrowed window over the
//! element images, a vector of deep elements as an owned vector of element
//! views.

use vstd::prelude::*;
use vstd::string::StringExecFns;
use crate::{pad_len, zeros, lemma_pad_len_bounds, lemma_aligned_step};
use crate::bytes::{le_bytes, pow256, lemma_pow256_64};
use crate::hash::{TypeHasher, str_feed};
use crate::ser::{FieldWrite, SerializeError};
use crate::des::{ReadWithPos, SliceWithPos, DeserializeError, DeserializeInner,
    DeserializeHelper};
use crate::traits::{TypeHash, SerializeInner, ZeroCopy, CopyType, CopySelector, Zero, Deep,
    enc_at, seq_enc, lemma_seq_enc_snoc};
use crate::impls::prim::{prim_enc, prim_enc_at, des_prim, ser_prim, lemma_prim_enc_len};

verus! {

/// Splitting a run of encodings after its first `k` elements.
pub proof fn lemma_seq_enc_split<T: SerializeInner>(ms: Seq<<T as DeepView>::V>, base: int, k: int)
    requires
        0 <= k <= ms.len(),
    ensures
        seq_enc::<T>(ms, base) == seq_enc::<T>(ms.take(k), base) + seq_enc::<T>(
            ms.skip(k),
            base + seq_enc::<T>(ms.take(k), base).len(),
        ),
    decreases k,
{
    if k == 0 {
        assert(ms.take(0) =~= Seq::<<T as DeepView>::V>::empty());
        assert(ms.skip(0) =~= ms);
        assert(seq_enc::<T>(ms.take(0), base) =~= Seq::<u8>::empty());
        assert(seq_enc::<T>(ms, base) =~= seq_enc::<T>(ms.take(0), base) + seq_enc::<T>(
            ms.skip(0),
            base + 0,
        ));
    } else {
        let e = T::enc(ms[0], base);
        let rest = ms.drop_first();
        lemma_seq_enc_split::<T>(rest, base + e.len(), k - 1);
        assert(ms.take(k)[0] == ms[0]);
        assert(ms.take(k).drop_first() =~= rest.take(k - 1));
        assert(ms.skip(k) =~= rest.skip(k - 1));
        assert(seq_enc::<T>(ms.take(k), base) == e + seq_enc::<T>(rest.take(k - 1), base + e.len()));
        assert(seq_enc::<T>(ms, base) =~= seq_enc::<T>(ms.take(k), base) + seq_enc::<T>(
            ms.skip(k),
            base + seq_enc::<T>(ms.take(k), base).len(),
        ));
    }
}

/// Appending one element to a run of encodings.
pub proof fn lemma_seq_enc_take_succ<T: SerializeInner>(
    ms: Seq<<T as DeepView>::V>,
    base: int,
    i: int,
)
    requires
        0 <= i < ms.len(),
    ensures
        seq_enc::<T>(ms.take(i + 1), base) == seq_enc::<T>(ms.take(i), base) + T::enc(
            ms[i],
            base + seq_enc::<T>(ms.take(i), base).len(),
        ),
{
    let t = ms.take(i + 1);
    lemma_seq_enc_snoc::<T>(t, base);
    assert(t.drop_last() =~= ms.take(i));
    assert(t.last() == ms[i]);
}

impl<T: TypeHash> TypeHash for Vec<T> {
    open spec fn th_input() -> Seq<u8> {
        str_feed("Vec"@) + T::th_input()
    }

    open spec fn trh_input() -> Seq<u8> {
        le_bytes(8, 8) + le_bytes(8, 24) + T::trh_input()
    }

    open spec fn ty_name_spec() -> Seq<char> {
        "Vec<"@ + T::ty_name_spec() + ">"@
    }

    fn ty_name() -> (r: String) {
        let inner = T::ty_name();
        let r = String::from_str("Vec<").concat(inner.as_str()).concat(">");
        proof {
            assert(r@ =~= Self::ty_name_spec());
        }
        r
    }

    fn type_hash(hasher: &mut TypeHasher) {
        let ghost base = hasher.fed();
        hasher.write_str("Vec");
        T::type_hash(hasher);
        proof {
            assert(base + str_feed("Vec"@) + T::th_input() =~= base + Self::th_input());
        }
    }

    fn type_repr_hash(hasher: &mut TypeHasher) {
        let ghost base = hasher.fed();
        hasher.write_u64(8);
        hasher.write_u64(24);
        T::type_repr_hash(hasher);
        proof {
            assert(base + le_bytes(8, 8) + le_bytes(8, 24) + T::trh_input() =~= base
                + Self::trh_input());
        }
    }
}

impl<T> CopyType for Vec<T> {
    type Copy = Deep;
}

impl<T: SerializeInner> SerializeInner for Vec<T> {
    open spec fn is_zero_copy() -> bool {
        false
    }

    open spec fn zero_copy_mismatch() -> bool {
        false
    }

    open spec fn align_of() -> int {
        8
    }

    open spec fn model_wf(ms: Seq<<T as DeepView>::V>) -> bool {
        &&& ms.len() <= usize::MAX
        &&& forall|i: int| 0 <= i < ms.len() ==> T::model_wf(#[trigger] ms[i])
    }

    open spec fn enc(ms: Seq<<T as DeepView>::V>, pos: int) -> Seq<u8> {
        prim_enc(8, 8, ms.len() as int, pos) + seq_enc::<T>(ms, pos + pad_len(pos, 8) + 8)
    }

    proof fn lemma_align() {
    }

    proof fn lemma_value_wf(&self) {
        vstd::std_specs::vec::axiom_spec_len(self);
        assert forall|i: int| 0 <= i < self.deep_view().len() implies T::model_wf(
            #[trigger] self.deep_view()[i],
        ) by {
            self[i].lemma_value_wf();
        }
    }

    fn _serialize_inner<W: FieldWrite>(&self, backend: &mut W) -> (r: Result<
        (),
        SerializeError,
    >) {
        let ghost w0 = old(backend).written();
        let ghost ms = self.deep_view();
        let ghost headend = w0.len() + pad_len(w0.len() as int, 8) + 8;
        proof {
            lemma_pow256_64();
            lemma_prim_enc_len(8, 8, ms.len() as int, w0.len() as int);
        }
        let n = self.len();
        ser_prim(backend, n as u64, 8, 8)?;
        let mut i: usize = 0;
        while i < n
            invariant
                old(backend).wf(),
                backend.wf(),
                backend.origin() == old(backend).origin(),
                i <= n,
                n == self@.len(),
                ms == self.deep_view(),
                ms.len() == n,
                headend == w0.len() + pad_len(w0.len() as int, 8) + 8,
                backend.written() == w0 + prim_enc(8, 8, n as int, w0.len() as int) + seq_enc::<
                    T,
                >(ms.take(i as int), headend as int),
            decreases n - i,
        {
            let ghost before = backend.written();
            proof {
                lemma_prim_enc_len(8, 8, n as int, w0.len() as int);
                assert(before.len() == headend + seq_enc::<T>(ms.take(i as int), headend as int).len());
            }
            let r = self[i]._serialize_inner(backend);
            match r {
                Ok(u) => {},
                Err(e) => {
                    return Err(e);
                },
            }
            proof {
                assert(self[i as int].deep_view() == ms[i as int]);
                lemma_seq_enc_take_succ::<T>(ms, headend as int, i as int);
                assert(backend.written() =~= w0 + prim_enc(8, 8, n as int, w0.len() as int)
                    + seq_enc::<T>(ms.take(i + 1), headend as int));
            }
            i = i + 1;
        }
        proof {
            assert(ms.take(n as int) =~= ms);
            assert(backend.written() =~= w0 + Self::enc(ms, w0.len() as int));
        }
        Ok(())
    }
}

/// From the encoding hypothesis for a vector model, derive the facts about
/// the length prefix and the element region that the decoders use.
proof fn lemma_vec_enc_split<T: SerializeInner>(s: Seq<u8>, pos: int, ms: Seq<<T as DeepView>::V>)
    requires
        enc_at::<Vec<T>>(s, pos, ms),
        s.len() <= usize::MAX,
    ensures
        0 <= ms.len() < pow256(8),
        prim_enc_at(s, pos, 8, 8, ms.len() as int),
        ({
            let headend = pos + pad_len(pos, 8) + 8;
            &&& headend + seq_enc::<T>(ms, headend).len() <= s.len()
            &&& s.subrange(headend, headend + seq_enc::<T>(ms, headend).len()) == seq_enc::<T>(
                ms,
                headend,
            )
        }),
        <Vec<T> as SerializeInner>::enc(ms, pos).len() == pad_len(pos, 8) + 8 + seq_enc::<T>(
            ms,
            pos + pad_len(pos, 8) + 8,
        ).len(),
{
    lemma_pow256_64();
    lemma_prim_enc_len(8, 8, ms.len() as int, pos);
    let head = pad_len(pos, 8) + 8;
    let headend = pos + head;
    let elems = seq_enc::<T>(ms, headend);
    let whole = s.subrange(pos, pos + head + elems.len());
    assert(whole == <Vec<T> as SerializeInner>::enc(ms, pos));
    assert(s.subrange(pos, pos + head) =~= whole.subrange(0, head));
    assert(whole.subrange(0, head) =~= prim_enc(8, 8, ms.len() as int, pos));
    assert(s.subrange(headend, headend + elems.len()) =~= whole.subrange(head, head + elems.len()));
    assert(whole.subrange(head, head + elems.len()) =~= elems);
}

/// Within a well-placed run of element encodings, the element after the
/// first `i` is itself well-placed at the offset where they end.
pub(crate) proof fn lemma_seq_enc_elem_at<T: SerializeInner>(
    s: Seq<u8>,
    base: int,
    ms: Seq<<T as DeepView>::V>,
    i: int,
)
    requires
        0 <= i < ms.len(),
        0 <= base,
        base + seq_enc::<T>(ms, base).len() <= s.len(),
        s.subrange(base, base + seq_enc::<T>(ms, base).len()) == seq_enc::<T>(ms, base),
        T::model_wf(ms[i]),
    ensures
        ({
            let p = base + seq_enc::<T>(ms.take(i), base).len();
            enc_at::<T>(s, p, ms[i])
        }),
        base + seq_enc::<T>(ms.take(i + 1), base).len() <= s.len(),
{
    let pre = seq_enc::<T>(ms.take(i), base);
    let p = base + pre.len();
    let whole = seq_enc::<T>(ms, base);
    lemma_seq_enc_split::<T>(ms, base, i);
    lemma_seq_enc_split::<T>(ms, base, i + 1);
    lemma_seq_enc_take_succ::<T>(ms, base, i);
    let e = T::enc(ms[i], p);
    assert(seq_enc::<T>(ms.take(i + 1), base) == pre + e);
    assert(whole == seq_enc::<T>(ms.take(i + 1), base) + seq_enc::<T>(
        ms.skip(i + 1),
        base + seq_enc::<T>(ms.take(i + 1), base).len(),
    ));
    assert(p + e.len() <= base + whole.len());
    assert(s.subrange(p, p + e.len()) =~= e) by {
        assert forall|j: int| 0 <= j < e.len() implies s.subrange(p, p + e.len())[j] == e[j] by {
            assert(s.subrange(base, base + whole.len())[p - base + j] == whole[p - base + j]);
            assert(whole[p - base + j] == (pre + e + seq_enc::<T>(
                ms.skip(i + 1),
                base + seq_enc::<T>(ms.take(i + 1), base).len(),
            ))[pre.len() + j]);
        }
    }
}

/// Fully deserialize a vector: the length, then that many elements.
pub fn deserialize_vec_full<T: SerializeInner + DeserializeInner, R: ReadWithPos>(
    backend: &mut R,
) -> (res: Result<Vec<T>, DeserializeError>)
    requires
        old(backend).wf(),
    ensures
        final(backend).wf(),
        final(backend).stream() == old(backend).stream(),
        forall|ms: Seq<<T as DeepView>::V>|
            #[trigger] enc_at::<Vec<T>>(old(backend).stream(), old(backend).pos(), ms) ==> (
            res matches Ok(v) && v.deep_view() == ms && final(backend).pos() == old(
                backend,
            ).pos() + <Vec<T> as SerializeInner>::enc(ms, old(backend).pos()).len()),
        res matches Ok(v) ==> enc_at::<Vec<T>>(
            old(backend).stream(),
            old(backend).pos(),
            v.deep_view(),
        ) && final(backend).pos() == old(backend).pos() + <Vec<T> as SerializeInner>::enc(
            v.deep_view(),
            old(backend).pos(),
        ).len(),
{
    let ghost s = old(backend).stream();
    let ghost pos0 = old(backend).pos();
    proof {
        lemma_pow256_64();
        backend.lemma_wf();
        lemma_pad_len_bounds(pos0, 8);
    }
    let ghost headend = pos0 + pad_len(pos0, 8) + 8;
    let r = des_prim(backend, 8, 8);
    let x = match r {
        Ok(x) => x,
        Err(e) => {
            proof {
                assert forall|ms: Seq<<T as DeepView>::V>|
                    !(#[trigger] enc_at::<Vec<T>>(s, pos0, ms)) by {
                    if enc_at::<Vec<T>>(s, pos0, ms) {
                        lemma_vec_enc_split::<T>(s, pos0, ms);
                    }
                }
            }
            return Err(e);
        },
    };
    if x > usize::MAX as u64 {
        proof {
            assert forall|ms: Seq<<T as DeepView>::V>|
                !(#[trigger] enc_at::<Vec<T>>(s, pos0, ms)) by {
                if enc_at::<Vec<T>>(s, pos0, ms) {
                    lemma_vec_enc_split::<T>(s, pos0, ms);
                }
            }
        }
        return Err(DeserializeError::ReadError);
    }
    let n = x as usize;
    let mut res: Vec<T> = Vec::new();
    proof {
        backend.lemma_wf();
        assert(res.deep_view() =~= Seq::<<T as DeepView>::V>::empty());
        assert(seq_enc::<T>(res.deep_view(), headend) =~= Seq::<u8>::empty());
        assert(s.subrange(headend, headend) =~= Seq::<u8>::empty());
        assert forall|ms: Seq<<T as DeepView>::V>|
            #[trigger] enc_at::<Vec<T>>(s, pos0, ms) implies ms.len() == n && ms.take(0)
            == res.deep_view() by {
            lemma_vec_enc_split::<T>(s, pos0, ms);
            assert(prim_enc_at(s, pos0, 8, 8, ms.len() as int));
            assert(ms.take(0) =~= res.deep_view());
        }
    }
    let mut i: usize = 0;
    while i < n
        invariant
            backend.wf(),
            backend.stream() == s,
            s == old(backend).stream(),
            pos0 == old(backend).pos(),
            s.len() <= usize::MAX,
            i <= n,
            headend == pos0 + pad_len(pos0, 8) + 8,
            0 <= pos0,
            prim_enc_at(s, pos0, 8, 8, n as int),
            res@.len() == i,
            res.deep_view().len() == i,
            forall|k: int|
                0 <= k < i ==> T::model_wf(#[trigger] res.deep_view()[k]),
            backend.pos() == headend + seq_enc::<T>(res.deep_view(), headend).len(),
            headend + seq_enc::<T>(res.deep_view(), headend).len() <= s.len(),
            s.subrange(headend, headend + seq_enc::<T>(res.deep_view(), headend).len())
                == seq_enc::<T>(res.deep_view(), headend),
            forall|ms: Seq<<T as DeepView>::V>|
                #[trigger] enc_at::<Vec<T>>(s, pos0, ms) ==> ms.len() == n && ms.take(i as int)
                    == res.deep_view(),
        decreases n - i,
    {
        let ghost cur = backend.pos();
        let ghost built = res.deep_view();
        let r = T::_deserialize_full_copy_inner(backend);
        match r {
            Ok(v) => {
                proof {
                    assert forall|ms: Seq<<T as DeepView>::V>|
                        #[trigger] enc_at::<Vec<T>>(s, pos0, ms) implies ms.len() == n && ms.take(
                        i + 1,
                    ) == res.deep_view().push(v.deep_view()) by {
                        lemma_vec_enc_split::<T>(s, pos0, ms);
                        assert(ms.take(i as int) == built);
                        assert(seq_enc::<T>(ms.take(i as int), headend) == seq_enc::<T>(
                            built,
                            headend,
                        ));
                        lemma_seq_enc_elem_at::<T>(s, headend, ms, i as int);
                        assert(enc_at::<T>(s, cur, ms[i as int]));
                        assert(v.deep_view() == ms[i as int]);
                        assert(ms.take(i + 1) =~= built.push(v.deep_view()));
                    }
                }
                let ghost vm = v.deep_view();
                res.push(v);
                proof {
                    assert(res.deep_view() =~= built.push(vm));
                    lemma_seq_enc_take_succ::<T>(res.deep_view(), headend, i as int);
                    assert(res.deep_view().take(i as int) =~= built);
                    assert(res.deep_view().take(i + 1) =~= res.deep_view());
                    assert(seq_enc::<T>(res.deep_view(), headend) == seq_enc::<T>(built, headend)
                        + T::enc(vm, cur));
                    assert(s.subrange(
                        headend,
                        headend + seq_enc::<T>(res.deep_view(), headend).len(),
                    ) =~= seq_enc::<T>(res.deep_view(), headend));
                }
                i = i + 1;
            },
            Err(e) => {
                proof {
                    assert forall|ms: Seq<<T as DeepView>::V>|
                        !(#[trigger] enc_at::<Vec<T>>(s, pos0, ms)) by {
                        if enc_at::<Vec<T>>(s, pos0, ms) {
                            lemma_vec_enc_split::<T>(s, pos0, ms);
                            assert(ms.take(i as int) == built);
                            assert(seq_enc::<T>(ms.take(i as int), headend) == seq_enc::<T>(
                                built,
                                headend,
                            ));
                            lemma_seq_enc_elem_at::<T>(s, headend, ms, i as int);
                            assert(enc_at::<T>(s, cur, ms[i as int]));
                        }
                    }
                }
                return Err(e);
            },
        }
    }
    proof {
        let ms = res.deep_view();
        lemma_prim_enc_len(8, 8, n as int, pos0);
        assert(<Vec<T> as SerializeInner>::model_wf(ms));
        assert(<Vec<T> as SerializeInner>::enc(ms, pos0).len() == pad_len(pos0, 8) + 8
            + seq_enc::<T>(ms, headend).len());
        assert(s.subrange(pos0, pos0 + <Vec<T> as SerializeInner>::enc(ms, pos0).len())
            =~= <Vec<T> as SerializeInner>::enc(ms, pos0)) by {
            assert(s.subrange(pos0, pos0 + pad_len(pos0, 8) + 8) == prim_enc(
                8,
                8,
                n as int,
                pos0,
            ));
            assert forall|j: int|
                0 <= j < <Vec<T> as SerializeInner>::enc(ms, pos0).len() implies s.subrange(
                pos0,
                pos0 + <Vec<T> as SerializeInner>::enc(ms, pos0).len(),
            )[j] == <Vec<T> as SerializeInner>::enc(ms, pos0)[j] by {
                let head = pad_len(pos0, 8) + 8;
                if j < head {
                    assert(s.subrange(pos0, pos0 + head)[j] == prim_enc(8, 8, n as int, pos0)[j]);
                } else {
                    assert(s.subrange(
                        headend,
                        headend + seq_enc::<T>(ms, headend).len(),
                    )[j - head] == seq_enc::<T>(ms, headend)[j - head]);
                }
            }
        }
        assert(enc_at::<Vec<T>>(s, pos0, ms));
        assert forall|ms2: Seq<<T as DeepView>::V>|
            #[trigger] enc_at::<Vec<T>>(s, pos0, ms2) implies ms2 == ms by {
            assert(ms2.take(n as int) =~= ms2);
        }
    }
    Ok(res)
}

/// The images of a run of zero-copy element models, with nothing between
/// them.
pub open spec fn zimages<T: ZeroCopy>(ms: Seq<<T as DeepView>::V>) -> Seq<u8>
    decreases ms.len(),
{
    if ms.len() == 0 {
        Seq::empty()
    } else {
        T::image(ms[0]) + zimages::<T>(ms.drop_first())
    }
}

pub proof fn lemma_zimages_len<T: ZeroCopy>(ms: Seq<<T as DeepView>::V>)
    requires
        forall|i: int| 0 <= i < ms.len() ==> T::model_wf(#[trigger] ms[i]),
    ensures
        zimages::<T>(ms).len() == ms.len() * T::zsize(),
    decreases ms.len(),
{
    T::lemma_zero_props();
    if ms.len() == 0 {
        assert(zimages::<T>(ms).len() == 0);
    } else {
        T::lemma_zero_enc(ms[0], 0);
        assert(forall|i: int|
            0 <= i < ms.drop_first().len() ==> T::model_wf(#[trigger] ms.drop_first()[i]));
        lemma_zimages_len::<T>(ms.drop_first());
        assert(ms.len() * T::zsize() == T::zsize() + (ms.len() - 1) * T::zsize()) by {
            vstd::arithmetic::mul::lemma_mul_is_distributive_sub_other_way(
                T::zsize(),
                ms.len() as int,
                1,
            );
        }
    }
}

/// At an offset aligned for the element type the element encodings carry no
/// padding: the run is exactly the concatenated images.
pub proof fn lemma_seq_enc_zero<T: ZeroCopy>(ms: Seq<<T as DeepView>::V>, base: int)
    requires
        base >= 0,
        base % T::align_of() == 0,
        forall|i: int| 0 <= i < ms.len() ==> T::model_wf(#[trigger] ms[i]),
    ensures
        seq_enc::<T>(ms, base) == zimages::<T>(ms),
    decreases ms.len(),
{
    T::lemma_zero_props();
    T::lemma_align();
    if ms.len() == 0 {
    } else {
        T::lemma_zero_enc(ms[0], base);
        assert(pad_len(base, T::align_of()) == 0) by {
            vstd::arithmetic::div_mod::lemma_mod_self_0(T::align_of());
            vstd::arithmetic::div_mod::lemma_small_mod(0, T::align_of() as nat);
        }
        assert(zeros(0) =~= Seq::<u8>::empty());
        assert(T::enc(ms[0], base) =~= T::image(ms[0]));
        lemma_aligned_step(base, T::align_of(), T::zsize());
        assert(forall|i: int|
            0 <= i < ms.drop_first().len() ==> T::model_wf(#[trigger] ms.drop_first()[i]));
        lemma_seq_enc_zero::<T>(ms.drop_first(), base + T::zsize());
        assert(seq_enc::<T>(ms, base) =~= zimages::<T>(ms));
    }
}

/// The `i`-th chunk of a run of images is the `i`-th element's image.
pub proof fn lemma_zimages_index<T: ZeroCopy>(ms: Seq<<T as DeepView>::V>, i: int)
    requires
        forall|k: int| 0 <= k < ms.len() ==> T::model_wf(#[trigger] ms[k]),
        0 <= i < ms.len(),
    ensures
        0 <= i * T::zsize(),
        (i + 1) * T::zsize() <= zimages::<T>(ms).len(),
        zimages::<T>(ms).subrange(i * T::zsize(), i * T::zsize() + T::zsize()) == T::image(ms[i]),
    decreases i,
{
    T::lemma_zero_props();
    let z = T::zsize();
    lemma_zimages_len::<T>(ms);
    assert(0 <= i * z && (i + 1) * z <= ms.len() * z) by {
        vstd::arithmetic::mul::lemma_mul_inequality(i + 1, ms.len() as int, z);
        vstd::arithmetic::mul::lemma_mul_nonnegative(i, z);
    }
    T::lemma_zero_enc(ms[0], 0);
    if i == 0 {
        assert(i * z == 0) by {
            vstd::arithmetic::mul::lemma_mul_basics(z);
        }
        assert(zimages::<T>(ms).subrange(0, z) =~= T::image(ms[0]));
    } else {
        let rest = ms.drop_first();
        assert(forall|k: int| 0 <= k < rest.len() ==> T::model_wf(#[trigger] rest[k]));
        lemma_zimages_index::<T>(rest, i - 1);
        lemma_zimages_len::<T>(rest);
        assert(i * z == z + (i - 1) * z && (i + 1) * z == z + ((i - 1) + 1) * z) by {
            vstd::arithmetic::mul::lemma_mul_is_distributive_sub_other_way(z, i, 1);
            vstd::arithmetic::mul::lemma_mul_is_distributive_add_other_way(z, (i - 1) + 1, 1);
        }
        assert(zimages::<T>(ms).subrange(i * z, i * z + z) =~= zimages::<T>(rest).subrange(
            (i - 1) * z,
            (i - 1) * z + z,
        ));
        assert(rest[i - 1] == ms[i]);
    }
}

/// A borrowed window over the serialized images of zero-copy elements: the
/// ε-copy view of a vector of zero-copy values. Elements are decoded from
/// the window on access; nothing is copied up front.
pub struct ZeroSliceView<'a, T: ZeroCopy> {
    bytes: &'a [u8],
    len: usize,
    elems: Ghost<Seq<T>>,
}

impl<'a, T: ZeroCopy> ZeroSliceView<'a, T> {
    /// The models of the elements the window holds.
    pub closed spec fn canon(&self) -> Seq<<T as DeepView>::V> {
        self.elems@.map_values(|e: T| e.deep_view())
    }

    #[verifier::type_invariant]
    closed spec fn type_inv(&self) -> bool {
        &&& self.elems@.len() == self.len
        &&& (forall|i: int|
            0 <= i < self.elems@.len() ==> T::model_wf(#[trigger] self.elems@[i].deep_view()))
        &&& self.bytes@ == zimages::<T>(self.canon())
    }

    /// Build a window from its parts; the caller has checked that `bytes`
    /// is exactly the run of images of `elems`.
    fn from_parts(bytes: &'a [u8], len: usize, Ghost(elems): Ghost<Seq<T>>) -> (r: Self)
        requires
            elems.len() == len,
            forall|i: int| 0 <= i < elems.len() ==> T::model_wf(#[trigger] elems[i].deep_view()),
            bytes@ == zimages::<T>(elems.map_values(|e: T| e.deep_view())),
        ensures
            r.canon() == elems.map_values(|e: T| e.deep_view()),
    {
        let r = ZeroSliceView { bytes, len, elems: Ghost(elems) };
        proof {
            assert(forall|i: int|
                0 <= i < elems.len() ==> #[trigger] r.canon()[i] == elems[i].deep_view());
        }
        r
    }

    /// How many elements the window holds.
    pub fn len(&self) -> (r: usize)
        ensures
            r == self.canon().len(),
    {
        proof {
            use_type_invariant(&*self);
        }
        self.len
    }

    /// Decode the `i`-th element out of the window.
    pub fn get(&self, i: usize) -> (r: T)
        requires
            i < self.canon().len(),
        ensures
            r.deep_view() == self.canon()[i as int],
    {
        proof {
            use_type_invariant(&*self);
            T::lemma_zero_props();
            lemma_zimages_len::<T>(self.canon());
            lemma_zimages_index::<T>(self.canon(), i as int);
            vstd::slice::axiom_spec_len(self.bytes);
            assert((i as int) * (T::zsize() as int) + T::zsize() == (i + 1) * T::zsize()) by {
                vstd::arithmetic::mul::lemma_mul_is_distributive_add_other_way(
                    T::zsize(),
                    i as int,
                    1,
                );
            }
        }
        let z = T::zsize_ex();
        let start = i * z;
        let b = vstd::slice::slice_subrange(self.bytes, start, start + z);
        match T::from_image(b) {
            Ok(v) => {
                proof {
                    assert(b@ == T::image(self.canon()[i as int]));
                }
                v
            },
            Err(e) => {
                proof {
                    assert(b@ == T::image(self.canon()[i as int]));
                    assert(false);
                }
                vstd::pervasive::unreached()
            },
        }
    }

    /// Decode the whole window into an owned vector.
    pub fn to_vec(&self) -> (r: Vec<T>)
        ensures
            r.deep_view() == self.canon(),
    {
        let n = self.len();
        let mut r: Vec<T> = Vec::new();
        let mut i: usize = 0;
        proof {
            assert(r.deep_view() =~= self.canon().take(0));
        }
        while i < n
            invariant
                i <= n,
                n == self.canon().len(),
                r@.len() == i,
                r.deep_view() == self.canon().take(i as int),
            decreases n - i,
        {
            let v = self.get(i);
            let ghost pre = r.deep_view();
            r.push(v);
            proof {
                assert(r.deep_view() =~= pre.push(v.deep_view()));
                assert(r.deep_view() =~= self.canon().take(i + 1));
            }
            i = i + 1;
        }
        proof {
            assert(self.canon().take(n as int) =~= self.canon());
        }
        r
    }
}

/// Appending one image to a run of images.
pub proof fn lemma_zimages_snoc<T: ZeroCopy>(ms: Seq<<T as DeepView>::V>, m: <T as DeepView>::V)
    ensures
        zimages::<T>(ms.push(m)) == zimages::<T>(ms) + T::image(m),
    decreases ms.len(),
{
    if ms.len() == 0 {
        assert(ms.push(m).drop_first() =~= Seq::<<T as DeepView>::V>::empty());
        assert(ms.push(m)[0] == m);
        assert(zimages::<T>(Seq::<<T as DeepView>::V>::empty()) =~= Seq::<u8>::empty());
        assert(ms =~= Seq::<<T as DeepView>::V>::empty());
        assert(zimages::<T>(ms.push(m)) =~= zimages::<T>(ms) + T::image(m));
    } else {
        assert(ms.push(m).drop_first() =~= ms.drop_first().push(m));
        assert(ms.push(m)[0] == ms[0]);
        lemma_zimages_snoc::<T>(ms.drop_first(), m);
        assert(zimages::<T>(ms.push(m)) =~= zimages::<T>(ms) + T::image(m));
    }
}

/// Equal runs of images come from equal runs of models.
pub proof fn lemma_zimages_inj<T: ZeroCopy>(
    a: Seq<<T as DeepView>::V>,
    b: Seq<<T as DeepView>::V>,
)
    requires
        forall|i: int| 0 <= i < a.len() ==> T::model_wf(#[trigger] a[i]),
        forall|i: int| 0 <= i < b.len() ==> T::model_wf(#[trigger] b[i]),
        a.len() == b.len(),
        zimages::<T>(a) == zimages::<T>(b),
    ensures
        a == b,
{
    assert forall|i: int| 0 <= i < a.len() implies a[i] == b[i] by {
        lemma_zimages_index::<T>(a, i);
        lemma_zimages_index::<T>(b, i);
        T::lemma_image_inj(a[i], b[i]);
    }
    assert(a =~= b);
}

/// A stream offset that is a multiple of eight is a multiple of every
/// smaller power-of-two alignment.
pub(crate) proof fn lemma_mod8_to_align_pub(pos: int, align: int)
    requires
        pos >= 0,
        pos % 8 == 0,
        crate::valid_align(align),
        align <= 8,
    ensures
        pos % align == 0,
{
    vstd::arithmetic::div_mod::lemma_fundamental_div_mod(pos, 8);
    let k = pos / 8;
    if align == 1 {
        vstd::arithmetic::div_mod::lemma_mod_multiples_basic(pos, 1);
    } else if align == 2 {
        assert(pos == (4 * k) * 2);
        vstd::arithmetic::div_mod::lemma_mod_multiples_basic(4 * k, 2);
    } else if align == 4 {
        assert(pos == (2 * k) * 4);
        vstd::arithmetic::div_mod::lemma_mod_multiples_basic(2 * k, 4);
    } else {
        assert(pos == k * 8);
        vstd::arithmetic::div_mod::lemma_mod_multiples_basic(k, 8);
    }
}

/// ε-copy deserialize a vector of zero-copy elements: the length, then one
/// borrowed window over the contiguous element images. Every element image
/// is validated once so that later accesses cannot fail.
pub fn deserialize_slice<'a, T: ZeroCopy + DeserializeInner>(backend: &mut SliceWithPos<'a>) -> (res:
    Result<ZeroSliceView<'a, T>, DeserializeError>)
    requires
        old(backend).wf(),
    ensures
        final(backend).wf(),
        final(backend).stream() == old(backend).stream(),
        forall|ms: Seq<<T as DeepView>::V>|
            #[trigger] enc_at::<Vec<T>>(old(backend).stream(), old(backend).pos(), ms) ==> (
            res matches Ok(w) && w.canon() == ms && final(backend).pos() == old(backend).pos()
                + <Vec<T> as SerializeInner>::enc(ms, old(backend).pos()).len()),
        res matches Ok(w) ==> enc_at::<Vec<T>>(
            old(backend).stream(),
            old(backend).pos(),
            w.canon(),
        ) && final(backend).pos() == old(backend).pos() + <Vec<T> as SerializeInner>::enc(
            w.canon(),
            old(backend).pos(),
        ).len(),
{
    let ghost s = old(backend).stream();
    let ghost pos0 = old(backend).pos();
    proof {
        lemma_pow256_64();
        backend.lemma_wf();
        lemma_pad_len_bounds(pos0, 8);
        T::lemma_zero_props();
        T::lemma_align();
    }
    let ghost headend = pos0 + pad_len(pos0, 8) + 8;
    proof {
        lemma_aligned_step(pos0 + pad_len(pos0, 8), 8, 8);
        lemma_mod8_to_align_pub(headend, T::align_of());
    }
    let r = des_prim(backend, 8, 8);
    let x = match r {
        Ok(x) => x,
        Err(e) => {
            proof {
                assert forall|ms: Seq<<T as DeepView>::V>|
                    !(#[trigger] enc_at::<Vec<T>>(s, pos0, ms)) by {
                    if enc_at::<Vec<T>>(s, pos0, ms) {
                        lemma_vec_enc_split::<T>(s, pos0, ms);
                    }
                }
            }
            return Err(e);
        },
    };
    if x > usize::MAX as u64 {
        proof {
            assert forall|ms: Seq<<T as DeepView>::V>|
                !(#[trigger] enc_at::<Vec<T>>(s, pos0, ms)) by {
                if enc_at::<Vec<T>>(s, pos0, ms) {
                    lemma_vec_enc_split::<T>(s, pos0, ms);
                }
            }
        }
        return Err(DeserializeError::ReadError);
    }
    let n = x as usize;
    let z = T::zsize_ex();
    proof {
        assert((n as u128) * (z as u128) == (n as int) * (z as int) && (n as int) * (z as int)
            < 0x1_0000_0000_0000_0000_0000) by (nonlinear_arith)
            requires
                n <= u64::MAX,
                1 <= z <= 0xFFFF,
        ;
    }
    let total128: u128 = (n as u128) * (z as u128);
    if total128 > usize::MAX as u128 {
        proof {
            assert forall|ms: Seq<<T as DeepView>::V>|
                !(#[trigger] enc_at::<Vec<T>>(s, pos0, ms)) by {
                if enc_at::<Vec<T>>(s, pos0, ms) {
                    lemma_vec_enc_split::<T>(s, pos0, ms);
                    assert(prim_enc_at(s, pos0, 8, 8, ms.len() as int));
                    assert(ms.len() == n);
                    lemma_seq_enc_zero::<T>(ms, headend);
                    lemma_zimages_len::<T>(ms);
                }
            }
        }
        return Err(DeserializeError::ReadError);
    }
    let total = total128 as usize;
    let r2 = backend.take_bytes(total);
    let window = match r2 {
        Ok(w) => w,
        Err(e) => {
            proof {
                assert forall|ms: Seq<<T as DeepView>::V>|
                    !(#[trigger] enc_at::<Vec<T>>(s, pos0, ms)) by {
                    if enc_at::<Vec<T>>(s, pos0, ms) {
                        lemma_vec_enc_split::<T>(s, pos0, ms);
                        assert(prim_enc_at(s, pos0, 8, 8, ms.len() as int));
                        assert(ms.len() == n);
                        lemma_seq_enc_zero::<T>(ms, headend);
                        lemma_zimages_len::<T>(ms);
                    }
                }
            }
            return Err(e);
        },
    };
    let ghost wb = window@;
    let mut i: usize = 0;
    let ghost mut es: Seq<T> = Seq::empty();
    proof {
        backend.lemma_wf();
        assert(es.map_values(|e: T| e.deep_view()) =~= Seq::<<T as DeepView>::V>::empty());
        assert(zimages::<T>(es.map_values(|e: T| e.deep_view())) =~= wb.take(0));
        vstd::slice::axiom_spec_len(window);
        assert forall|ms: Seq<<T as DeepView>::V>|
            #[trigger] enc_at::<Vec<T>>(s, pos0, ms) implies ms.len() == n && zimages::<T>(ms)
            == wb by {
            lemma_vec_enc_split::<T>(s, pos0, ms);
            assert(prim_enc_at(s, pos0, 8, 8, ms.len() as int));
            assert(ms.len() == n);
            lemma_seq_enc_zero::<T>(ms, headend);
            lemma_zimages_len::<T>(ms);
            assert(zimages::<T>(ms) =~= wb) by {
                assert(s.subrange(headend, headend + (n * z) as int) == seq_enc::<T>(ms, headend));
            }
        }
    }
    while i < n
        invariant
            backend.wf(),
            backend.stream() == s,
            s == old(backend).stream(),
            pos0 == old(backend).pos(),
            i <= n,
            1 <= z <= 0xFFFF,
            z == T::zsize(),
            wb == window@,
            wb.len() == n * z,
            wb.len() <= usize::MAX,
            es.len() == i,
            forall|k: int| 0 <= k < es.len() ==> T::model_wf(#[trigger] es[k].deep_view()),
            zimages::<T>(es.map_values(|e: T| e.deep_view())) == wb.take((i * z) as int),
            i * z <= wb.len(),
            forall|ms: Seq<<T as DeepView>::V>|
                #[trigger] enc_at::<Vec<T>>(s, pos0, ms) ==> ms.len() == n && zimages::<T>(ms)
                    == wb,
        decreases n - i,
    {
        let ghost esm = es.map_values(|e: T| e.deep_view());
        proof {
            assert(0 <= i * z && (i + 1) * z <= n * z && i * z + z == (i + 1) * z) by (
            nonlinear_arith)
                requires
                    0 <= i < n,
                    1 <= z,
                    wb.len() == n * z,
            ;
            lemma_zimages_len::<T>(esm);
        }
        let b = vstd::slice::slice_subrange(window, i * z, i * z + z);
        match T::from_image(b) {
            Ok(v) => {
                proof {
                    es = es.push(v);
                    assert(es.map_values(|e: T| e.deep_view()) =~= esm.push(v.deep_view()));
                    lemma_zimages_snoc::<T>(esm, v.deep_view());
                    assert(zimages::<T>(esm.push(v.deep_view())) =~= wb.take(((i + 1) * z) as int));
                }
            },
            Err(e) => {
                proof {
                    assert forall|ms: Seq<<T as DeepView>::V>|
                        !(#[trigger] enc_at::<Vec<T>>(s, pos0, ms)) by {
                        if enc_at::<Vec<T>>(s, pos0, ms) {
                            assert(ms.len() == n && zimages::<T>(ms) == wb);
                            lemma_zimages_index::<T>(ms, i as int);
                            assert(b@ =~= T::image(ms[i as int]));
                        }
                    }
                }
                return Err(e);
            },
        }
        i = i + 1;
    }
    let ghost esm = es.map_values(|e: T| e.deep_view());
    proof {
        assert(wb.take((n * z) as int) =~= wb);
        lemma_zimages_len::<T>(esm);
    }
    let view = ZeroSliceView::from_parts(window, n, Ghost(es));
    proof {
        assert(view.canon() == esm);
        lemma_prim_enc_len(8, 8, n as int, pos0);
        lemma_seq_enc_zero::<T>(esm, headend);
        assert(<Vec<T> as SerializeInner>::model_wf(esm));
        let ve = <Vec<T> as SerializeInner>::enc(esm, pos0);
        assert(ve.len() == pad_len(pos0, 8) + 8 + (n * z) as int);
        assert(s.subrange(pos0, pos0 + ve.len()) =~= ve) by {
            assert(s.subrange(pos0, pos0 + pad_len(pos0, 8) + 8) == prim_enc(8, 8, n as int, pos0));
            assert(s.subrange(headend, headend + (n * z) as int) == wb);
            assert forall|j: int| 0 <= j < ve.len() implies s.subrange(pos0, pos0 + ve.len())[j]
                == ve[j] by {
                let head = pad_len(pos0, 8) + 8;
                if j < head {
                    assert(s.subrange(pos0, pos0 + head)[j] == prim_enc(8, 8, n as int, pos0)[j]);
                } else {
                    assert(s.subrange(headend, headend + (n * z) as int)[j - head] == wb[j - head]);
                }
            }
        }
        assert(enc_at::<Vec<T>>(s, pos0, esm));
        assert forall|ms: Seq<<T as DeepView>::V>|
            #[trigger] enc_at::<Vec<T>>(s, pos0, ms) implies ms == esm by {
            lemma_vec_enc_split::<T>(s, pos0, ms);
            assert(prim_enc_at(s, pos0, 8, 8, ms.len() as int));
            assert(ms.len() == n);
            lemma_seq_enc_zero::<T>(ms, headend);
            lemma_zimages_len::<T>(ms);
            assert(zimages::<T>(ms) =~= wb) by {
                assert(s.subrange(headend, headend + (n * z) as int) == seq_enc::<T>(ms, headend));
            }
            lemma_zimages_inj::<T>(ms, esm);
        }
    }
    Ok(view)
}

/// The models a vector of ε-copy element views stands for.
pub open spec fn eps_vec_canon<'a, T: DeserializeInner>(
    ws: Seq<<T as DeserializeInner>::DeserType<'a>>,
) -> Seq<<T as DeepView>::V> {
    ws.map_values(|w: <T as DeserializeInner>::DeserType<'a>| T::dcanon(&w))
}

/// ε-copy deserialize a vector of deep elements: the length, then that many
/// element views, each possibly borrowing from the input slice.
pub fn deserialize_vec_eps<'a, T: SerializeInner + DeserializeInner>(
    backend: &mut SliceWithPos<'a>,
) -> (res: Result<Vec<<T as DeserializeInner>::DeserType<'a>>, DeserializeError>)
    requires
        old(backend).wf(),
    ensures
        final(backend).wf(),
        final(backend).stream() == old(backend).stream(),
        forall|ms: Seq<<T as DeepView>::V>|
            #[trigger] enc_at::<Vec<T>>(old(backend).stream(), old(backend).pos(), ms) ==> (
            res matches Ok(v) && eps_vec_canon::<T>(v@) == ms && final(backend).pos() == old(
                backend,
            ).pos() + <Vec<T> as SerializeInner>::enc(ms, old(backend).pos()).len()),
        res matches Ok(v) ==> enc_at::<Vec<T>>(
            old(backend).stream(),
            old(backend).pos(),
            eps_vec_canon::<T>(v@),
        ) && final(backend).pos() == old(backend).pos() + <Vec<T> as SerializeInner>::enc(
            eps_vec_canon::<T>(v@),
            old(backend).pos(),
        ).len(),
{
    let ghost s = old(backend).stream();
    let ghost pos0 = old(backend).pos();
    proof {
        lemma_pow256_64();
        backend.lemma_wf();
        lemma_pad_len_bounds(pos0, 8);
    }
    let ghost headend = pos0 + pad_len(pos0, 8) + 8;
    let r = des_prim(backend, 8, 8);
    let x = match r {
        Ok(x) => x,
        Err(e) => {
            proof {
                assert forall|ms: Seq<<T as DeepView>::V>|
                    !(#[trigger] enc_at::<Vec<T>>(s, pos0, ms)) by {
                    if enc_at::<Vec<T>>(s, pos0, ms) {
                        lemma_vec_enc_split::<T>(s, pos0, ms);
                    }
                }
            }
            return Err(e);
        },
    };
    if x > usize::MAX as u64 {
        proof {
            assert forall|ms: Seq<<T as DeepView>::V>|
                !(#[trigger] enc_at::<Vec<T>>(s, pos0, ms)) by {
                if enc_at::<Vec<T>>(s, pos0, ms) {
                    lemma_vec_enc_split::<T>(s, pos0, ms);
                }
            }
        }
        return Err(DeserializeError::ReadError);
    }
    let n = x as usize;
    let mut res: Vec<<T as DeserializeInner>::DeserType<'a>> = Vec::new();
    proof {
        backend.lemma_wf();
        assert(eps_vec_canon::<T>(res@) =~= Seq::<<T as DeepView>::V>::empty());
        assert(seq_enc::<T>(eps_vec_canon::<T>(res@), headend) =~= Seq::<u8>::empty());
        assert(s.subrange(headend, headend) =~= Seq::<u8>::empty());
        assert forall|ms: Seq<<T as DeepView>::V>|
            #[trigger] enc_at::<Vec<T>>(s, pos0, ms) implies ms.len() == n && ms.take(0)
            == eps_vec_canon::<T>(res@) by {
            lemma_vec_enc_split::<T>(s, pos0, ms);
            assert(prim_enc_at(s, pos0, 8, 8, ms.len() as int));
            assert(ms.take(0) =~= eps_vec_canon::<T>(res@));
        }
    }
    let mut i: usize = 0;
    while i < n
        invariant
            backend.wf(),
            backend.stream() == s,
            s == old(backend).stream(),
            pos0 == old(backend).pos(),
            s.len() <= usize::MAX,
            i <= n,
            headend == pos0 + pad_len(pos0, 8) + 8,
            0 <= pos0,
            prim_enc_at(s, pos0, 8, 8, n as int),
            res@.len() == i,
            eps_vec_canon::<T>(res@).len() == i,
            forall|k: int| 0 <= k < i ==> T::model_wf(#[trigger] eps_vec_canon::<T>(res@)[k]),
            backend.pos() == headend + seq_enc::<T>(eps_vec_canon::<T>(res@), headend).len(),
            headend + seq_enc::<T>(eps_vec_canon::<T>(res@), headend).len() <= s.len(),
            s.subrange(headend, headend + seq_enc::<T>(eps_vec_canon::<T>(res@), headend).len())
                == seq_enc::<T>(eps_vec_canon::<T>(res@), headend),
            forall|ms: Seq<<T as DeepView>::V>|
                #[trigger] enc_at::<Vec<T>>(s, pos0, ms) ==> ms.len() == n && ms.take(i as int)
                    == eps_vec_canon::<T>(res@),
        decreases n - i,
    {
        let ghost cur = backend.pos();
        let ghost built = eps_vec_canon::<T>(res@);
        let r = T::_deserialize_eps_copy_inner(backend);
        match r {
            Ok(w) => {
                proof {
                    assert forall|ms: Seq<<T as DeepView>::V>|
                        #[trigger] enc_at::<Vec<T>>(s, pos0, ms) implies ms.len() == n && ms.take(
                        i + 1,
                    ) == built.push(T::dcanon(&w)) by {
                        lemma_vec_enc_split::<T>(s, pos0, ms);
                        assert(ms.take(i as int) == built);
                        assert(seq_enc::<T>(ms.take(i as int), headend) == seq_enc::<T>(
                            built,
                            headend,
                        ));
                        lemma_seq_enc_elem_at::<T>(s, headend, ms, i as int);
                        assert(enc_at::<T>(s, cur, ms[i as int]));
                        assert(T::dcanon(&w) == ms[i as int]);
                        assert(ms.take(i + 1) =~= built.push(T::dcanon(&w)));
                    }
                }
                let ghost wm = T::dcanon(&w);
                res.push(w);
                proof {
                    assert(eps_vec_canon::<T>(res@) =~= built.push(wm));
                    lemma_seq_enc_take_succ::<T>(eps_vec_canon::<T>(res@), headend, i as int);
                    assert(eps_vec_canon::<T>(res@).take(i as int) =~= built);
                    assert(eps_vec_canon::<T>(res@).take(i + 1) =~= eps_vec_canon::<T>(res@));
                    assert(seq_enc::<T>(eps_vec_canon::<T>(res@), headend) == seq_enc::<T>(
                        built,
                        headend,
                    ) + T::enc(wm, cur));
                    assert(s.subrange(
                        headend,
                        headend + seq_enc::<T>(eps_vec_canon::<T>(res@), headend).len(),
                    ) =~= seq_enc::<T>(eps_vec_canon::<T>(res@), headend));
                }
                i = i + 1;
            },
            Err(e) => {
                proof {
                    assert forall|ms: Seq<<T as DeepView>::V>|
                        !(#[trigger] enc_at::<Vec<T>>(s, pos0, ms)) by {
                        if enc_at::<Vec<T>>(s, pos0, ms) {
                            lemma_vec_enc_split::<T>(s, pos0, ms);
                            assert(ms.take(i as int) == built);
                            assert(seq_enc::<T>(ms.take(i as int), headend) == seq_enc::<T>(
                                built,
                                headend,
                            ));
                            lemma_seq_enc_elem_at::<T>(s, headend, ms, i as int);
                            assert(enc_at::<T>(s, cur, ms[i as int]));
                        }
                    }
                }
                return Err(e);
            },
        }
    }
    proof {
        let ms = eps_vec_canon::<T>(res@);
        lemma_prim_enc_len(8, 8, n as int, pos0);
        assert(<Vec<T> as SerializeInner>::model_wf(ms));
        assert(<Vec<T> as SerializeInner>::enc(ms, pos0).len() == pad_len(pos0, 8) + 8
            + seq_enc::<T>(ms, headend).len());
        assert(s.subrange(pos0, pos0 + <Vec<T> as SerializeInner>::enc(ms, pos0).len())
            =~= <Vec<T> as SerializeInner>::enc(ms, pos0)) by {
            assert(s.subrange(pos0, pos0 + pad_len(pos0, 8) + 8) == prim_enc(
                8,
                8,
                n as int,
                pos0,
            ));
            assert forall|j: int|
                0 <= j < <Vec<T> as SerializeInner>::enc(ms, pos0).len() implies s.subrange(
                pos0,
                pos0 + <Vec<T> as SerializeInner>::enc(ms, pos0).len(),
            )[j] == <Vec<T> as SerializeInner>::enc(ms, pos0)[j] by {
                let head = pad_len(pos0, 8) + 8;
                if j < head {
                    assert(s.subrange(pos0, pos0 + head)[j] == prim_enc(8, 8, n as int, pos0)[j]);
                } else {
                    assert(s.subrange(
                        headend,
                        headend + seq_enc::<T>(ms, headend).len(),
                    )[j - head] == seq_enc::<T>(ms, headend)[j - head]);
                }
            }
        }
        assert(enc_at::<Vec<T>>(s, pos0, ms));
        assert forall|ms2: Seq<<T as DeepView>::V>|
            #[trigger] enc_at::<Vec<T>>(s, pos0, ms2) implies ms2 == ms by {
            assert(ms2.take(n as int) =~= ms2);
        }
    }
    Ok(res)
}

impl<T: ZeroCopy + DeserializeInner> DeserializeHelper<Zero> for Vec<T> {
    type HelpDeserType<'a> = ZeroSliceView<'a, T>;

    open spec fn hcanon<'a>(w: &ZeroSliceView<'a, T>) -> Seq<<T as DeepView>::V> {
        w.canon()
    }

    fn _deserialize_full_copy_inner_impl<R: ReadWithPos>(backend: &mut R) -> (res: Result<
        Self,
        DeserializeError,
    >) {
        deserialize_vec_full::<T, R>(backend)
    }

    fn _deserialize_eps_copy_inner_impl<'a>(backend: &mut SliceWithPos<'a>) -> (res: Result<
        ZeroSliceView<'a, T>,
        DeserializeError,
    >) {
        deserialize_slice::<T>(backend)
    }
}

impl<T: SerializeInner + DeserializeInner> DeserializeHelper<Deep> for Vec<T> {
    type HelpDeserType<'a> = Vec<<T as DeserializeInner>::DeserType<'a>>;

    open spec fn hcanon<'a>(w: &Vec<<T as DeserializeInner>::DeserType<'a>>) -> Seq<
        <T as DeepView>::V,
    > {
        eps_vec_canon::<T>(w@)
    }

    fn _deserialize_full_copy_inner_impl<R: ReadWithPos>(backend: &mut R) -> (res: Result<
        Self,
        DeserializeError,
    >) {
        deserialize_vec_full::<T, R>(backend)
    }

    fn _deserialize_eps_copy_inner_impl<'a>(backend: &mut SliceWithPos<'a>) -> (res: Result<
        Vec<<T as DeserializeInner>::DeserType<'a>>,
        DeserializeError,
    >) {
        deserialize_vec_eps::<T>(backend)
    }
}

impl<T: CopyType + SerializeInner + DeserializeInner> DeserializeInner for Vec<T> where
    Vec<T>: DeserializeHelper<<T as CopyType>::Copy>,
 {
    type DeserType<'a> = <Vec<T> as DeserializeHelper<<T as CopyType>::Copy>>::HelpDeserType<'a>;

    open spec fn dcanon<'a>(w: &Self::DeserType<'a>) -> <Vec<T> as DeepView>::V {
        <Vec<T> as DeserializeHelper<<T as CopyType>::Copy>>::hcanon(w)
    }

    fn _deserialize_full_copy_inner<R: ReadWithPos>(backend: &mut R) -> (res: Result<
        Self,
        DeserializeError,
    >) {
        <Vec<T> as DeserializeHelper<<T as CopyType>::Copy>>::_deserialize_full_copy_inner_impl(
            backend,
        )
    }

    fn _deserialize_eps_copy_inner<'a>(backend: &mut SliceWithPos<'a>) -> (res: Result<
        Self::DeserType<'a>,
        DeserializeError,
    >) {
        <Vec<T> as DeserializeHelper<<T as CopyType>::Copy>>::_deserialize_eps_copy_inner_impl(
            backend,
        )
    }
}

} // verus!
