//! Serialization of options: a one-byte tag, zero for absent and one for
//! present, followed in the latter case by the value. Any other tag is
//! rejected.

use vstd::prelude::*;
use crate::lemma_pad_len_bounds;
use crate::bytes::{le_bytes, lemma_pow256_64};
use crate::hash::{TypeHasher, str_feed};
use crate::ser::{FieldWrite, SerializeError};
use crate::des::{ReadWithPos, SliceWithPos, DeserializeError, DeserializeInner};
use crate::traits::{TypeHash, SerializeInner, CopyType, Deep, enc_at, lemma_cat_at,
    lemma_cat_split};
use crate::impls::prim::{prim_enc, des_prim, ser_prim, lemma_prim_enc_len};

verus! {

/// The discriminant byte of an option.
pub open spec fn opt_tag<V>(m: Option<V>) -> int {
    match m {
        Option::None => 0,
        Option::Some(_) => 1,
    }
}

impl<T: TypeHash> TypeHash for Option<T> {
    open spec fn th_input() -> Seq<u8> {
        str_feed("Option"@) + T::th_input()
    }

    open spec fn trh_input() -> Seq<u8> {
        le_bytes(8, 1) + T::trh_input()
    }

    open spec fn ty_name_spec() -> Seq<char> {
        "Option<"@ + T::ty_name_spec() + ">"@
    }

    fn ty_name() -> (r: String) {
        let inner = T::ty_name();
        let r = <String as vstd::string::StringExecFns>::from_str("Option<");
        let r = vstd::string::StringExecFns::concat(r, inner.as_str());
        let r = vstd::string::StringExecFns::concat(r, ">");
        proof {
            assert(r@ =~= Self::ty_name_spec());
        }
        r
    }

    fn type_hash(hasher: &mut TypeHasher) {
        let ghost base = hasher.fed();
        hasher.write_str("Option");
        T::type_hash(hasher);
        proof {
            assert(base + str_feed("Option"@) + T::th_input() =~= base + Self::th_input());
        }
    }

    fn type_repr_hash(hasher: &mut TypeHasher) {
        let ghost base = hasher.fed();
        hasher.write_u64(1);
        T::type_repr_hash(hasher);
        proof {
            assert(base + le_bytes(8, 1) + T::trh_input() =~= base + Self::trh_input());
        }
    }
}

impl<T> CopyType for Option<T> {
    type Copy = Deep;
}

impl<T: SerializeInner> SerializeInner for Option<T> {
    open spec fn is_zero_copy() -> bool {
        false
    }

    open spec fn zero_copy_mismatch() -> bool {
        false
    }

    open spec fn align_of() -> int {
        1
    }

    open spec fn model_wf(m: Option<<T as DeepView>::V>) -> bool {
        match m {
            Option::None => true,
            Option::Some(x) => T::model_wf(x),
        }
    }

    open spec fn enc(m: Option<<T as DeepView>::V>, pos: int) -> Seq<u8> {
        match m {
            Option::None => prim_enc(1, 1, 0, pos),
            Option::Some(x) => prim_enc(1, 1, 1, pos) + T::enc(x, pos + 1),
        }
    }

    proof fn lemma_align() {
    }

    proof fn lemma_value_wf(&self) {
        match self {
            Option::None => {},
            Option::Some(x) => {
                x.lemma_value_wf();
            },
        }
    }

    fn _serialize_inner<W: FieldWrite>(&self, backend: &mut W) -> (r: Result<
        (),
        SerializeError,
    >) {
        let ghost w0 = old(backend).written();
        let ghost m = self.deep_view();
        proof {
            lemma_pow256_64();
            lemma_pad_len_bounds(w0.len() as int, 1);
            lemma_prim_enc_len(1, 1, opt_tag(m), w0.len() as int);
        }
        match self {
            Option::None => {
                let r = ser_prim(backend, 0, 1, 1);
                match r {
                    Ok(u) => {
                        proof {
                            assert(backend.written() =~= w0 + Self::enc(m, w0.len() as int));
                        }
                        Ok(())
                    },
                    Err(e) => Err(e),
                }
            },
            Option::Some(x) => {
                ser_prim(backend, 1, 1, 1)?;
                let r = x._serialize_inner(backend);
                match r {
                    Ok(u) => {
                        proof {
                            assert(backend.written() =~= w0 + Self::enc(m, w0.len() as int));
                        }
                        Ok(())
                    },
                    Err(e) => Err(e),
                }
            },
        }
    }
}

/// Where the tag and the payload of an option encoding sit.
proof fn lemma_opt_enc_split<T: SerializeInner>(s: Seq<u8>, pos: int, m: Option<
    <T as DeepView>::V,
>)
    requires
        enc_at::<Option<T>>(s, pos, m),
    ensures
        crate::impls::prim::prim_enc_at(s, pos, 1, 1, opt_tag(m)),
        m matches Option::Some(x) ==> enc_at::<T>(s, pos + 1, x),
{
    lemma_pad_len_bounds(pos, 1);
    lemma_prim_enc_len(1, 1, opt_tag(m), pos);
    let t = prim_enc(1, 1, opt_tag(m), pos);
    match m {
        Option::None => {
            assert(s.subrange(pos, pos + 1) =~= t);
        },
        Option::Some(x) => {
            let e = T::enc(x, pos + 1);
            let whole = s.subrange(pos, pos + 1 + e.len());
            assert(whole == t + e);
            lemma_cat_split(s, pos, t, e);
        },
    }
}

impl<T: SerializeInner + DeserializeInner> DeserializeInner for Option<T> {
    type DeserType<'a> = Option<<T as DeserializeInner>::DeserType<'a>>;

    open spec fn dcanon<'a>(w: &Option<<T as DeserializeInner>::DeserType<'a>>) -> Option<
        <T as DeepView>::V,
    > {
        match w {
            Option::None => Option::None,
            Option::Some(x) => Option::Some(T::dcanon(x)),
        }
    }

    #[verifier::spinoff_prover]
    fn _deserialize_full_copy_inner<R: ReadWithPos>(backend: &mut R) -> (res: Result<
        Self,
        DeserializeError,
    >) {
        let ghost s = old(backend).stream();
        let ghost pos0 = old(backend).pos();
        proof {
            lemma_pow256_64();
            backend.lemma_wf();
            lemma_pad_len_bounds(pos0, 1);
        }
        let rt = des_prim(backend, 1, 1);
        let t = match rt {
            Ok(x) => x,
            Err(e) => {
                proof {
                    assert forall|m: Option<<T as DeepView>::V>|
                        !(#[trigger] enc_at::<Option<T>>(s, pos0, m)) by {
                        if enc_at::<Option<T>>(s, pos0, m) {
                            lemma_opt_enc_split::<T>(s, pos0, m);
                        }
                    }
                }
                return Err(e);
            },
        };
        proof {
            assert forall|m: Option<<T as DeepView>::V>|
                #[trigger] enc_at::<Option<T>>(s, pos0, m) implies t as int == opt_tag(m) by {
                lemma_opt_enc_split::<T>(s, pos0, m);
            }
            lemma_prim_enc_len(1, 1, t as int, pos0);
        }
        if t == 0 {
            let out = Option::<T>::None;
            proof {
                assert(s.subrange(pos0, pos0 + 1) =~= <Option<T> as SerializeInner>::enc(
                    out.deep_view(),
                    pos0,
                ));
                assert(enc_at::<Option<T>>(s, pos0, out.deep_view()));
                assert forall|m: Option<<T as DeepView>::V>|
                    #[trigger] enc_at::<Option<T>>(s, pos0, m) implies out.deep_view() == m by {
                    lemma_opt_enc_split::<T>(s, pos0, m);
                    assert(opt_tag(m) == 0);
                }
            }
            Ok(out)
        } else if t == 1 {
            let rx = T::_deserialize_full_copy_inner(backend);
            let x = match rx {
                Ok(x) => x,
                Err(e) => {
                    proof {
                        assert forall|m: Option<<T as DeepView>::V>|
                            !(#[trigger] enc_at::<Option<T>>(s, pos0, m)) by {
                            if enc_at::<Option<T>>(s, pos0, m) {
                                lemma_opt_enc_split::<T>(s, pos0, m);
                            }
                        }
                    }
                    return Err(e);
                },
            };
            let out = Option::Some(x);
            proof {
                let e = T::enc(x.deep_view(), pos0 + 1);
                lemma_cat_at(s, pos0, prim_enc(1, 1, 1, pos0), e);
                assert(enc_at::<Option<T>>(s, pos0, out.deep_view())) by {
                    assert(<Option<T> as SerializeInner>::enc(out.deep_view(), pos0) == prim_enc(
                        1,
                        1,
                        1,
                        pos0,
                    ) + e);
                }
                assert forall|m: Option<<T as DeepView>::V>|
                    #[trigger] enc_at::<Option<T>>(s, pos0, m) implies out.deep_view() == m by {
                    lemma_opt_enc_split::<T>(s, pos0, m);
                    assert(opt_tag(m) == 1);
                }
            }
            Ok(out)
        } else {
            proof {
                assert forall|m: Option<<T as DeepView>::V>|
                    !(#[trigger] enc_at::<Option<T>>(s, pos0, m)) by {
                    if enc_at::<Option<T>>(s, pos0, m) {
                        assert(t as int == opt_tag(m));
                    }
                }
            }
            Err(DeserializeError::InvalidTag(t as u8))
        }
    }

    #[verifier::spinoff_prover]
    fn _deserialize_eps_copy_inner<'a>(backend: &mut SliceWithPos<'a>) -> (res: Result<
        Self::DeserType<'a>,
        DeserializeError,
    >) {
        let ghost s = old(backend).stream();
        let ghost pos0 = old(backend).pos();
        proof {
            lemma_pow256_64();
            backend.lemma_wf();
            lemma_pad_len_bounds(pos0, 1);
        }
        let rt = des_prim(backend, 1, 1);
        let t = match rt {
            Ok(x) => x,
            Err(e) => {
                proof {
                    assert forall|m: Option<<T as DeepView>::V>|
                        !(#[trigger] enc_at::<Option<T>>(s, pos0, m)) by {
                        if enc_at::<Option<T>>(s, pos0, m) {
                            lemma_opt_enc_split::<T>(s, pos0, m);
                        }
                    }
                }
                return Err(e);
            },
        };
        proof {
            assert forall|m: Option<<T as DeepView>::V>|
                #[trigger] enc_at::<Option<T>>(s, pos0, m) implies t as int == opt_tag(m) by {
                lemma_opt_enc_split::<T>(s, pos0, m);
            }
            lemma_prim_enc_len(1, 1, t as int, pos0);
        }
        if t == 0 {
            let out = Option::<<T as DeserializeInner>::DeserType<'a>>::None;
            proof {
                assert(s.subrange(pos0, pos0 + 1) =~= <Option<T> as SerializeInner>::enc(
                    Self::dcanon(&out),
                    pos0,
                ));
                assert(enc_at::<Option<T>>(s, pos0, Self::dcanon(&out)));
                assert forall|m: Option<<T as DeepView>::V>|
                    #[trigger] enc_at::<Option<T>>(s, pos0, m) implies Self::dcanon(&out) == m by {
                    lemma_opt_enc_split::<T>(s, pos0, m);
                    assert(opt_tag(m) == 0);
                }
            }
            Ok(out)
        } else if t == 1 {
            let rx = T::_deserialize_eps_copy_inner(backend);
            let x = match rx {
                Ok(x) => x,
                Err(e) => {
                    proof {
                        assert forall|m: Option<<T as DeepView>::V>|
                            !(#[trigger] enc_at::<Option<T>>(s, pos0, m)) by {
                            if enc_at::<Option<T>>(s, pos0, m) {
                                lemma_opt_enc_split::<T>(s, pos0, m);
                            }
                        }
                    }
                    return Err(e);
                },
            };
            let out = Option::Some(x);
            proof {
                let e = T::enc(T::dcanon(&x), pos0 + 1);
                lemma_cat_at(s, pos0, prim_enc(1, 1, 1, pos0), e);
                assert(enc_at::<Option<T>>(s, pos0, Self::dcanon(&out))) by {
                    assert(<Option<T> as SerializeInner>::enc(Self::dcanon(&out), pos0)
                        == prim_enc(1, 1, 1, pos0) + e);
                }
                assert forall|m: Option<<T as DeepView>::V>|
                    #[trigger] enc_at::<Option<T>>(s, pos0, m) implies Self::dcanon(&out) == m by {
                    lemma_opt_enc_split::<T>(s, pos0, m);
                    assert(opt_tag(m) == 1);
                }
            }
            Ok(out)
        } else {
            proof {
                assert forall|m: Option<<T as DeepView>::V>|
                    !(#[trigger] enc_at::<Option<T>>(s, pos0, m)) by {
                    if enc_at::<Option<T>>(s, pos0, m) {
                        assert(t as int == opt_tag(m));
                    }
                }
            }
            Err(DeserializeError::InvalidTag(t as u8))
        }
    }
}

} // verus!
