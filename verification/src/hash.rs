//! Type fingerprints.
//!
//! Every serializable type feeds a description of itself — names for the
//! structural fingerprint, layout numbers for the representation fingerprint
//! — into a [`TypeHasher`], and the 64-bit digest of the collected bytes is
//! the fingerprint written to and checked against the stream header.

use vstd::prelude::*;
use vstd::string::StringSliceAdditionalSpecFns;
use crate::bytes::{le_bytes, u64_to_le, lemma_pow256_64};

verus! {

/// The 64-bit digest xxh3 computes for a byte sequence; it depends on the
/// bytes alone.
pub uninterp spec fn xxh3_64_of(data: Seq<u8>) -> u64;

/// Relies on `xxhash_rust::xxh3::xxh3_64`: the 64-bit xxh3 digest of the
/// input bytes, computed with the default secret and seed, a pure function
/// of the input.
#[verifier::external_body]
fn xxh3_64(data: &[u8]) -> (r: u64)
    ensures
        r == xxh3_64_of(data@),
{
    xxhash_rust::xxh3::xxh3_64(data)
}

/// The bytes a length-prefixed string feeds into a fingerprint.
pub open spec fn str_feed(s: Seq<char>) -> Seq<u8> {
    le_bytes(8, vstd::utf8::encode_utf8(s).len() as int) + vstd::utf8::encode_utf8(s)
}

/// Accumulates the bytes of a type description and digests them with xxh3.
pub struct TypeHasher {
    buf: Vec<u8>,
}

impl TypeHasher {
    /// The bytes fed so far.
    pub closed spec fn fed(&self) -> Seq<u8> {
        self.buf@
    }

    pub fn new() -> (r: Self)
        ensures
            r.fed() == Seq::<u8>::empty(),
    {
        TypeHasher { buf: Vec::new() }
    }

    pub fn write_bytes(&mut self, data: &[u8])
        ensures
            final(self).fed() == old(self).fed() + data@,
    {
        let ghost base = self.buf@;
        let mut i: usize = 0;
        while i < data.len()
            invariant
                i <= data@.len(),
                self.buf@ == base + data@.take(i as int),
            decreases data@.len() - i,
        {
            proof {
                assert((base + data@.take(i as int)).push(data@[i as int]) =~= base
                    + data@.take(i + 1));
            }
            self.buf.push(data[i]);
            i = i + 1;
        }
        proof {
            assert(data@.take(data@.len() as int) =~= data@);
        }
    }

    pub fn write_u64(&mut self, x: u64)
        ensures
            final(self).fed() == old(self).fed() + le_bytes(8, x as int),
    {
        proof {
            lemma_pow256_64();
        }
        let v = u64_to_le(x, 8);
        self.write_bytes(v.as_slice());
    }

    /// Feed a length-prefixed string.
    pub fn write_str(&mut self, s: &str)
        ensures
            final(self).fed() == old(self).fed() + str_feed(s@),
    {
        let ghost base = self.fed();
        let b = s.as_bytes();
        let n = b.len();
        self.write_u64(n as u64);
        self.write_bytes(b);
        proof {
            crate::bytes::lemma_le_bytes_len(8, n as int);
            assert(base + le_bytes(8, n as int) + s.spec_bytes() =~= base + str_feed(s@));
        }
    }

    pub fn finish(&self) -> (r: u64)
        ensures
            r == xxh3_64_of(self.fed()),
    {
        xxh3_64(self.buf.as_slice())
    }
}

} // verus!
