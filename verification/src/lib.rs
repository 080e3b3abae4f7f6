//! ε-copy binary serialization.
//!
//! Values are written to a byte stream that mirrors their in-memory layout:
//! a fixed header (magic cookie, format version, pointer width, two 64-bit
//! type fingerprints and the type name) followed by the value itself, every
//! field preceded by the padding that brings its offset to a multiple of its
//! alignment. Deserialization comes in two flavours: full-copy, which
//! rebuilds an owned value, and ε-copy, which rebuilds only the deep spine
//! of the value and exposes zero-copy leaves as borrowed windows onto the
//! input bytes.

use vstd::prelude::*;

pub mod bytes;
pub mod des;
pub mod impls;
pub mod props;
pub mod hash;
pub mod ser;
pub mod traits;

verus! {

/// First eight bytes of every stream, stored least-significant byte first.
pub const MAGIC: u64 = 0x2065647265737065;

/// The magic cookie with its bytes reversed: seeing it first in a stream
/// means the stream was written on a machine of the opposite byte order.
pub const MAGIC_REV: u64 = 0x6570736572646520;

/// Major format version; a stream with a different major version is rejected.
pub const VERSION_MAJOR: u16 = 1;

/// Minor format version; a stream with a newer minor version is rejected.
pub const VERSION_MINOR: u16 = 0;

/// Width in bytes of a serialized `usize`.
pub const USIZE_BYTES: u8 = 8;

/// Strongest alignment any zero-copy leaf may require; the base of a byte
/// slice handed to ε-copy deserialization must be a multiple of it.
pub const MAX_ALIGN: usize = 16;

/// The alignments that can occur in a stream.
pub open spec fn valid_align(a: int) -> bool {
    a == 1 || a == 2 || a == 4 || a == 8 || a == 16
}

/// Number of padding bytes needed to move offset `pos` up to a multiple of
/// `align`.
pub open spec fn pad_len(pos: int, align: int) -> int
    recommends
        align > 0,
{
    (align - pos % align) % align
}

/// A run of `n` zero bytes, the padding the writer emits.
pub open spec fn zeros(n: int) -> Seq<u8> {
    Seq::new(n as nat, |i: int| 0u8)
}

/// Padding is shorter than the alignment and lands exactly on a multiple of
/// it.
pub proof fn lemma_pad_len_bounds(pos: int, align: int)
    requires
        pos >= 0,
        align > 0,
    ensures
        0 <= pad_len(pos, align) < align,
        (pos + pad_len(pos, align)) % align == 0,
{
    let r = pos % align;
    assert(0 <= r < align);
    if r == 0 {
        vstd::arithmetic::div_mod::lemma_small_mod(0, align as nat);
        assert(pad_len(pos, align) == 0);
        assert((pos + 0) % align == 0);
    } else {
        vstd::arithmetic::div_mod::lemma_small_mod((align - r) as nat, align as nat);
        assert((align - r) % align == align - r);
        assert(pad_len(pos, align) == align - r);
        assert((pos + (align - r)) % align == 0) by {
            vstd::arithmetic::div_mod::lemma_add_mod_noop(pos, align - r, align);
            assert((r + (align - r)) % align == align % align);
            vstd::arithmetic::div_mod::lemma_mod_self_0(align);
        }
    }
}

/// Once an offset is aligned, advancing it by a multiple of the alignment
/// keeps it aligned, so no further padding is needed.
pub proof fn lemma_aligned_step(pos: int, align: int, size: int)
    requires
        pos >= 0,
        align > 0,
        size >= 0,
        pos % align == 0,
        size % align == 0,
    ensures
        (pos + size) % align == 0,
        pad_len(pos + size, align) == 0,
{
    vstd::arithmetic::div_mod::lemma_add_mod_noop(pos, size, align);
    vstd::arithmetic::div_mod::lemma_mod_self_0(align);
    vstd::arithmetic::div_mod::lemma_small_mod(0, align as nat);
}

/// Number of zero bytes to emit so that the next write after position `pos`
/// starts at a multiple of `align`.
pub fn pad_align_to(pos: usize, align: usize) -> (r: usize)
    requires
        align > 0,
    ensures
        r == pad_len(pos as int, align as int),
        r < align,
{
    proof {
        lemma_pad_len_bounds(pos as int, align as int);
    }
    let rem = pos % align;
    if rem == 0 {
        proof {
            vstd::arithmetic::div_mod::lemma_mod_self_0(align as int);
        }
        0
    } else {
        proof {
            vstd::arithmetic::div_mod::lemma_small_mod((align - rem) as nat, align as nat);
            assert((align - rem) % (align as int) == align - rem);
        }
        align - rem
    }
}

} // verus!
