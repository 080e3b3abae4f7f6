//! Little-endian byte images of the integers, with the facts the
//! (de)serializers need: the image determines the value and vice versa.

use vstd::prelude::*;

verus! {

/// 256 to the `n`.
pub open spec fn pow256(n: nat) -> int
    decreases n,
{
    if n == 0 {
        1
    } else {
        256 * pow256((n - 1) as nat)
    }
}

/// The `n`-byte little-endian image of `x`.
pub open spec fn le_bytes(n: nat, x: int) -> Seq<u8>
    recommends
        0 <= x < pow256(n),
    decreases n,
{
    if n == 0 {
        Seq::empty()
    } else {
        seq![(x % 256) as u8] + le_bytes((n - 1) as nat, x / 256)
    }
}

/// The value a little-endian byte sequence stands for.
pub open spec fn le_val(s: Seq<u8>) -> int
    decreases s.len(),
{
    if s.len() == 0 {
        0
    } else {
        s[0] + 256 * le_val(s.drop_first())
    }
}

pub proof fn lemma_pow256_pos(n: nat)
    ensures
        pow256(n) >= 1,
    decreases n,
{
    if n > 0 {
        lemma_pow256_pos((n - 1) as nat);
    }
}

pub proof fn lemma_pow256_mono(m: nat, n: nat)
    requires
        m <= n,
    ensures
        pow256(m) <= pow256(n),
    decreases n,
{
    if m < n {
        lemma_pow256_mono(m, (n - 1) as nat);
        lemma_pow256_pos((n - 1) as nat);
    }
}

pub proof fn lemma_pow256_64()
    ensures
        pow256(8) == 0x1_0000_0000_0000_0000,
        pow256(4) == 0x1_0000_0000,
        pow256(2) == 0x1_0000,
        pow256(1) == 0x100,
{
    reveal_with_fuel(pow256, 9);
}

pub proof fn lemma_le_bytes_len(n: nat, x: int)
    ensures
        le_bytes(n, x).len() == n,
    decreases n,
{
    if n > 0 {
        lemma_le_bytes_len((n - 1) as nat, x / 256);
    }
}

/// Reading the image of `x` back gives `x`.
pub proof fn lemma_le_bytes_val(n: nat, x: int)
    requires
        0 <= x < pow256(n),
    ensures
        le_val(le_bytes(n, x)) == x,
    decreases n,
{
    if n > 0 {
        assert(0 <= x / 256 < pow256((n - 1) as nat)) by {
            assert(pow256(n) == 256 * pow256((n - 1) as nat));
        }
        lemma_le_bytes_val((n - 1) as nat, x / 256);
        lemma_le_bytes_len((n - 1) as nat, x / 256);
        let s = le_bytes(n, x);
        assert(s.drop_first() =~= le_bytes((n - 1) as nat, x / 256));
        assert(s[0] == x % 256);
        assert(x == 256 * (x / 256) + x % 256) by {
            vstd::arithmetic::div_mod::lemma_fundamental_div_mod(x, 256);
        }
    }
}

/// A byte sequence is the image of the value it stands for: the image is
/// unique.
pub proof fn lemma_le_val_bytes(s: Seq<u8>)
    ensures
        0 <= le_val(s) < pow256(s.len()),
        le_bytes(s.len(), le_val(s)) == s,
    decreases s.len(),
{
    if s.len() == 0 {
        assert(le_bytes(0, 0) =~= s);
    } else {
        lemma_le_val_bytes(s.drop_first());
        let v = le_val(s);
        let rest = le_val(s.drop_first());
        assert(v == s[0] + 256 * rest);
        assert(0 <= v);
        assert(v < pow256(s.len())) by {
            assert(pow256(s.len()) == 256 * pow256((s.len() - 1) as nat));
            assert(rest <= pow256((s.len() - 1) as nat) - 1);
            assert(s[0] < 256);
        }
        assert(v % 256 == s[0] && v / 256 == rest) by {
            vstd::arithmetic::div_mod::lemma_fundamental_div_mod_converse(
                v,
                256,
                rest,
                s[0] as int,
            );
        }
        assert(le_bytes(s.len(), v) =~= s);
    }
}

/// Build the `n`-byte little-endian image of `x`.
pub fn u64_to_le(x: u64, n: usize) -> (r: Vec<u8>)
    requires
        n <= 8,
        (x as int) < pow256(n as nat),
    ensures
        r@ == le_bytes(n as nat, x as int),
        r@.len() == n,
{
    proof {
        lemma_le_bytes_len(n as nat, x as int);
    }
    let mut r: Vec<u8> = Vec::new();
    let mut cur: u64 = x;
    let mut i: usize = 0;
    while i < n
        invariant
            i <= n,
            n <= 8,
            r@.len() == i,
            (cur as int) < pow256((n - i) as nat),
            r@ + le_bytes((n - i) as nat, cur as int) == le_bytes(n as nat, x as int),
        decreases n - i,
    {
        let b: u8 = (cur % 256) as u8;
        proof {
            assert(le_bytes((n - i) as nat, cur as int) == seq![b]
                + le_bytes((n - i - 1) as nat, (cur as int) / 256));
            assert((cur as int) / 256 < pow256((n - i - 1) as nat)) by {
                assert(pow256((n - i) as nat) == 256 * pow256((n - i - 1) as nat));
            }
            assert(r@.push(b) + le_bytes((n - i - 1) as nat, (cur as int) / 256) =~= r@
                + le_bytes((n - i) as nat, cur as int));
        }
        r.push(b);
        cur = cur / 256;
        i = i + 1;
    }
    proof {
        assert(le_bytes(0, cur as int) =~= Seq::<u8>::empty());
        assert(r@ =~= r@ + le_bytes(0, cur as int));
    }
    r
}

/// Read the value an `n`-byte little-endian image stands for.
pub fn le_to_u64(b: &[u8]) -> (r: u64)
    requires
        b@.len() <= 8,
    ensures
        r as int == le_val(b@),
{
    proof {
        lemma_le_val_bytes(b@);
        lemma_pow256_64();
    }
    let n = b.len();
    let mut cur: u64 = 0;
    let mut j: usize = n;
    while j > 0
        invariant
            j <= n,
            n <= 8,
            n == b@.len(),
            cur as int == le_val(b@.subrange(j as int, n as int)),
            (cur as int) < pow256((n - j) as nat),
        decreases j,
    {
        let byte = b[j - 1];
        proof {
            lemma_pow256_64();
            let tail = b@.subrange(j as int, n as int);
            let whole = b@.subrange(j - 1, n as int);
            assert(whole.drop_first() =~= tail);
            assert(whole[0] == b@[j - 1]);
            assert(le_val(whole) == b@[j - 1] + 256 * le_val(tail));
            assert(pow256((n - j + 1) as nat) == 256 * pow256((n - j) as nat));
            lemma_pow256_mono((n - j + 1) as nat, 8);
            assert(256 * (cur as int) + byte < pow256((n - j + 1) as nat));
        }
        cur = cur * 256 + (byte as u64);
        j = j - 1;
    }
    proof {
        assert(b@.subrange(0, n as int) =~= b@);
    }
    cur
}

} // verus!
