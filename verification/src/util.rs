//! Small byte-string helpers: comparison, copying, and big-endian integer
//! images.

use vstd::prelude::*;

verus! {

/// Equality of two byte strings, usable from exec code with an exact meaning
/// in terms of the views.
pub fn bytes_eq(a: &[u8], b: &[u8]) -> (r: bool)
    ensures
        r <==> a@ == b@,
{
    if a.len() != b.len() {
        assert(a@.len() != b@.len());
        return false;
    }
    let mut i: usize = 0;
    while i < a.len()
        invariant
            0 <= i <= a.len(),
            a.len() == b.len(),
            forall|j: int| 0 <= j < i ==> a@[j] == b@[j],
        decreases a.len() - i,
    {
        if a[i] != b[i] {
            return false;
        }
        i += 1;
    }
    proof {
        assert(a@ =~= b@);
    }
    true
}

/// The big-endian eight-byte image of a 64-bit integer.
pub open spec fn u64_be_seq(n: u64) -> Seq<u8> {
    seq![
        ((n >> 56) & 0xff) as u8,
        ((n >> 48) & 0xff) as u8,
        ((n >> 40) & 0xff) as u8,
        ((n >> 32) & 0xff) as u8,
        ((n >> 24) & 0xff) as u8,
        ((n >> 16) & 0xff) as u8,
        ((n >> 8) & 0xff) as u8,
        (n & 0xff) as u8,
    ]
}

/// The 64-bit integer read back from eight big-endian bytes.
pub open spec fn u64_from_be_seq(s: Seq<u8>) -> u64
    recommends
        s.len() == 8,
{
    ((s[0] as u64) << 56) | ((s[1] as u64) << 48) | ((s[2] as u64) << 40) | ((s[3] as u64) << 32)
        | ((s[4] as u64) << 24) | ((s[5] as u64) << 16) | ((s[6] as u64) << 8) | (s[7] as u64)
}

/// Reading the big-endian image of an integer yields the integer back.
pub proof fn lemma_u64_be_round_trip(n: u64)
    ensures
        u64_from_be_seq(u64_be_seq(n)) == n,
{
    let s = u64_be_seq(n);
    assert(((((n >> 56) & 0xff) as u8) as u64) << 56 | ((((n >> 48) & 0xff) as u8) as u64) << 48
        | ((((n >> 40) & 0xff) as u8) as u64) << 40 | ((((n >> 32) & 0xff) as u8) as u64) << 32
        | ((((n >> 24) & 0xff) as u8) as u64) << 24 | ((((n >> 16) & 0xff) as u8) as u64) << 16
        | ((((n >> 8) & 0xff) as u8) as u64) << 8 | (((n & 0xff) as u8) as u64) == n)
        by (bit_vector);
}

/// Writes the eight big-endian bytes of `n`.
pub fn u64_to_be_vec(n: u64) -> (r: Vec<u8>)
    ensures
        r@ == u64_be_seq(n),
{
    let r: Vec<u8> = vec![
        ((n >> 56) & 0xff) as u8,
        ((n >> 48) & 0xff) as u8,
        ((n >> 40) & 0xff) as u8,
        ((n >> 32) & 0xff) as u8,
        ((n >> 24) & 0xff) as u8,
        ((n >> 16) & 0xff) as u8,
        ((n >> 8) & 0xff) as u8,
        (n & 0xff) as u8,
    ];
    proof {
        assert(r@ =~= u64_be_seq(n));
    }
    r
}

/// Reads eight big-endian bytes back into an integer.
pub fn u64_from_be_vec(v: &[u8]) -> (r: u64)
    requires
        v@.len() == 8,
    ensures
        r == u64_from_be_seq(v@),
{
    ((v[0] as u64) << 56) | ((v[1] as u64) << 48) | ((v[2] as u64) << 40) | ((v[3] as u64) << 32)
        | ((v[4] as u64) << 24) | ((v[5] as u64) << 16) | ((v[6] as u64) << 8) | (v[7] as u64)
}

/// The big-endian four-byte image of a 32-bit integer.
pub open spec fn u32_be_seq(n: u32) -> Seq<u8> {
    seq![
        ((n >> 24) & 0xff) as u8,
        ((n >> 16) & 0xff) as u8,
        ((n >> 8) & 0xff) as u8,
        (n & 0xff) as u8,
    ]
}

/// Writes the four big-endian bytes of `n`.
pub fn u32_to_be_vec(n: u32) -> (r: Vec<u8>)
    ensures
        r@ == u32_be_seq(n),
{
    let r: Vec<u8> = vec![
        ((n >> 24) & 0xff) as u8,
        ((n >> 16) & 0xff) as u8,
        ((n >> 8) & 0xff) as u8,
        (n & 0xff) as u8,
    ];
    proof {
        assert(r@ =~= u32_be_seq(n));
    }
    r
}

/// Appends a copy of `src` to `dst`.
pub fn push_all(dst: &mut Vec<u8>, src: &[u8])
    ensures
        final(dst)@ == old(dst)@ + src@,
{
    let mut i: usize = 0;
    while i < src.len()
        invariant
            0 <= i <= src.len(),
            dst@ == old(dst)@ + src@.subrange(0, i as int),
        decreases src.len() - i,
    {
        dst.push(src[i]);
        proof {
            assert(old(dst)@ + src@.subrange(0, i as int) + seq![src@[i as int]] =~= old(dst)@
                + src@.subrange(0, i + 1 as int));
        }
        i += 1;
    }
    proof {
        assert(src@.subrange(0, src@.len() as int) =~= src@);
    }
}

/// The concatenation of two byte strings as a fresh vector.
pub fn concat_bytes(a: &[u8], b: &[u8]) -> (r: Vec<u8>)
    ensures
        r@ == a@ + b@,
{
    let mut r: Vec<u8> = Vec::new();
    push_all(&mut r, a);
    push_all(&mut r, b);
    proof {
        assert(seq![] + a@ + b@ =~= a@ + b@);
    }
    r
}

} // verus!
