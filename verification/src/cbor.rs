//! The CBOR primitives the wire format is built from: item headers, byte and
//! text strings, and a generic skip over unrecognised items — each with a
//! specification-level reader, an executable mirror, and a proof that
//! decoding inverts encoding.

use vstd::prelude::*;

use crate::atoms::Atom;
use crate::atoms::atom_seq;
use crate::atoms::atom_vec;
use crate::atoms::lemma_atom_len;
use crate::util::bytes_eq;
use crate::util::push_all;
use crate::util::u64_be_seq;
use crate::util::u64_from_be_seq;
use crate::util::u64_to_be_vec;

verus! {

/// CBOR major types used by the wire format.
pub const MAJOR_BYTES: u8 = 2;

pub const MAJOR_TEXT: u8 = 3;

pub const MAJOR_ARRAY: u8 = 4;

pub const MAJOR_MAP: u8 = 5;

/// Minimal-length CBOR item header: the major type in the top three bits and
/// the argument in the low five bits or in a big-endian suffix.
#[verifier::opaque]
pub open spec fn hdr_seq(major: u8, n: u64) -> Seq<u8>
    recommends
        major < 8,
{
    if n < 24 {
        seq![(major << 5) | (n as u8)]
    } else if n < 256 {
        seq![(major << 5) | 24, (n & 0xff) as u8]
    } else if n < 65536 {
        seq![(major << 5) | 25, ((n >> 8) & 0xff) as u8, (n & 0xff) as u8]
    } else if n < 0x1_0000_0000 {
        seq![
            (major << 5) | 26,
            ((n >> 24) & 0xff) as u8,
            ((n >> 16) & 0xff) as u8,
            ((n >> 8) & 0xff) as u8,
            (n & 0xff) as u8,
        ]
    } else {
        seq![(major << 5) | 27] + u64_be_seq(n)
    }
}

/// Reads one item header at `i`: the major type, the argument, and the
/// position just past the header. Indefinite lengths and the reserved
/// additional-information values are refused; non-minimal arguments are
/// accepted.
#[verifier::opaque]
pub open spec fn dec_hdr(s: Seq<u8>, i: int) -> Option<(u8, u64, int)> {
    if 0 <= i < s.len() {
        let major = s[i] >> 5;
        let ai = s[i] & 0x1f;
        if ai < 24 {
            Some((major, ai as u64, i + 1))
        } else if ai == 24 {
            if i + 2 <= s.len() {
                Some((major, s[i + 1] as u64, i + 2))
            } else {
                None
            }
        } else if ai == 25 {
            if i + 3 <= s.len() {
                Some((major, ((s[i + 1] as u64) << 8) | (s[i + 2] as u64), i + 3))
            } else {
                None
            }
        } else if ai == 26 {
            if i + 5 <= s.len() {
                Some(
                    (
                        major,
                        ((s[i + 1] as u64) << 24) | ((s[i + 2] as u64) << 16) | ((s[i
                            + 3] as u64) << 8) | (s[i + 4] as u64),
                        i + 5,
                    ),
                )
            } else {
                None
            }
        } else if ai == 27 {
            if i + 9 <= s.len() {
                Some((major, u64_from_be_seq(s.subrange(i + 1, i + 9)), i + 9))
            } else {
                None
            }
        } else {
            None
        }
    } else {
        None
    }
}

/// Decoding the minimal header written at `i` yields its major type and
/// argument back.
pub proof fn lemma_hdr_rt(s: Seq<u8>, i: int, major: u8, n: u64)
    requires
        major < 8,
        0 <= i,
        i + hdr_seq(major, n).len() <= s.len(),
        s.subrange(i, i + hdr_seq(major, n).len() as int) == hdr_seq(major, n),
    ensures
        dec_hdr(s, i) == Some((major, n, i + hdr_seq(major, n).len() as int)),
{
    reveal(hdr_seq);
    reveal(dec_hdr);
    let h = hdr_seq(major, n);
    assert forall|k: int| 0 <= k < h.len() implies s[i + k] == h[k] by {
        assert(s.subrange(i, i + h.len() as int)[k] == s[i + k]);
    }
    assert(s[i + 0] == h[0]);
    assert(s[i] == h[0]);
    if n < 24 {
        let b = (major << 5) | (n as u8);
        assert(s[i] == b);
        assert(major < 8 && n < 24 ==> ((((major << 5) | (n as u8)) >> 5) == major && ((((major
            << 5) | (n as u8)) & 0x1f) as u64) == n && (((major << 5) | (n as u8)) & 0x1f) < 24))
            by (bit_vector);
    } else if n < 256 {
        let b = (major << 5) | 24;
        assert(s[i] == b && s[i + 1] == (n & 0xff) as u8);
        assert(major < 8 ==> ((((major << 5) | 24) >> 5) == major && (((major << 5) | 24) & 0x1f)
            == 24)) by (bit_vector);
        assert(n < 256 ==> (((n & 0xff) as u8) as u64) == n) by (bit_vector);
    } else if n < 65536 {
        let b = (major << 5) | 25;
        assert(s[i] == b && s[i + 1] == ((n >> 8) & 0xff) as u8 && s[i + 2] == (n & 0xff) as u8);
        assert(major < 8 ==> ((((major << 5) | 25) >> 5) == major && (((major << 5) | 25) & 0x1f)
            == 25)) by (bit_vector);
        assert(n < 65536 ==> ((((n >> 8) & 0xff) as u8 as u64) << 8) | ((n & 0xff) as u8 as u64)
            == n) by (bit_vector);
    } else if n < 0x1_0000_0000 {
        let b = (major << 5) | 26;
        assert(s[i] == b && s[i + 1] == ((n >> 24) & 0xff) as u8 && s[i + 2] == ((n >> 16)
            & 0xff) as u8 && s[i + 3] == ((n >> 8) & 0xff) as u8 && s[i + 4] == (n & 0xff) as u8);
        assert(major < 8 ==> ((((major << 5) | 26) >> 5) == major && (((major << 5) | 26) & 0x1f)
            == 26)) by (bit_vector);
        assert(n < 0x1_0000_0000 ==> ((((n >> 24) & 0xff) as u8 as u64) << 24) | ((((n >> 16)
            & 0xff) as u8 as u64) << 16) | ((((n >> 8) & 0xff) as u8 as u64) << 8) | ((n
            & 0xff) as u8 as u64) == n) by (bit_vector);
    } else {
        let b = (major << 5) | 27;
        assert(h == seq![b] + u64_be_seq(n));
        assert(h[0] == b);
        assert(s[i] == b);
        assert(major < 8 ==> ((((major << 5) | 27) >> 5) == major && (((major << 5) | 27) & 0x1f)
            == 27)) by (bit_vector);
        assert(s.subrange(i + 1, i + 9) =~= u64_be_seq(n)) by {
            assert forall|k: int| 0 <= k < 8 implies s.subrange(i + 1, i + 9)[k] == u64_be_seq(n)[k]
                by {
                assert(h[1 + k] == u64_be_seq(n)[k]);
                assert(s[i + (1 + k)] == h[1 + k]);
            }
        }
        crate::util::lemma_u64_be_round_trip(n);
    }
}

/// Writes the minimal header for `major` with argument `n`.
pub fn write_hdr(out: &mut Vec<u8>, major: u8, n: u64)
    requires
        major < 8,
    ensures
        final(out)@ == old(out)@ + hdr_seq(major, n),
{
    proof {
        reveal(hdr_seq);
    }
    if n < 24 {
        out.push((major << 5) | (n as u8));
        proof {
            assert(out@ =~= old(out)@ + hdr_seq(major, n));
        }
    } else if n < 256 {
        out.push((major << 5) | 24);
        out.push((n & 0xff) as u8);
        proof {
            assert(out@ =~= old(out)@ + hdr_seq(major, n));
        }
    } else if n < 65536 {
        out.push((major << 5) | 25);
        out.push(((n >> 8) & 0xff) as u8);
        out.push((n & 0xff) as u8);
        proof {
            assert(out@ =~= old(out)@ + hdr_seq(major, n));
        }
    } else if n < 0x1_0000_0000 {
        out.push((major << 5) | 26);
        out.push(((n >> 24) & 0xff) as u8);
        out.push(((n >> 16) & 0xff) as u8);
        out.push(((n >> 8) & 0xff) as u8);
        out.push((n & 0xff) as u8);
        proof {
            assert(out@ =~= old(out)@ + hdr_seq(major, n));
        }
    } else {
        out.push((major << 5) | 27);
        let be = u64_to_be_vec(n);
        push_all(out, be.as_slice());
        proof {
            assert(out@ =~= old(out)@ + hdr_seq(major, n));
        }
    }
}

/// Reads one item header; mirrors `dec_hdr`.
pub fn read_hdr(s: &[u8], pos: usize) -> (r: Option<(u8, u64, usize)>)
    ensures
        match r {
            Some(t) => dec_hdr(s@, pos as int) == Some((t.0, t.1, t.2 as int)) && pos < t.2
                <= s@.len(),
            None => dec_hdr(s@, pos as int) is None,
        },
{
    proof {
        reveal(dec_hdr);
    }
    if pos >= s.len() {
        return None;
    }
    let rem = s.len() - pos;
    let b = s[pos];
    let major = b >> 5;
    let ai = b & 0x1f;
    if ai < 24 {
        Some((major, ai as u64, pos + 1))
    } else if ai == 24 {
        if rem >= 2 {
            Some((major, s[pos + 1] as u64, pos + 2))
        } else {
            None
        }
    } else if ai == 25 {
        if rem >= 3 {
            Some((major, ((s[pos + 1] as u64) << 8) | (s[pos + 2] as u64), pos + 3))
        } else {
            None
        }
    } else if ai == 26 {
        if rem >= 5 {
            Some(
                (
                    major,
                    ((s[pos + 1] as u64) << 24) | ((s[pos + 2] as u64) << 16) | ((s[pos
                        + 3] as u64) << 8) | (s[pos + 4] as u64),
                    pos + 5,
                ),
            )
        } else {
            None
        }
    } else if ai == 27 {
        if rem >= 9 {
            let n = ((s[pos + 1] as u64) << 56) | ((s[pos + 2] as u64) << 48) | ((s[pos
                + 3] as u64) << 40) | ((s[pos + 4] as u64) << 32) | ((s[pos + 5] as u64) << 24) | ((
            s[pos + 6] as u64) << 16) | ((s[pos + 7] as u64) << 8) | (s[pos + 8] as u64);
            proof {
                let sub = s@.subrange(pos + 1, pos + 9);
                assert(sub[0] == s@[pos + 1] && sub[1] == s@[pos + 2] && sub[2] == s@[pos + 3]
                    && sub[3] == s@[pos + 4] && sub[4] == s@[pos + 5] && sub[5] == s@[pos + 6]
                    && sub[6] == s@[pos + 7] && sub[7] == s@[pos + 8]);
            }
            Some((major, n, pos + 9))
        } else {
            None
        }
    } else {
        None
    }
}

/// A byte or text string item: header plus raw contents.
pub open spec fn enc_str_seq(major: u8, b: Seq<u8>) -> Seq<u8>
    recommends
        major == MAJOR_BYTES || major == MAJOR_TEXT,
{
    hdr_seq(major, b.len() as u64) + b
}

/// Reads a byte or text string item of major type `major` at `i`.
#[verifier::opaque]
pub open spec fn dec_str(s: Seq<u8>, i: int, major: u8) -> Option<(Seq<u8>, int)> {
    match dec_hdr(s, i) {
        Some((m, n, j)) => if m == major && j + n <= s.len() {
            Some((s.subrange(j, j + n as int), j + n as int))
        } else {
            None
        },
        None => None,
    }
}

/// Decoding the string item written at `i` yields its contents back.
pub proof fn lemma_str_rt(s: Seq<u8>, i: int, major: u8, b: Seq<u8>)
    requires
        major == MAJOR_BYTES || major == MAJOR_TEXT,
        0 <= i,
        b.len() <= u64::MAX,
        i + enc_str_seq(major, b).len() <= s.len(),
        s.subrange(i, i + enc_str_seq(major, b).len() as int) == enc_str_seq(major, b),
    ensures
        dec_str(s, i, major) == Some((b, i + enc_str_seq(major, b).len() as int)),
{
    reveal(dec_str);
    let h = hdr_seq(major, b.len() as u64);
    let e = enc_str_seq(major, b);
    assert(e == h + b);
    assert(s.subrange(i, i + h.len() as int) =~= h) by {
        assert forall|k: int| 0 <= k < h.len() implies s.subrange(i, i + h.len() as int)[k] == h[k]
            by {
            assert(s.subrange(i, i + e.len() as int)[k] == s[i + k]);
            assert(e[k] == h[k]);
        }
    }
    lemma_hdr_rt(s, i, major, b.len() as u64);
    let j = i + h.len() as int;
    assert(s.subrange(j, j + b.len() as int) =~= b) by {
        assert forall|k: int| 0 <= k < b.len() implies s.subrange(j, j + b.len() as int)[k] == b[k]
            by {
            assert(s.subrange(i, i + e.len() as int)[h.len() + k] == s[j + k]);
            assert(e[h.len() + k] == b[k]);
        }
    }
}

/// Writes a byte or text string item.
pub fn write_str(out: &mut Vec<u8>, major: u8, b: &[u8])
    requires
        major == MAJOR_BYTES || major == MAJOR_TEXT,
    ensures
        final(out)@ == old(out)@ + enc_str_seq(major, b@),
{
    write_hdr(out, major, b.len() as u64);
    push_all(out, b);
    proof {
        assert(out@ =~= old(out)@ + enc_str_seq(major, b@));
    }
}

/// Copies `s[from..to]` into a fresh vector.
pub fn copy_range(s: &[u8], from: usize, to: usize) -> (r: Vec<u8>)
    requires
        from <= to <= s@.len(),
    ensures
        r@ == s@.subrange(from as int, to as int),
{
    let mut r: Vec<u8> = Vec::new();
    let mut i: usize = from;
    while i < to
        invariant
            from <= i <= to <= s@.len(),
            r@ == s@.subrange(from as int, i as int),
        decreases to - i,
    {
        r.push(s[i]);
        proof {
            assert(s@.subrange(from as int, i as int) + seq![s@[i as int]] =~= s@.subrange(
                from as int, i + 1 as int));
        }
        i += 1;
    }
    r
}

/// Reads a byte or text string item; mirrors `dec_str`.
pub fn read_str(s: &[u8], pos: usize, major: u8) -> (r: Option<(Vec<u8>, usize)>)
    ensures
        match r {
            Some(t) => dec_str(s@, pos as int, major) == Some((t.0@, t.1 as int)) && pos < t.1
                <= s@.len(),
            None => dec_str(s@, pos as int, major) is None,
        },
{
    proof {
        reveal(dec_str);
    }
    match read_hdr(s, pos) {
        Some((m, n, j)) => {
            if m != major {
                return None;
            }
            let remaining = s.len() - j;
            if n > remaining as u64 {
                return None;
            }
            let end = j + (n as usize);
            let v = copy_range(s, j, end);
            Some((v, end))
        },
        None => None,
    }
}

/// Reads a text item and accepts it only if it equals the given atom.
pub fn read_lit(s: &[u8], pos: usize, a: Atom) -> (r: Option<usize>)
    ensures
        match r {
            Some(next) => dec_lit(s@, pos as int, a) == Some(next as int) && pos < next <= s@.len(),
            None => dec_lit(s@, pos as int, a) is None,
        },
{
    proof {
        reveal(dec_lit);
    }
    match read_str(s, pos, MAJOR_TEXT) {
        Some((t, j)) => {
            let av = atom_vec(a);
            if bytes_eq(t.as_slice(), av.as_slice()) {
                Some(j)
            } else {
                None
            }
        },
        None => None,
    }
}

/// Reads a text item that must equal the atom `a`.
#[verifier::opaque]
pub open spec fn dec_lit(s: Seq<u8>, i: int, a: Atom) -> Option<int> {
    match dec_str(s, i, MAJOR_TEXT) {
        Some((t, j)) => if t == atom_seq(a) {
            Some(j)
        } else {
            None
        },
        None => None,
    }
}

/// The encoded text item of an atom.
pub open spec fn enc_lit_seq(a: Atom) -> Seq<u8> {
    enc_str_seq(MAJOR_TEXT, atom_seq(a))
}

/// Decoding the atom written at `i` yields it back.
pub proof fn lemma_lit_rt(s: Seq<u8>, i: int, a: Atom)
    requires
        0 <= i,
        i + enc_lit_seq(a).len() <= s.len(),
        s.subrange(i, i + enc_lit_seq(a).len() as int) == enc_lit_seq(a),
    ensures
        dec_lit(s, i, a) == Some(i + enc_lit_seq(a).len() as int),
{
    reveal(dec_lit);
    lemma_atom_len(a);
    lemma_str_rt(s, i, MAJOR_TEXT, atom_seq(a));
}

/// Writes the text item of an atom.
pub fn write_lit(out: &mut Vec<u8>, a: Atom)
    ensures
        final(out)@ == old(out)@ + enc_lit_seq(a),
{
    let av = atom_vec(a);
    write_str(out, MAJOR_TEXT, av.as_slice());
}

/// An item header is one to nine bytes.
pub proof fn lemma_hdr_len(major: u8, n: u64)
    ensures
        1 <= hdr_seq(major, n).len() <= 9,
{
    reveal(hdr_seq);
}

/// An encoded atom is at most twenty-five bytes: a header of at most nine
/// and a short string.
pub proof fn lemma_enc_lit_len(a: Atom)
    ensures
        enc_lit_seq(a).len() <= 25,
{
    lemma_atom_len(a);
    lemma_hdr_len(MAJOR_TEXT, atom_seq(a).len() as u64);
}

/// Splits knowledge of a concatenation embedded in `s` into knowledge of its
/// two halves.
pub proof fn lemma_prefix_split(s: Seq<u8>, i: int, a: Seq<u8>, b: Seq<u8>)
    requires
        0 <= i,
        i + a.len() + b.len() <= s.len(),
        s.subrange(i, i + a.len() + b.len()) == a + b,
    ensures
        s.subrange(i, i + a.len() as int) == a,
        s.subrange(i + a.len() as int, i + a.len() + b.len()) == b,
{
    let w = s.subrange(i, i + a.len() + b.len());
    assert(s.subrange(i, i + a.len() as int) =~= a) by {
        assert forall|k: int| 0 <= k < a.len() implies s.subrange(i, i + a.len() as int)[k] == a[k]
            by {
            assert(w[k] == s[i + k]);
            assert((a + b)[k] == a[k]);
        }
    }
    assert(s.subrange(i + a.len() as int, i + a.len() + b.len()) =~= b) by {
        assert forall|k: int| 0 <= k < b.len() implies s.subrange(
            i + a.len() as int,
            i + a.len() + b.len(),
        )[k] == b[k] by {
            assert(w[a.len() + k] == s[i + a.len() + k]);
            assert((a + b)[a.len() + k] == b[k]);
        }
    }
}


/// Skips one item of any definite-length shape: an integer, a string, an
/// array, a map, a tagged item, or a simple value. Used to pass over the
/// fields of unrecognised variants.
pub open spec fn skip_item(s: Seq<u8>, i: int) -> Option<int>
    decreases s.len() - i, 1int, 0int,
{
    match dec_hdr(s, i) {
        Some((m, n, j)) => if !(i < j <= s.len()) {
            None
        } else if m == 0 || m == 1 || m == 7 {
            Some(j)
        } else if m == MAJOR_BYTES || m == MAJOR_TEXT {
            if j + n <= s.len() {
                Some(j + n as int)
            } else {
                None
            }
        } else if m == MAJOR_ARRAY {
            skip_n(s, j, n as int)
        } else if m == MAJOR_MAP {
            skip_n(s, j, 2 * (n as int))
        } else if m == 6 {
            skip_item(s, j)
        } else {
            None
        },
        None => None,
    }
}

/// Skips `cnt` consecutive items starting at `i`.
pub open spec fn skip_n(s: Seq<u8>, i: int, cnt: int) -> Option<int>
    decreases s.len() - i, 2int, cnt,
{
    if cnt <= 0 {
        if 0 <= i <= s.len() {
            Some(i)
        } else {
            None
        }
    } else {
        match skip_item(s, i) {
            Some(j) => if i < j <= s.len() {
                skip_n(s, j, cnt - 1)
            } else {
                None
            },
            None => None,
        }
    }
}

/// Skipping an item never stands still and never passes the end.
pub proof fn lemma_skip_item_bounds(s: Seq<u8>, i: int)
    ensures
        skip_item(s, i) is Some ==> i < skip_item(s, i)->Some_0 <= s.len(),
    decreases s.len() - i, 1int, 0int,
{
    match dec_hdr(s, i) {
        Some((m, n, j)) => {
            if i < j <= s.len() {
                if m == MAJOR_ARRAY {
                    lemma_skip_n_bounds(s, j, n as int);
                } else if m == MAJOR_MAP {
                    lemma_skip_n_bounds(s, j, 2 * (n as int));
                } else if m == 6 {
                    lemma_skip_item_bounds(s, j);
                }
            }
        },
        None => {},
    }
}

/// Skipping a run of items never goes back and never passes the end.
pub proof fn lemma_skip_n_bounds(s: Seq<u8>, i: int, cnt: int)
    ensures
        skip_n(s, i, cnt) is Some ==> i <= skip_n(s, i, cnt)->Some_0 <= s.len(),
    decreases s.len() - i, 2int, cnt,
{
    if cnt <= 0 {
    } else {
        match skip_item(s, i) {
            Some(j) => {
                if i < j <= s.len() {
                    lemma_skip_n_bounds(s, j, cnt - 1);
                }
            },
            None => {},
        }
    }
}

/// A run of more items than there are remaining bytes cannot be skipped:
/// every item takes at least one byte.
pub proof fn lemma_skip_n_too_many(s: Seq<u8>, i: int, cnt: int)
    requires
        cnt > s.len() - i,
    ensures
        skip_n(s, i, cnt) is None,
    decreases s.len() - i, 2int, cnt,
{
    if cnt <= 0 {
    } else {
        match skip_item(s, i) {
            Some(j) => {
                if i < j <= s.len() {
                    lemma_skip_n_too_many(s, j, cnt - 1);
                }
            },
            None => {},
        }
    }
}

/// Skips one item; mirrors `skip_item`.
pub fn skip_item_x(s: &[u8], pos: usize) -> (r: Option<usize>)
    ensures
        match r {
            Some(p) => skip_item(s@, pos as int) == Some(p as int) && pos < p <= s@.len(),
            None => skip_item(s@, pos as int) is None,
        },
    decreases s@.len() - pos, 1int, 0int,
{
    proof {
        lemma_skip_item_bounds(s@, pos as int);
    }
    match read_hdr(s, pos) {
        Some((m, n, j)) => {
            if m == 0 || m == 1 || m == 7 {
                Some(j)
            } else if m == MAJOR_BYTES || m == MAJOR_TEXT {
                let rem = s.len() - j;
                if n <= rem as u64 {
                    Some(j + n as usize)
                } else {
                    None
                }
            } else if m == MAJOR_ARRAY {
                skip_n_x(s, j, n)
            } else if m == MAJOR_MAP {
                let rem = s.len() - j;
                if n > (rem as u64) / 2 {
                    proof {
                        assert(2 * (n as int) > rem as int);
                        lemma_skip_n_too_many(s@, j as int, 2 * (n as int));
                    }
                    None
                } else {
                    proof {
                        assert(2 * (n as int) <= rem as int);
                    }
                    skip_n_x(s, j, 2 * n)
                }
            } else if m == 6 {
                skip_item_x(s, j)
            } else {
                None
            }
        },
        None => None,
    }
}

/// Skips `cnt` consecutive items; mirrors `skip_n`.
pub fn skip_n_x(s: &[u8], pos: usize, cnt: u64) -> (r: Option<usize>)
    ensures
        match r {
            Some(p) => skip_n(s@, pos as int, cnt as int) == Some(p as int) && pos <= p <= s@.len(),
            None => skip_n(s@, pos as int, cnt as int) is None,
        },
    decreases s@.len() - pos, 2int, cnt,
{
    if cnt == 0 {
        if pos <= s.len() {
            Some(pos)
        } else {
            None
        }
    } else {
        match skip_item_x(s, pos) {
            Some(j) => skip_n_x(s, j, cnt - 1),
            None => None,
        }
    }
}

} // verus!
