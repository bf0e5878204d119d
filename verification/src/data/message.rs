//! Chat messages: the sender profile, the ordered chain of message parts,
//! and their wire encoding.

use vstd::prelude::*;

use crate::atoms::Atom;
use crate::atoms::atom_seq;
use crate::atoms::atom_vec;
use crate::cbor::MAJOR_ARRAY;
use crate::cbor::MAJOR_BYTES;
use crate::cbor::MAJOR_MAP;
use crate::cbor::MAJOR_TEXT;
use crate::cbor::dec_hdr;
use crate::cbor::dec_lit;
use crate::cbor::dec_str;
use crate::cbor::enc_lit_seq;
use crate::cbor::enc_str_seq;
use crate::cbor::hdr_seq;
use crate::cbor::lemma_hdr_rt;
use crate::cbor::lemma_lit_rt;
use crate::cbor::lemma_prefix_split;
use crate::cbor::lemma_str_rt;
use crate::cbor::read_hdr;
use crate::cbor::read_lit;
use crate::cbor::read_str;
use crate::cbor::skip_n;
use crate::cbor::skip_n_x;
use crate::cbor::write_hdr;
use crate::cbor::write_lit;
use crate::cbor::write_str;
use crate::util::u64_from_be_seq;
use crate::util::u64_from_be_vec;
use crate::util::u32_be_seq;
use crate::util::u32_to_be_vec;

verus! {

/// Abstract value of a `Profile`.
pub struct ProfileV {
    pub id: Seq<u8>,
    pub username: Option<Seq<u8>>,
    pub nick: Option<Seq<u8>>,
}

/// The sender's identity as the producing platform knows it. `id` is an
/// opaque platform-scoped identifier; the optional display names are UTF-8
/// bytes.
#[derive(Debug, Clone, PartialEq, Eq)]
pub struct Profile {
    pub id: Vec<u8>,
    pub username: Option<Vec<u8>>,
    pub nick: Option<Vec<u8>>,
}

impl View for Profile {
    type V = ProfileV;

    open spec fn view(&self) -> ProfileV {
        ProfileV {
            id: self.id@,
            username: match self.username {
                Some(u) => Some(u@),
                None => None,
            },
            nick: match self.nick {
                Some(n) => Some(n@),
                None => None,
            },
        }
    }
}

impl ProfileV {
    /// Every byte field fits a CBOR length argument.
    pub open spec fn wf(self) -> bool {
        &&& self.id.len() <= u64::MAX
        &&& match self.username {
            Some(u) => u.len() <= u64::MAX,
            None => true,
        }
        &&& match self.nick {
            Some(n) => n.len() <= u64::MAX,
            None => true,
        }
    }
}

/// Number of entries of the profile map.
pub open spec fn profile_cnt(p: ProfileV) -> u64 {
    (1 + (if p.username is Some {
        1int
    } else {
        0int
    }) + (if p.nick is Some {
        1int
    } else {
        0int
    })) as u64
}

/// The profile map: `id` always, then `username` and `nick` when present.
pub open spec fn enc_profile(p: ProfileV) -> Seq<u8> {
    hdr_seq(MAJOR_MAP, profile_cnt(p)) + enc_lit_seq(Atom::KeyId) + enc_str_seq(MAJOR_BYTES, p.id)
        + (match p.username {
        Some(u) => enc_lit_seq(Atom::KeyUsername) + enc_str_seq(MAJOR_TEXT, u),
        None => Seq::<u8>::empty(),
    }) + (match p.nick {
        Some(n) => enc_lit_seq(Atom::KeyNick) + enc_str_seq(MAJOR_TEXT, n),
        None => Seq::<u8>::empty(),
    })
}

/// Reads a profile map at `i`.
pub open spec fn dec_profile(s: Seq<u8>, i: int) -> Option<(ProfileV, int)> {
    match dec_hdr(s, i) {
        Some((m, cnt, j0)) => if m == MAJOR_MAP && 1 <= cnt <= 3 {
            match dec_lit(s, j0, Atom::KeyId) {
                Some(j1) => match dec_str(s, j1, MAJOR_BYTES) {
                    Some((idv, j2)) => if cnt == 1 {
                        Some((ProfileV { id: idv, username: None, nick: None }, j2))
                    } else if cnt == 2 {
                        match dec_lit(s, j2, Atom::KeyUsername) {
                            Some(j3) => match dec_str(s, j3, MAJOR_TEXT) {
                                Some((u, j4)) => Some(
                                    (ProfileV { id: idv, username: Some(u), nick: None }, j4),
                                ),
                                None => None,
                            },
                            None => match dec_lit(s, j2, Atom::KeyNick) {
                                Some(j3) => match dec_str(s, j3, MAJOR_TEXT) {
                                    Some((n2, j4)) => Some(
                                        (ProfileV { id: idv, username: None, nick: Some(n2) }, j4),
                                    ),
                                    None => None,
                                },
                                None => None,
                            },
                        }
                    } else {
                        match dec_lit(s, j2, Atom::KeyUsername) {
                            Some(j3) => match dec_str(s, j3, MAJOR_TEXT) {
                                Some((u, j4)) => match dec_lit(s, j4, Atom::KeyNick) {
                                    Some(j5) => match dec_str(s, j5, MAJOR_TEXT) {
                                        Some((n2, j6)) => Some(
                                            (
                                                ProfileV {
                                                    id: idv,
                                                    username: Some(u),
                                                    nick: Some(n2),
                                                },
                                                j6,
                                            ),
                                        ),
                                        None => None,
                                    },
                                    None => None,
                                },
                                None => None,
                            },
                            None => None,
                        }
                    },
                    None => None,
                },
                None => None,
            }
        } else {
            None
        },
        None => None,
    }
}

/// Decoding the profile written at `i` yields it back.
#[verifier::rlimit(100)]
#[verifier::spinoff_prover]
pub proof fn lemma_profile_rt(s: Seq<u8>, i: int, p: ProfileV)
    requires
        p.wf(),
        0 <= i,
        i + enc_profile(p).len() <= s.len(),
        s.subrange(i, i + enc_profile(p).len() as int) == enc_profile(p),
    ensures
        dec_profile(s, i) == Some((p, i + enc_profile(p).len() as int)),
{
    let cnt = profile_cnt(p);
    let a1 = hdr_seq(MAJOR_MAP, cnt);
    let a2 = enc_lit_seq(Atom::KeyId);
    let a3 = enc_str_seq(MAJOR_BYTES, p.id);
    let a4 = match p.username {
        Some(u) => enc_lit_seq(Atom::KeyUsername) + enc_str_seq(MAJOR_TEXT, u),
        None => Seq::<u8>::empty(),
    };
    let a5 = match p.nick {
        Some(n) => enc_lit_seq(Atom::KeyNick) + enc_str_seq(MAJOR_TEXT, n),
        None => Seq::<u8>::empty(),
    };
    let e = enc_profile(p);
    let end = i + e.len() as int;
    assert(e =~= a1 + (a2 + (a3 + (a4 + a5))));
    lemma_prefix_split(s, i, a1, a2 + (a3 + (a4 + a5)));
    lemma_hdr_rt(s, i, MAJOR_MAP, cnt);
    let i1 = i + a1.len() as int;
    assert(dec_hdr(s, i) == Some((MAJOR_MAP, cnt, i1)));
    lemma_prefix_split(s, i1, a2, a3 + (a4 + a5));
    lemma_lit_rt(s, i1, Atom::KeyId);
    let i2 = i1 + a2.len() as int;
    assert(dec_lit(s, i1, Atom::KeyId) == Some(i2));
    lemma_prefix_split(s, i2, a3, a4 + a5);
    lemma_str_rt(s, i2, MAJOR_BYTES, p.id);
    let i3 = i2 + a3.len() as int;
    assert(dec_str(s, i2, MAJOR_BYTES) == Some((p.id, i3)));
    lemma_prefix_split(s, i3, a4, a5);
    match p.username {
        Some(u) => {
            let b1 = enc_lit_seq(Atom::KeyUsername);
            let b2 = enc_str_seq(MAJOR_TEXT, u);
            lemma_prefix_split(s, i3, b1, b2);
            lemma_lit_rt(s, i3, Atom::KeyUsername);
            lemma_str_rt(s, i3 + b1.len() as int, MAJOR_TEXT, u);
            let i4 = i3 + a4.len() as int;
            assert(dec_lit(s, i3, Atom::KeyUsername) == Some(i3 + b1.len() as int));
            assert(dec_str(s, i3 + b1.len() as int, MAJOR_TEXT) == Some((u, i4)));
            match p.nick {
                Some(n) => {
                    let c1 = enc_lit_seq(Atom::KeyNick);
                    let c2 = enc_str_seq(MAJOR_TEXT, n);
                    lemma_prefix_split(s, i4, c1, c2);
                    lemma_lit_rt(s, i4, Atom::KeyNick);
                    lemma_str_rt(s, i4 + c1.len() as int, MAJOR_TEXT, n);
                    assert(dec_lit(s, i4, Atom::KeyNick) == Some(i4 + c1.len() as int));
                    assert(dec_str(s, i4 + c1.len() as int, MAJOR_TEXT) == Some((n, end)));
                    assert(cnt == 3);
                    assert(dec_profile(s, i) == Some((p, end)));
                },
                None => {
                    assert(cnt == 2);
                    assert(dec_profile(s, i) == Some((p, end)));
                },
            }
        },
        None => {
            match p.nick {
                Some(n) => {
                    // the decoder probes for `username` first and must fail
                    let c1 = enc_lit_seq(Atom::KeyNick);
                    let c2 = enc_str_seq(MAJOR_TEXT, n);
                    lemma_prefix_split(s, i3, c1, c2);
                    lemma_lit_rt(s, i3, Atom::KeyNick);
                    lemma_str_rt(s, i3 + c1.len() as int, MAJOR_TEXT, n);
                    assert(crate::atoms::atom_seq(Atom::KeyNick) != crate::atoms::atom_seq(
                        Atom::KeyUsername,
                    )) by {
                        reveal(crate::atoms::atom_seq);
                    }
                    crate::atoms::lemma_atom_len(Atom::KeyNick);
                    lemma_str_rt(s, i3, MAJOR_TEXT, crate::atoms::atom_seq(Atom::KeyNick));
                    assert(dec_lit(s, i3, Atom::KeyUsername) is None) by {
                        reveal(dec_lit);
                    }
                    assert(dec_lit(s, i3, Atom::KeyUsername) is None);
                    assert(dec_lit(s, i3, Atom::KeyNick) == Some(i3 + c1.len() as int));
                    assert(dec_str(s, i3 + c1.len() as int, MAJOR_TEXT) == Some((n, end)));
                    assert(cnt == 2);
                    assert(dec_profile(s, i) == Some((p, end)));
                },
                None => {
                    assert(cnt == 1);
                    assert(dec_profile(s, i) == Some((p, end)));
                },
            }
        },
    }
}

/// Writes the profile map.
pub fn write_profile(out: &mut Vec<u8>, p: &Profile)
    ensures
        final(out)@ == old(out)@ + enc_profile(p@),
{
    let mut cnt: u64 = 1;
    if p.username.is_some() {
        cnt += 1;
    }
    if p.nick.is_some() {
        cnt += 1;
    }
    assert(cnt == profile_cnt(p@));
    write_hdr(out, MAJOR_MAP, cnt);
    write_lit(out, Atom::KeyId);
    write_str(out, MAJOR_BYTES, p.id.as_slice());
    match &p.username {
        Some(u) => {
            write_lit(out, Atom::KeyUsername);
            write_str(out, MAJOR_TEXT, u.as_slice());
        },
        None => {},
    }
    match &p.nick {
        Some(n) => {
            write_lit(out, Atom::KeyNick);
            write_str(out, MAJOR_TEXT, n.as_slice());
        },
        None => {},
    }
    proof {
        assert(out@ =~= old(out)@ + enc_profile(p@));
    }
}

/// Reads a profile map; mirrors `dec_profile`.
pub fn read_profile(s: &[u8], pos: usize) -> (r: Option<(Profile, usize)>)
    ensures
        match r {
            Some(t) => dec_profile(s@, pos as int) == Some((t.0@, t.1 as int)) && pos < t.1
                <= s@.len(),
            None => dec_profile(s@, pos as int) is None,
        },
{
    let (m, cnt, j0) = match read_hdr(s, pos) {
        Some(t) => t,
        None => {
            return None;
        },
    };
    if !(m == MAJOR_MAP && 1 <= cnt && cnt <= 3) {
        return None;
    }
    let j1 = match read_lit(s, j0, Atom::KeyId) {
        Some(j) => j,
        None => {
            return None;
        },
    };
    let (idv, j2) = match read_str(s, j1, MAJOR_BYTES) {
        Some(t) => t,
        None => {
            return None;
        },
    };
    if cnt == 1 {
        return Some((Profile { id: idv, username: None, nick: None }, j2));
    }
    if cnt == 2 {
        match read_lit(s, j2, Atom::KeyUsername) {
            Some(j3) => {
                let (u, j4) = match read_str(s, j3, MAJOR_TEXT) {
                    Some(t) => t,
                    None => {
                        return None;
                    },
                };
                return Some((Profile { id: idv, username: Some(u), nick: None }, j4));
            },
            None => {
                let j3 = match read_lit(s, j2, Atom::KeyNick) {
                    Some(j) => j,
                    None => {
                        return None;
                    },
                };
                let (n2, j4) = match read_str(s, j3, MAJOR_TEXT) {
                    Some(t) => t,
                    None => {
                        return None;
                    },
                };
                return Some((Profile { id: idv, username: None, nick: Some(n2) }, j4));
            },
        }
    }
    let j3 = match read_lit(s, j2, Atom::KeyUsername) {
        Some(j) => j,
        None => {
            return None;
        },
    };
    let (u, j4) = match read_str(s, j3, MAJOR_TEXT) {
        Some(t) => t,
        None => {
            return None;
        },
    };
    let j5 = match read_lit(s, j4, Atom::KeyNick) {
        Some(j) => j,
        None => {
            return None;
        },
    };
    let (n2, j6) = match read_str(s, j5, MAJOR_TEXT) {
        Some(t) => t,
        None => {
            return None;
        },
    };
    Some((Profile { id: idv, username: Some(u), nick: Some(n2) }, j6))
}


/// Abstract value of a `MessageType`.
pub enum MessageTypeV {
    Text { content: Seq<u8> },
    Edit { content: Seq<u8> },
    Image { id: Seq<u8>, url: Option<Seq<u8>> },
}

/// One element of a message chain: plain text, an edit of an earlier
/// message, or an image referenced by content id and optionally by URL.
/// Textual fields hold UTF-8 bytes.
#[derive(Debug, Clone, PartialEq, Eq)]
pub enum MessageType {
    Text { content: Vec<u8> },
    Edit { content: Vec<u8> },
    Image { id: Vec<u8>, url: Option<Vec<u8>> },
}

impl View for MessageType {
    type V = MessageTypeV;

    open spec fn view(&self) -> MessageTypeV {
        match self {
            MessageType::Text { content } => MessageTypeV::Text { content: content@ },
            MessageType::Edit { content } => MessageTypeV::Edit { content: content@ },
            MessageType::Image { id, url } => MessageTypeV::Image {
                id: id@,
                url: match url {
                    Some(u) => Some(u@),
                    None => None,
                },
            },
        }
    }
}

impl MessageTypeV {
    /// Every byte field fits a CBOR length argument.
    pub open spec fn wf(self) -> bool {
        match self {
            MessageTypeV::Text { content } => content.len() <= u64::MAX,
            MessageTypeV::Edit { content } => content.len() <= u64::MAX,
            MessageTypeV::Image { id, url } => id.len() <= u64::MAX && match url {
                Some(u) => u.len() <= u64::MAX,
                None => true,
            },
        }
    }
}

/// Number of entries of a chain-item map.
pub open spec fn msgty_cnt(t: MessageTypeV) -> u64 {
    match t {
        MessageTypeV::Image { id, url: Some(u) } => 3,
        _ => 2,
    }
}

/// A chain item: a map tagged by `t`, holding the variant's fields.
pub open spec fn enc_msgty(t: MessageTypeV) -> Seq<u8> {
    match t {
        MessageTypeV::Text { content } => hdr_seq(MAJOR_MAP, 2) + enc_lit_seq(Atom::KeyT)
            + enc_lit_seq(Atom::ValText) + enc_lit_seq(Atom::KeyContent) + enc_str_seq(
            MAJOR_TEXT,
            content,
        ),
        MessageTypeV::Edit { content } => hdr_seq(MAJOR_MAP, 2) + enc_lit_seq(Atom::KeyT)
            + enc_lit_seq(Atom::ValEdit) + enc_lit_seq(Atom::KeyContent) + enc_str_seq(
            MAJOR_TEXT,
            content,
        ),
        MessageTypeV::Image { id, url } => hdr_seq(MAJOR_MAP, msgty_cnt(t)) + enc_lit_seq(
            Atom::KeyT,
        ) + enc_lit_seq(Atom::ValImage) + enc_lit_seq(Atom::KeyId) + enc_str_seq(MAJOR_BYTES, id)
            + (match url {
            Some(u) => enc_lit_seq(Atom::KeyUrl) + enc_str_seq(MAJOR_TEXT, u),
            None => Seq::<u8>::empty(),
        }),
    }
}

/// Reads one chain item. A recognised tag yields its variant; an unknown tag
/// is tolerated: its fields are skipped and no variant is yielded.
pub open spec fn dec_msgty(s: Seq<u8>, i: int) -> Option<(Option<MessageTypeV>, int)> {
    match dec_hdr(s, i) {
        Some((m, cnt, j0)) => if m == MAJOR_MAP && cnt >= 1 {
            match dec_lit(s, j0, Atom::KeyT) {
                Some(j1) => match dec_str(s, j1, MAJOR_TEXT) {
                    Some((tag, j2)) => if tag == atom_seq(Atom::ValText) {
                        if cnt == 2 {
                            match dec_lit(s, j2, Atom::KeyContent) {
                                Some(j3) => match dec_str(s, j3, MAJOR_TEXT) {
                                    Some((c, j4)) => Some(
                                        (Some(MessageTypeV::Text { content: c }), j4),
                                    ),
                                    None => None,
                                },
                                None => None,
                            }
                        } else {
                            None
                        }
                    } else if tag == atom_seq(Atom::ValEdit) {
                        if cnt == 2 {
                            match dec_lit(s, j2, Atom::KeyContent) {
                                Some(j3) => match dec_str(s, j3, MAJOR_TEXT) {
                                    Some((c, j4)) => Some(
                                        (Some(MessageTypeV::Edit { content: c }), j4),
                                    ),
                                    None => None,
                                },
                                None => None,
                            }
                        } else {
                            None
                        }
                    } else if tag == atom_seq(Atom::ValImage) {
                        if cnt == 2 || cnt == 3 {
                            match dec_lit(s, j2, Atom::KeyId) {
                                Some(j3) => match dec_str(s, j3, MAJOR_BYTES) {
                                    Some((idv, j4)) => if cnt == 2 {
                                        Some((Some(MessageTypeV::Image { id: idv, url: None }), j4))
                                    } else {
                                        match dec_lit(s, j4, Atom::KeyUrl) {
                                            Some(j5) => match dec_str(s, j5, MAJOR_TEXT) {
                                                Some((u, j6)) => Some(
                                                    (
                                                        Some(
                                                            MessageTypeV::Image {
                                                                id: idv,
                                                                url: Some(u),
                                                            },
                                                        ),
                                                        j6,
                                                    ),
                                                ),
                                                None => None,
                                            },
                                            None => None,
                                        }
                                    },
                                    None => None,
                                },
                                None => None,
                            }
                        } else {
                            None
                        }
                    } else {
                        match skip_n(s, j2, 2 * ((cnt - 1) as int)) {
                            Some(j3) => Some((None, j3)),
                            None => None,
                        }
                    },
                    None => None,
                },
                None => None,
            }
        } else {
            None
        },
        None => None,
    }
}

/// Decoding the chain item written at `i` yields it back.
#[verifier::spinoff_prover]
pub proof fn lemma_msgty_rt(s: Seq<u8>, i: int, t: MessageTypeV)
    requires
        t.wf(),
        0 <= i,
        i + enc_msgty(t).len() <= s.len(),
        s.subrange(i, i + enc_msgty(t).len() as int) == enc_msgty(t),
    ensures
        dec_msgty(s, i) == Some((Some(t), i + enc_msgty(t).len() as int)),
{
    let e = enc_msgty(t);
    let end = i + e.len() as int;
    let cnt = msgty_cnt(t);
    let a1 = hdr_seq(MAJOR_MAP, cnt);
    let a2 = enc_lit_seq(Atom::KeyT);
    match t {
        MessageTypeV::Text { content } => {
            let a3 = enc_lit_seq(Atom::ValText);
            let a4 = enc_lit_seq(Atom::KeyContent);
            let a5 = enc_str_seq(MAJOR_TEXT, content);
            assert(e =~= a1 + (a2 + (a3 + (a4 + a5))));
            lemma_prefix_split(s, i, a1, a2 + (a3 + (a4 + a5)));
            lemma_hdr_rt(s, i, MAJOR_MAP, cnt);
            let i1 = i + a1.len() as int;
            lemma_prefix_split(s, i1, a2, a3 + (a4 + a5));
            lemma_lit_rt(s, i1, Atom::KeyT);
            let i2 = i1 + a2.len() as int;
            lemma_prefix_split(s, i2, a3, a4 + a5);
            crate::atoms::lemma_atom_len(Atom::ValText);
            lemma_str_rt(s, i2, MAJOR_TEXT, atom_seq(Atom::ValText));
            let i3 = i2 + a3.len() as int;
            lemma_prefix_split(s, i3, a4, a5);
            lemma_lit_rt(s, i3, Atom::KeyContent);
            let i4 = i3 + a4.len() as int;
            lemma_str_rt(s, i4, MAJOR_TEXT, content);
            assert(dec_msgty(s, i) == Some((Some(t), end)));
        },
        MessageTypeV::Edit { content } => {
            let a3 = enc_lit_seq(Atom::ValEdit);
            let a4 = enc_lit_seq(Atom::KeyContent);
            let a5 = enc_str_seq(MAJOR_TEXT, content);
            assert(e =~= a1 + (a2 + (a3 + (a4 + a5))));
            lemma_prefix_split(s, i, a1, a2 + (a3 + (a4 + a5)));
            lemma_hdr_rt(s, i, MAJOR_MAP, cnt);
            let i1 = i + a1.len() as int;
            lemma_prefix_split(s, i1, a2, a3 + (a4 + a5));
            lemma_lit_rt(s, i1, Atom::KeyT);
            let i2 = i1 + a2.len() as int;
            lemma_prefix_split(s, i2, a3, a4 + a5);
            crate::atoms::lemma_atom_len(Atom::ValEdit);
            lemma_str_rt(s, i2, MAJOR_TEXT, atom_seq(Atom::ValEdit));
            let i3 = i2 + a3.len() as int;
            lemma_prefix_split(s, i3, a4, a5);
            lemma_lit_rt(s, i3, Atom::KeyContent);
            let i4 = i3 + a4.len() as int;
            lemma_str_rt(s, i4, MAJOR_TEXT, content);
            assert(atom_seq(Atom::ValEdit) != atom_seq(Atom::ValText)) by {
                reveal(crate::atoms::atom_seq);
            }
            assert(dec_msgty(s, i) == Some((Some(t), end)));
        },
        MessageTypeV::Image { id, url } => {
            let a3 = enc_lit_seq(Atom::ValImage);
            let a4 = enc_lit_seq(Atom::KeyId);
            let a5 = enc_str_seq(MAJOR_BYTES, id);
            let a6 = match url {
                Some(u) => enc_lit_seq(Atom::KeyUrl) + enc_str_seq(MAJOR_TEXT, u),
                None => Seq::<u8>::empty(),
            };
            assert(e =~= a1 + (a2 + (a3 + (a4 + (a5 + a6)))));
            lemma_prefix_split(s, i, a1, a2 + (a3 + (a4 + (a5 + a6))));
            lemma_hdr_rt(s, i, MAJOR_MAP, cnt);
            let i1 = i + a1.len() as int;
            lemma_prefix_split(s, i1, a2, a3 + (a4 + (a5 + a6)));
            lemma_lit_rt(s, i1, Atom::KeyT);
            let i2 = i1 + a2.len() as int;
            lemma_prefix_split(s, i2, a3, a4 + (a5 + a6));
            crate::atoms::lemma_atom_len(Atom::ValImage);
            lemma_str_rt(s, i2, MAJOR_TEXT, atom_seq(Atom::ValImage));
            let i3 = i2 + a3.len() as int;
            lemma_prefix_split(s, i3, a4, a5 + a6);
            lemma_lit_rt(s, i3, Atom::KeyId);
            let i4 = i3 + a4.len() as int;
            lemma_prefix_split(s, i4, a5, a6);
            lemma_str_rt(s, i4, MAJOR_BYTES, id);
            let i5 = i4 + a5.len() as int;
            assert(atom_seq(Atom::ValImage) != atom_seq(Atom::ValText) && atom_seq(Atom::ValImage)
                != atom_seq(Atom::ValEdit)) by {
                reveal(crate::atoms::atom_seq);
            }
            match url {
                Some(u) => {
                    let b1 = enc_lit_seq(Atom::KeyUrl);
                    let b2 = enc_str_seq(MAJOR_TEXT, u);
                    lemma_prefix_split(s, i5, b1, b2);
                    lemma_lit_rt(s, i5, Atom::KeyUrl);
                    lemma_str_rt(s, i5 + b1.len() as int, MAJOR_TEXT, u);
                    assert(dec_msgty(s, i) == Some((Some(t), end)));
                },
                None => {
                    assert(dec_msgty(s, i) == Some((Some(t), end)));
                },
            }
        },
    }
}

/// Writes one chain item.
pub fn write_msgty(out: &mut Vec<u8>, t: &MessageType)
    ensures
        final(out)@ == old(out)@ + enc_msgty(t@),
{
    match t {
        MessageType::Text { content } => {
            write_hdr(out, MAJOR_MAP, 2);
            write_lit(out, Atom::KeyT);
            write_lit(out, Atom::ValText);
            write_lit(out, Atom::KeyContent);
            write_str(out, MAJOR_TEXT, content.as_slice());
        },
        MessageType::Edit { content } => {
            write_hdr(out, MAJOR_MAP, 2);
            write_lit(out, Atom::KeyT);
            write_lit(out, Atom::ValEdit);
            write_lit(out, Atom::KeyContent);
            write_str(out, MAJOR_TEXT, content.as_slice());
        },
        MessageType::Image { id, url } => {
            let cnt: u64 = if url.is_some() {
                3
            } else {
                2
            };
            write_hdr(out, MAJOR_MAP, cnt);
            write_lit(out, Atom::KeyT);
            write_lit(out, Atom::ValImage);
            write_lit(out, Atom::KeyId);
            write_str(out, MAJOR_BYTES, id.as_slice());
            match url {
                Some(u) => {
                    write_lit(out, Atom::KeyUrl);
                    write_str(out, MAJOR_TEXT, u.as_slice());
                },
                None => {},
            }
        },
    }
    proof {
        assert(out@ =~= old(out)@ + enc_msgty(t@));
    }
}

/// Reads one chain item; mirrors `dec_msgty`.
pub fn read_msgty(s: &[u8], pos: usize) -> (r: Option<(Option<MessageType>, usize)>)
    ensures
        match r {
            Some(t) => dec_msgty(s@, pos as int) == Some(
                (
                    match t.0 {
                        Some(v) => Some(v@),
                        None => None,
                    },
                    t.1 as int,
                ),
            ) && t.1 <= s@.len(),
            None => dec_msgty(s@, pos as int) is None,
        },
{
    let (m, cnt, j0) = match read_hdr(s, pos) {
        Some(t) => t,
        None => {
            return None;
        },
    };
    if !(m == MAJOR_MAP && cnt >= 1) {
        return None;
    }
    let j1 = match read_lit(s, j0, Atom::KeyT) {
        Some(j) => j,
        None => {
            return None;
        },
    };
    let (tag, j2) = match read_str(s, j1, MAJOR_TEXT) {
        Some(t) => t,
        None => {
            return None;
        },
    };
    if crate::util::bytes_eq(tag.as_slice(), atom_vec(Atom::ValText).as_slice()) {
        if cnt != 2 {
            return None;
        }
        let j3 = match read_lit(s, j2, Atom::KeyContent) {
            Some(j) => j,
            None => {
                return None;
            },
        };
        let (c, j4) = match read_str(s, j3, MAJOR_TEXT) {
            Some(t) => t,
            None => {
                return None;
            },
        };
        Some((Some(MessageType::Text { content: c }), j4))
    } else if crate::util::bytes_eq(tag.as_slice(), atom_vec(Atom::ValEdit).as_slice()) {
        if cnt != 2 {
            return None;
        }
        let j3 = match read_lit(s, j2, Atom::KeyContent) {
            Some(j) => j,
            None => {
                return None;
            },
        };
        let (c, j4) = match read_str(s, j3, MAJOR_TEXT) {
            Some(t) => t,
            None => {
                return None;
            },
        };
        Some((Some(MessageType::Edit { content: c }), j4))
    } else if crate::util::bytes_eq(tag.as_slice(), atom_vec(Atom::ValImage).as_slice()) {
        if !(cnt == 2 || cnt == 3) {
            return None;
        }
        let j3 = match read_lit(s, j2, Atom::KeyId) {
            Some(j) => j,
            None => {
                return None;
            },
        };
        let (idv, j4) = match read_str(s, j3, MAJOR_BYTES) {
            Some(t) => t,
            None => {
                return None;
            },
        };
        if cnt == 2 {
            Some((Some(MessageType::Image { id: idv, url: None }), j4))
        } else {
            let j5 = match read_lit(s, j4, Atom::KeyUrl) {
                Some(j) => j,
                None => {
                    return None;
                },
            };
            let (u, j6) = match read_str(s, j5, MAJOR_TEXT) {
                Some(t) => t,
                None => {
                    return None;
                },
            };
            Some((Some(MessageType::Image { id: idv, url: Some(u) }), j6))
        }
    } else {
        let c1 = cnt - 1;
        let rem = s.len() - j2;
        if c1 > (rem as u64) / 2 {
            proof {
                assert(2 * (c1 as int) > rem as int);
                crate::cbor::lemma_skip_n_too_many(s@, j2 as int, 2 * (c1 as int));
            }
            None
        } else {
            proof {
                assert(2 * (c1 as int) <= rem as int);
            }
            match skip_n_x(s, j2, 2 * c1) {
                Some(j3) => Some((None, j3)),
                None => None,
            }
        }
    }
}

/// The abstract chain of a vector of chain items.
pub open spec fn chain_of(v: Seq<MessageType>) -> Seq<MessageTypeV> {
    v.map_values(|m: MessageType| m@)
}

/// All items of a chain fit CBOR length arguments.
pub open spec fn chain_wf(c: Seq<MessageTypeV>) -> bool {
    forall|k: int| 0 <= k < c.len() ==> (#[trigger] c[k]).wf()
}

/// The items of a chain, one after the other, without the array header.
pub open spec fn enc_chain(c: Seq<MessageTypeV>) -> Seq<u8>
    decreases c.len(),
{
    if c.len() == 0 {
        Seq::<u8>::empty()
    } else {
        enc_msgty(c[0]) + enc_chain(c.skip(1))
    }
}

/// Reads `cnt` chain items; unrecognised ones are dropped.
pub open spec fn dec_chain(s: Seq<u8>, i: int, cnt: int) -> Option<(Seq<MessageTypeV>, int)>
    decreases cnt,
{
    if cnt <= 0 {
        if 0 <= i <= s.len() {
            Some((Seq::<MessageTypeV>::empty(), i))
        } else {
            None
        }
    } else {
        match dec_msgty(s, i) {
            Some((opt, j)) => match dec_chain(s, j, cnt - 1) {
                Some((rest, k2)) => Some(
                    (
                        match opt {
                            Some(v) => seq![v] + rest,
                            None => rest,
                        },
                        k2,
                    ),
                ),
                None => None,
            },
            None => None,
        }
    }
}

/// Decoding the chain written at `i` yields it back, item for item.
pub proof fn lemma_chain_rt(s: Seq<u8>, i: int, c: Seq<MessageTypeV>)
    requires
        chain_wf(c),
        0 <= i,
        i + enc_chain(c).len() <= s.len(),
        s.subrange(i, i + enc_chain(c).len() as int) == enc_chain(c),
    ensures
        dec_chain(s, i, c.len() as int) == Some((c, i + enc_chain(c).len() as int)),
    decreases c.len(),
{
    if c.len() == 0 {
        assert(dec_chain(s, i, 0) == Some((Seq::<MessageTypeV>::empty(), i)));
        assert(c =~= Seq::<MessageTypeV>::empty());
    } else {
        let hd = enc_msgty(c[0]);
        let tl = enc_chain(c.skip(1));
        assert(enc_chain(c) == hd + tl);
        lemma_prefix_split(s, i, hd, tl);
        lemma_msgty_rt(s, i, c[0]);
        let j = i + hd.len() as int;
        lemma_chain_rt(s, j, c.skip(1));
        assert(seq![c[0]] + c.skip(1) =~= c);
    }
}

/// Writes the items of a chain, one after the other.
pub fn write_chain(out: &mut Vec<u8>, c: &Vec<MessageType>)
    ensures
        final(out)@ == old(out)@ + enc_chain(chain_of(c@)),
{
    let mut k: usize = 0;
    while k < c.len()
        invariant
            0 <= k <= c.len(),
            out@ == old(out)@ + enc_chain(chain_of(c@.subrange(0, k as int))),
        decreases c.len() - k,
    {
        let ghost pre = chain_of(c@.subrange(0, k as int));
        write_msgty(out, &c[k]);
        proof {
            let post = chain_of(c@.subrange(0, k + 1 as int));
            lemma_enc_chain_snoc(pre, c@[k as int]@);
            assert(post =~= pre.push(c@[k as int]@));
        }
        k += 1;
    }
    proof {
        assert(c@.subrange(0, c@.len() as int) =~= c@);
    }
}

/// Appending one item to a chain appends its encoding.
pub proof fn lemma_enc_chain_snoc(c: Seq<MessageTypeV>, t: MessageTypeV)
    ensures
        enc_chain(c.push(t)) == enc_chain(c) + enc_msgty(t),
    decreases c.len(),
{
    let ev = Seq::<MessageTypeV>::empty();
    if c.len() == 0 {
        assert(c.push(t)[0] == t);
        assert(c.push(t).skip(1) =~= ev);
        assert(enc_chain(ev) == Seq::<u8>::empty());
        assert(enc_chain(c) == Seq::<u8>::empty());
        assert(enc_chain(c.push(t)) == enc_msgty(t) + Seq::<u8>::empty());
        assert(enc_msgty(t) + Seq::<u8>::empty() =~= Seq::<u8>::empty() + enc_msgty(t));
    } else {
        assert(c.push(t)[0] == c[0]);
        assert(c.push(t).skip(1) =~= c.skip(1).push(t));
        lemma_enc_chain_snoc(c.skip(1), t);
        assert(enc_chain(c.push(t)) == enc_msgty(c[0]) + (enc_chain(c.skip(1)) + enc_msgty(t)));
        assert(enc_msgty(c[0]) + (enc_chain(c.skip(1)) + enc_msgty(t)) =~= (enc_msgty(c[0])
            + enc_chain(c.skip(1))) + enc_msgty(t));
    }
}

/// Reads `cnt` chain items; mirrors `dec_chain`.
pub fn read_chain(s: &[u8], pos: usize, cnt: u64) -> (r: Option<(Vec<MessageType>, usize)>)
    ensures
        match r {
            Some(t) => dec_chain(s@, pos as int, cnt as int) == Some((chain_of(t.0@), t.1 as int))
                && t.1 <= s@.len(),
            None => dec_chain(s@, pos as int, cnt as int) is None,
        },
{
    if pos > s.len() {
        proof {
            if cnt > 0 {
                reveal(crate::cbor::dec_hdr);
                assert(dec_hdr(s@, pos as int) is None);
            }
        }
        return None;
    }
    let mut acc: Vec<MessageType> = Vec::new();
    let mut cur: usize = pos;
    let mut k: u64 = 0;
    proof {
        assert(chain_of(acc@) =~= Seq::<MessageTypeV>::empty());
        assert forall|rest: Seq<MessageTypeV>| Seq::<MessageTypeV>::empty() + rest == rest by {
            assert(Seq::<MessageTypeV>::empty() + rest =~= rest);
        }
    }
    while k < cnt
        invariant
            0 <= k <= cnt,
            cur <= s@.len(),
            forall|rest: Seq<MessageTypeV>, end: int|
                dec_chain(s@, cur as int, cnt - k) == Some::<(Seq<MessageTypeV>, int)>(
                    (rest, end),
                ) ==> dec_chain(s@, pos as int, cnt as int) == Some::<(Seq<MessageTypeV>, int)>(
                    (chain_of(acc@) + rest, end),
                ),
            dec_chain(s@, cur as int, cnt - k) is None ==> dec_chain(s@, pos as int, cnt as int)
                is None,
        decreases cnt - k,
    {
        match read_msgty(s, cur) {
            Some((opt, j)) => {
                let ghost prev_acc = acc@;
                match opt {
                    Some(v) => {
                        acc.push(v);
                        proof {
                            assert(chain_of(acc@) =~= chain_of(prev_acc).push(v@));
                        }
                    },
                    None => {},
                }
                proof {
                    assert forall|rest: Seq<MessageTypeV>, end: int|
                        dec_chain(s@, j as int, cnt - k - 1) == Some::<(Seq<MessageTypeV>, int)>(
                            (rest, end),
                        ) implies dec_chain(s@, pos as int, cnt as int) == Some::<
                        (Seq<MessageTypeV>, int),
                    >((chain_of(acc@) + rest, end)) by {
                        match dec_msgty(s@, cur as int)->Some_0.0 {
                            Some(v) => {
                                assert(dec_chain(s@, cur as int, cnt - k) == Some::<
                                    (Seq<MessageTypeV>, int),
                                >((seq![v] + rest, end)));
                                assert(chain_of(prev_acc) + (seq![v] + rest) =~= chain_of(acc@)
                                    + rest);
                            },
                            None => {
                                assert(dec_chain(s@, cur as int, cnt - k) == Some::<
                                    (Seq<MessageTypeV>, int),
                                >((rest, end)));
                            },
                        }
                    }
                }
                cur = j;
                k += 1;
            },
            None => {
                proof {
                    assert(dec_chain(s@, cur as int, cnt - k) is None);
                }
                return None;
            },
        }
    }
    proof {
        assert(dec_chain(s@, cur as int, 0) == Some((Seq::<MessageTypeV>::empty(), cur as int)));
        assert(chain_of(acc@) + Seq::<MessageTypeV>::empty() =~= chain_of(acc@));
    }
    Some((acc, cur))
}


/// Abstract value of a `Message`.
pub struct MessageV {
    pub profile: ProfileV,
    pub id: Seq<u8>,
    pub reply: Option<Seq<u8>>,
    pub chain: Seq<MessageTypeV>,
    pub from: Seq<u8>,
}

/// One logical chat message: who sent it, its platform-scoped id, what it
/// replies to, its ordered chain of parts, and the sending instance's id.
#[derive(Debug, Clone, PartialEq, Eq)]
pub struct Message {
    pub profile: Profile,
    pub id: Vec<u8>,
    pub reply: Option<Vec<u8>>,
    pub chain: Vec<MessageType>,
    pub from: Vec<u8>,
}

impl View for Message {
    type V = MessageV;

    open spec fn view(&self) -> MessageV {
        MessageV {
            profile: self.profile@,
            id: self.id@,
            reply: match self.reply {
                Some(r) => Some(r@),
                None => None,
            },
            chain: chain_of(self.chain@),
            from: self.from@,
        }
    }
}

impl MessageV {
    /// Every field fits its CBOR length argument and the chain is sound.
    pub open spec fn wf(self) -> bool {
        &&& self.profile.wf()
        &&& self.id.len() <= u64::MAX
        &&& match self.reply {
            Some(r) => r.len() <= u64::MAX,
            None => true,
        }
        &&& self.chain.len() <= u64::MAX
        &&& chain_wf(self.chain)
        &&& self.from.len() <= u64::MAX
    }
}

/// The leading message fields of a payload map, after the payload tag:
/// `profile`, `id`, and `reply` when present.
pub open spec fn enc_msg_head(m: MessageV) -> Seq<u8> {
    enc_lit_seq(Atom::KeyProfile) + enc_profile(m.profile) + enc_lit_seq(Atom::KeyId) + enc_str_seq(
        MAJOR_BYTES,
        m.id,
    ) + (match m.reply {
        Some(r) => enc_lit_seq(Atom::KeyReply) + enc_str_seq(MAJOR_BYTES, r),
        None => Seq::<u8>::empty(),
    })
}

/// The trailing message fields: `chain` and `from`.
pub open spec fn enc_msg_tail(m: MessageV) -> Seq<u8> {
    enc_lit_seq(Atom::KeyChain) + hdr_seq(MAJOR_ARRAY, m.chain.len() as u64) + enc_chain(m.chain)
        + enc_lit_seq(Atom::KeyFrom) + enc_str_seq(MAJOR_BYTES, m.from)
}

/// The message fields of a payload map, after the payload tag.
pub open spec fn enc_msg_fields(m: MessageV) -> Seq<u8> {
    enc_msg_head(m) + enc_msg_tail(m)
}

/// Reads the optional `reply` entry.
pub open spec fn dec_reply(s: Seq<u8>, i: int, has_reply: bool) -> Option<(Option<Seq<u8>>, int)> {
    if has_reply {
        match dec_lit(s, i, Atom::KeyReply) {
            Some(j) => match dec_str(s, j, MAJOR_BYTES) {
                Some((r, j2)) => Some((Some(r), j2)),
                None => None,
            },
            None => None,
        }
    } else {
        Some((None, i))
    }
}

/// Reads the leading message fields; `has_reply` is settled by the payload
/// map's entry count.
pub open spec fn dec_msg_head(s: Seq<u8>, i: int, has_reply: bool) -> Option<
    ((ProfileV, Seq<u8>, Option<Seq<u8>>), int),
> {
    match dec_lit(s, i, Atom::KeyProfile) {
        Some(j0) => match dec_profile(s, j0) {
            Some((pv, j1)) => match dec_lit(s, j1, Atom::KeyId) {
                Some(j2) => match dec_str(s, j2, MAJOR_BYTES) {
                    Some((idv, j3)) => match dec_reply(s, j3, has_reply) {
                        Some((rv, j4)) => Some(((pv, idv, rv), j4)),
                        None => None,
                    },
                    None => None,
                },
                None => None,
            },
            None => None,
        },
        None => None,
    }
}

/// Reads the trailing message fields.
pub open spec fn dec_msg_tail(s: Seq<u8>, i: int) -> Option<((Seq<MessageTypeV>, Seq<u8>), int)> {
    match dec_lit(s, i, Atom::KeyChain) {
        Some(j5) => match dec_hdr(s, j5) {
            Some((m, cnt, j6)) => if m == MAJOR_ARRAY {
                match dec_chain(s, j6, cnt as int) {
                    Some((cv, j7)) => match dec_lit(s, j7, Atom::KeyFrom) {
                        Some(j8) => match dec_str(s, j8, MAJOR_BYTES) {
                            Some((fv, j9)) => Some(((cv, fv), j9)),
                            None => None,
                        },
                        None => None,
                    },
                    None => None,
                }
            } else {
                None
            },
            None => None,
        },
        None => None,
    }
}

/// Reads the message fields.
pub open spec fn dec_msg_fields(s: Seq<u8>, i: int, has_reply: bool) -> Option<(MessageV, int)> {
    match dec_msg_head(s, i, has_reply) {
        Some(((pv, idv, rv), j)) => match dec_msg_tail(s, j) {
            Some(((cv, fv), j2)) => Some(
                (MessageV { profile: pv, id: idv, reply: rv, chain: cv, from: fv }, j2),
            ),
            None => None,
        },
        None => None,
    }
}

/// Decoding the leading message fields written at `i` yields them back.
#[verifier::rlimit(100)]
#[verifier::spinoff_prover]
pub proof fn lemma_msg_head_rt(s: Seq<u8>, i: int, m: MessageV)
    requires
        m.wf(),
        0 <= i,
        i + enc_msg_head(m).len() <= s.len(),
        s.subrange(i, i + enc_msg_head(m).len() as int) == enc_msg_head(m),
    ensures
        dec_msg_head(s, i, m.reply is Some) == Some(
            ((m.profile, m.id, m.reply), i + enc_msg_head(m).len() as int),
        ),
{
    let e = enc_msg_head(m);
    let end = i + e.len() as int;
    let a1 = enc_lit_seq(Atom::KeyProfile);
    let a2 = enc_profile(m.profile);
    let a3 = enc_lit_seq(Atom::KeyId);
    let a4 = enc_str_seq(MAJOR_BYTES, m.id);
    let a5 = match m.reply {
        Some(r) => enc_lit_seq(Atom::KeyReply) + enc_str_seq(MAJOR_BYTES, r),
        None => Seq::<u8>::empty(),
    };
    assert(e =~= a1 + (a2 + (a3 + (a4 + a5))));
    lemma_prefix_split(s, i, a1, a2 + (a3 + (a4 + a5)));
    lemma_lit_rt(s, i, Atom::KeyProfile);
    let i1 = i + a1.len() as int;
    assert(dec_lit(s, i, Atom::KeyProfile) == Some(i1));
    lemma_prefix_split(s, i1, a2, a3 + (a4 + a5));
    lemma_profile_rt(s, i1, m.profile);
    let i2 = i1 + a2.len() as int;
    lemma_prefix_split(s, i2, a3, a4 + a5);
    lemma_lit_rt(s, i2, Atom::KeyId);
    let i3 = i2 + a3.len() as int;
    lemma_prefix_split(s, i3, a4, a5);
    lemma_str_rt(s, i3, MAJOR_BYTES, m.id);
    let i4 = i3 + a4.len() as int;
    match m.reply {
        Some(r) => {
            let b1 = enc_lit_seq(Atom::KeyReply);
            let b2 = enc_str_seq(MAJOR_BYTES, r);
            lemma_prefix_split(s, i4, b1, b2);
            lemma_lit_rt(s, i4, Atom::KeyReply);
            lemma_str_rt(s, i4 + b1.len() as int, MAJOR_BYTES, r);
            assert(dec_reply(s, i4, true) == Some((Some(r), end)));
        },
        None => {
            assert(dec_reply(s, i4, false) == Some((None::<Seq<u8>>, i4)));
        },
    }
}

/// Decoding the trailing message fields written at `i` yields them back.
#[verifier::rlimit(100)]
#[verifier::spinoff_prover]
pub proof fn lemma_msg_tail_rt(s: Seq<u8>, i: int, m: MessageV)
    requires
        m.wf(),
        0 <= i,
        i + enc_msg_tail(m).len() <= s.len(),
        s.subrange(i, i + enc_msg_tail(m).len() as int) == enc_msg_tail(m),
    ensures
        dec_msg_tail(s, i) == Some(((m.chain, m.from), i + enc_msg_tail(m).len() as int)),
{
    let e = enc_msg_tail(m);
    let end = i + e.len() as int;
    let a6 = enc_lit_seq(Atom::KeyChain);
    let a7 = hdr_seq(MAJOR_ARRAY, m.chain.len() as u64);
    let a8 = enc_chain(m.chain);
    let a9 = enc_lit_seq(Atom::KeyFrom);
    let a10 = enc_str_seq(MAJOR_BYTES, m.from);
    assert(e =~= a6 + (a7 + (a8 + (a9 + a10))));
    lemma_prefix_split(s, i, a6, a7 + (a8 + (a9 + a10)));
    lemma_lit_rt(s, i, Atom::KeyChain);
    let i6 = i + a6.len() as int;
    assert(dec_lit(s, i, Atom::KeyChain) == Some(i6));
    lemma_prefix_split(s, i6, a7, a8 + (a9 + a10));
    lemma_hdr_rt(s, i6, MAJOR_ARRAY, m.chain.len() as u64);
    let i7 = i6 + a7.len() as int;
    assert(dec_hdr(s, i6) == Some((MAJOR_ARRAY, m.chain.len() as u64, i7)));
    lemma_prefix_split(s, i7, a8, a9 + a10);
    lemma_chain_rt(s, i7, m.chain);
    let i8 = i7 + a8.len() as int;
    assert(dec_chain(s, i7, m.chain.len() as int) == Some((m.chain, i8)));
    lemma_prefix_split(s, i8, a9, a10);
    lemma_lit_rt(s, i8, Atom::KeyFrom);
    let i9 = i8 + a9.len() as int;
    assert(dec_lit(s, i8, Atom::KeyFrom) == Some(i9));
    lemma_str_rt(s, i9, MAJOR_BYTES, m.from);
    assert(dec_str(s, i9, MAJOR_BYTES) == Some((m.from, end)));
}

/// Decoding the message fields written at `i` yields them back.
pub proof fn lemma_msg_fields_rt(s: Seq<u8>, i: int, m: MessageV)
    requires
        m.wf(),
        0 <= i,
        i + enc_msg_fields(m).len() <= s.len(),
        s.subrange(i, i + enc_msg_fields(m).len() as int) == enc_msg_fields(m),
    ensures
        dec_msg_fields(s, i, m.reply is Some) == Some((m, i + enc_msg_fields(m).len() as int)),
{
    let h = enc_msg_head(m);
    let t = enc_msg_tail(m);
    lemma_prefix_split(s, i, h, t);
    lemma_msg_head_rt(s, i, m);
    lemma_msg_tail_rt(s, i + h.len() as int, m);
}

/// Writes the message fields.
#[verifier::rlimit(100)]
#[verifier::spinoff_prover]
pub fn write_msg_fields(out: &mut Vec<u8>, m: &Message)
    ensures
        final(out)@ == old(out)@ + enc_msg_fields(m@),
{
    write_lit(out, Atom::KeyProfile);
    write_profile(out, &m.profile);
    write_lit(out, Atom::KeyId);
    write_str(out, MAJOR_BYTES, m.id.as_slice());
    match &m.reply {
        Some(r) => {
            write_lit(out, Atom::KeyReply);
            write_str(out, MAJOR_BYTES, r.as_slice());
        },
        None => {},
    }
    let ghost mid = out@;
    proof {
        assert(mid =~= old(out)@ + enc_msg_head(m@));
    }
    write_lit(out, Atom::KeyChain);
    write_hdr(out, MAJOR_ARRAY, m.chain.len() as u64);
    write_chain(out, &m.chain);
    write_lit(out, Atom::KeyFrom);
    write_str(out, MAJOR_BYTES, m.from.as_slice());
    proof {
        assert(out@ =~= mid + enc_msg_tail(m@));
        assert(out@ =~= old(out)@ + enc_msg_fields(m@));
    }
}

/// Reads the message fields; mirrors `dec_msg_fields`.
pub fn read_msg_fields(s: &[u8], pos: usize, has_reply: bool) -> (r: Option<(Message, usize)>)
    ensures
        match r {
            Some(t) => dec_msg_fields(s@, pos as int, has_reply) == Some((t.0@, t.1 as int)) && t.1
                <= s@.len(),
            None => dec_msg_fields(s@, pos as int, has_reply) is None,
        },
{
    let j0 = match read_lit(s, pos, Atom::KeyProfile) {
        Some(j) => j,
        None => {
            return None;
        },
    };
    let (pv, j1) = match read_profile(s, j0) {
        Some(t) => t,
        None => {
            return None;
        },
    };
    let j2 = match read_lit(s, j1, Atom::KeyId) {
        Some(j) => j,
        None => {
            return None;
        },
    };
    let (idv, j3) = match read_str(s, j2, MAJOR_BYTES) {
        Some(t) => t,
        None => {
            return None;
        },
    };
    let (rv, j4): (Option<Vec<u8>>, usize) = if has_reply {
        let j = match read_lit(s, j3, Atom::KeyReply) {
            Some(j) => j,
            None => {
                return None;
            },
        };
        let (r2, j5) = match read_str(s, j, MAJOR_BYTES) {
            Some(t) => t,
            None => {
                return None;
            },
        };
        (Some(r2), j5)
    } else {
        (None, j3)
    };
    let j5 = match read_lit(s, j4, Atom::KeyChain) {
        Some(j) => j,
        None => {
            return None;
        },
    };
    let (m, cnt, j6) = match read_hdr(s, j5) {
        Some(t) => t,
        None => {
            return None;
        },
    };
    if m != MAJOR_ARRAY {
        return None;
    }
    let (cv, j7) = match read_chain(s, j6, cnt) {
        Some(t) => t,
        None => {
            return None;
        },
    };
    let j8 = match read_lit(s, j7, Atom::KeyFrom) {
        Some(j) => j,
        None => {
            return None;
        },
    };
    let (fv, j9) = match read_str(s, j8, MAJOR_BYTES) {
        Some(t) => t,
        None => {
            return None;
        },
    };
    Some((Message { profile: pv, id: idv, reply: rv, chain: cv, from: fv }, j9))
}

impl Message {
    /// Builds a message whose id is the big-endian image of a 32-bit
    /// platform id, with no reply and no sending-instance id.
    pub fn new(profile: Profile, id: i32, chain: Vec<MessageType>) -> (r: Message)
        ensures
            r@.profile == profile@,
            r@.id == u32_be_seq(id as u32),
            r@.reply is None,
            r@.chain == chain_of(chain@),
            r@.from == Seq::<u8>::empty(),
    {
        Message { profile, id: u32_to_be_vec(id as u32), reply: None, chain, from: Vec::new() }
    }

    /// Reads the message id back as a 64-bit integer where it is exactly
    /// eight bytes wide.
    pub fn id_i64(&self) -> (r: Option<i64>)
        ensures
            match r {
                Some(v) => self@.id.len() == 8 && v == u64_from_be_seq(self@.id) as i64,
                None => self@.id.len() != 8,
            },
    {
        if self.id.len() == 8 {
            Some(u64_from_be_vec(self.id.as_slice()) as i64)
        } else {
            None
        }
    }
}

} // verus!
