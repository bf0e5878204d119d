//! Control events between instances: image requests and answers, and the
//! echo handshake.

use vstd::prelude::*;

use crate::atoms::Atom;
use crate::atoms::atom_seq;
use crate::atoms::atom_vec;
use crate::atoms::lemma_atom_len;
use crate::cbor::MAJOR_BYTES;
use crate::cbor::MAJOR_TEXT;
use crate::cbor::dec_lit;
use crate::cbor::dec_str;
use crate::cbor::enc_lit_seq;
use crate::cbor::enc_str_seq;
use crate::cbor::lemma_lit_rt;
use crate::cbor::lemma_prefix_split;
use crate::cbor::lemma_str_rt;
use crate::cbor::read_lit;
use crate::cbor::read_str;
use crate::cbor::write_lit;
use crate::cbor::write_str;
use crate::util::bytes_eq;

verus! {

/// Abstract value of an `Event`.
pub enum EventV {
    RequestImage { id: Seq<u8> },
    RespondImage { id: Seq<u8>, url: Seq<u8> },
    RequestEcho { name: Seq<u8> },
    RespondEcho { name: Seq<u8> },
}

/// A control event exchanged between instances: an image is requested by its
/// content id and answered with a URL, and an instance can ask its peers to
/// introduce themselves. Textual fields hold UTF-8 bytes.
#[derive(Debug, Clone, PartialEq, Eq)]
pub enum Event {
    RequestImage { id: Vec<u8> },
    RespondImage { id: Vec<u8>, url: Vec<u8> },
    RequestEcho { name: Vec<u8> },
    RespondEcho { name: Vec<u8> },
}

impl View for Event {
    type V = EventV;

    open spec fn view(&self) -> EventV {
        match self {
            Event::RequestImage { id } => EventV::RequestImage { id: id@ },
            Event::RespondImage { id, url } => EventV::RespondImage { id: id@, url: url@ },
            Event::RequestEcho { name } => EventV::RequestEcho { name: name@ },
            Event::RespondEcho { name } => EventV::RespondEcho { name: name@ },
        }
    }
}

impl EventV {
    /// Every byte field fits a CBOR length argument.
    pub open spec fn wf(self) -> bool {
        match self {
            EventV::RequestImage { id } => id.len() <= u64::MAX,
            EventV::RespondImage { id, url } => id.len() <= u64::MAX && url.len() <= u64::MAX,
            EventV::RequestEcho { name } => name.len() <= u64::MAX,
            EventV::RespondEcho { name } => name.len() <= u64::MAX,
        }
    }
}

/// Number of entries an event payload map has, its own tag entry included.
pub open spec fn event_payload_cnt(e: EventV) -> u64 {
    match e {
        EventV::RespondImage { id, url } => 4,
        _ => 3,
    }
}

/// The event entries of a payload map, after the payload tag: the event's
/// own tag entry, then the variant's fields.
pub open spec fn enc_event_fields(e: EventV) -> Seq<u8> {
    match e {
        EventV::RequestImage { id } => enc_lit_seq(Atom::KeyT) + enc_lit_seq(Atom::ValRequestImage)
            + enc_lit_seq(Atom::KeyId) + enc_str_seq(MAJOR_BYTES, id),
        EventV::RespondImage { id, url } => enc_lit_seq(Atom::KeyT) + enc_lit_seq(
            Atom::ValRespondImage,
        ) + enc_lit_seq(Atom::KeyId) + enc_str_seq(MAJOR_BYTES, id) + enc_lit_seq(Atom::KeyUrl)
            + enc_str_seq(MAJOR_TEXT, url),
        EventV::RequestEcho { name } => enc_lit_seq(Atom::KeyT) + enc_lit_seq(Atom::ValRequestEcho)
            + enc_lit_seq(Atom::KeyName) + enc_str_seq(MAJOR_TEXT, name),
        EventV::RespondEcho { name } => enc_lit_seq(Atom::KeyT) + enc_lit_seq(Atom::ValRespondEcho)
            + enc_lit_seq(Atom::KeyName) + enc_str_seq(MAJOR_TEXT, name),
    }
}

/// Reads the event entries of a payload map whose entry count is `cnt`. A
/// tag that is not recognised fails the decode; the transport logs and drops
/// such payloads.
pub open spec fn dec_event_fields(s: Seq<u8>, i: int, cnt: u64) -> Option<(EventV, int)> {
    match dec_lit(s, i, Atom::KeyT) {
        Some(j0) => match dec_str(s, j0, MAJOR_TEXT) {
            Some((tag, j1)) => if tag == atom_seq(Atom::ValRequestImage) {
                if cnt == 3 {
                    match dec_lit(s, j1, Atom::KeyId) {
                        Some(j2) => match dec_str(s, j2, MAJOR_BYTES) {
                            Some((idv, j3)) => Some((EventV::RequestImage { id: idv }, j3)),
                            None => None,
                        },
                        None => None,
                    }
                } else {
                    None
                }
            } else if tag == atom_seq(Atom::ValRespondImage) {
                if cnt == 4 {
                    match dec_lit(s, j1, Atom::KeyId) {
                        Some(j2) => match dec_str(s, j2, MAJOR_BYTES) {
                            Some((idv, j3)) => match dec_lit(s, j3, Atom::KeyUrl) {
                                Some(j4) => match dec_str(s, j4, MAJOR_TEXT) {
                                    Some((u, j5)) => Some(
                                        (EventV::RespondImage { id: idv, url: u }, j5),
                                    ),
                                    None => None,
                                },
                                None => None,
                            },
                            None => None,
                        },
                        None => None,
                    }
                } else {
                    None
                }
            } else if tag == atom_seq(Atom::ValRequestEcho) {
                if cnt == 3 {
                    match dec_lit(s, j1, Atom::KeyName) {
                        Some(j2) => match dec_str(s, j2, MAJOR_TEXT) {
                            Some((n, j3)) => Some((EventV::RequestEcho { name: n }, j3)),
                            None => None,
                        },
                        None => None,
                    }
                } else {
                    None
                }
            } else if tag == atom_seq(Atom::ValRespondEcho) {
                if cnt == 3 {
                    match dec_lit(s, j1, Atom::KeyName) {
                        Some(j2) => match dec_str(s, j2, MAJOR_TEXT) {
                            Some((n, j3)) => Some((EventV::RespondEcho { name: n }, j3)),
                            None => None,
                        },
                        None => None,
                    }
                } else {
                    None
                }
            } else {
                None
            },
            None => None,
        },
        None => None,
    }
}

/// Decoding the event entries written at `i` yields the event back.
#[verifier::rlimit(100)]
#[verifier::spinoff_prover]
pub proof fn lemma_event_fields_rt(s: Seq<u8>, i: int, e: EventV)
    requires
        e.wf(),
        0 <= i,
        i + enc_event_fields(e).len() <= s.len(),
        s.subrange(i, i + enc_event_fields(e).len() as int) == enc_event_fields(e),
    ensures
        dec_event_fields(s, i, event_payload_cnt(e)) == Some(
            (e, i + enc_event_fields(e).len() as int),
        ),
{
    let enc = enc_event_fields(e);
    let end = i + enc.len() as int;
    let a1 = enc_lit_seq(Atom::KeyT);
    assert(atom_seq(Atom::ValRequestImage) != atom_seq(Atom::ValRespondImage) && atom_seq(
        Atom::ValRequestImage,
    ) != atom_seq(Atom::ValRequestEcho) && atom_seq(Atom::ValRequestImage) != atom_seq(
        Atom::ValRespondEcho,
    ) && atom_seq(Atom::ValRespondImage) != atom_seq(Atom::ValRequestEcho) && atom_seq(
        Atom::ValRespondImage,
    ) != atom_seq(Atom::ValRespondEcho) && atom_seq(Atom::ValRequestEcho) != atom_seq(
        Atom::ValRespondEcho,
    )) by {
        reveal(crate::atoms::atom_seq);
    }
    match e {
        EventV::RequestImage { id } => {
            let a2 = enc_lit_seq(Atom::ValRequestImage);
            let a3 = enc_lit_seq(Atom::KeyId);
            let a4 = enc_str_seq(MAJOR_BYTES, id);
            assert(enc =~= a1 + (a2 + (a3 + a4)));
            lemma_prefix_split(s, i, a1, a2 + (a3 + a4));
            lemma_lit_rt(s, i, Atom::KeyT);
            let i1 = i + a1.len() as int;
            lemma_prefix_split(s, i1, a2, a3 + a4);
            lemma_atom_len(Atom::ValRequestImage);
            lemma_str_rt(s, i1, MAJOR_TEXT, atom_seq(Atom::ValRequestImage));
            let i2 = i1 + a2.len() as int;
            lemma_prefix_split(s, i2, a3, a4);
            lemma_lit_rt(s, i2, Atom::KeyId);
            let i3 = i2 + a3.len() as int;
            lemma_str_rt(s, i3, MAJOR_BYTES, id);
            assert(dec_event_fields(s, i, 3) == Some((e, end)));
        },
        EventV::RespondImage { id, url } => {
            let a2 = enc_lit_seq(Atom::ValRespondImage);
            let a3 = enc_lit_seq(Atom::KeyId);
            let a4 = enc_str_seq(MAJOR_BYTES, id);
            let a5 = enc_lit_seq(Atom::KeyUrl);
            let a6 = enc_str_seq(MAJOR_TEXT, url);
            assert(enc =~= a1 + (a2 + (a3 + (a4 + (a5 + a6)))));
            lemma_prefix_split(s, i, a1, a2 + (a3 + (a4 + (a5 + a6))));
            lemma_lit_rt(s, i, Atom::KeyT);
            let i1 = i + a1.len() as int;
            lemma_prefix_split(s, i1, a2, a3 + (a4 + (a5 + a6)));
            lemma_atom_len(Atom::ValRespondImage);
            lemma_str_rt(s, i1, MAJOR_TEXT, atom_seq(Atom::ValRespondImage));
            let i2 = i1 + a2.len() as int;
            lemma_prefix_split(s, i2, a3, a4 + (a5 + a6));
            lemma_lit_rt(s, i2, Atom::KeyId);
            let i3 = i2 + a3.len() as int;
            lemma_prefix_split(s, i3, a4, a5 + a6);
            lemma_str_rt(s, i3, MAJOR_BYTES, id);
            let i4 = i3 + a4.len() as int;
            lemma_prefix_split(s, i4, a5, a6);
            lemma_lit_rt(s, i4, Atom::KeyUrl);
            let i5 = i4 + a5.len() as int;
            lemma_str_rt(s, i5, MAJOR_TEXT, url);
            assert(dec_event_fields(s, i, 4) == Some((e, end)));
        },
        EventV::RequestEcho { name } => {
            let a2 = enc_lit_seq(Atom::ValRequestEcho);
            let a3 = enc_lit_seq(Atom::KeyName);
            let a4 = enc_str_seq(MAJOR_TEXT, name);
            assert(enc =~= a1 + (a2 + (a3 + a4)));
            lemma_prefix_split(s, i, a1, a2 + (a3 + a4));
            lemma_lit_rt(s, i, Atom::KeyT);
            let i1 = i + a1.len() as int;
            lemma_prefix_split(s, i1, a2, a3 + a4);
            lemma_atom_len(Atom::ValRequestEcho);
            lemma_str_rt(s, i1, MAJOR_TEXT, atom_seq(Atom::ValRequestEcho));
            let i2 = i1 + a2.len() as int;
            lemma_prefix_split(s, i2, a3, a4);
            lemma_lit_rt(s, i2, Atom::KeyName);
            let i3 = i2 + a3.len() as int;
            lemma_str_rt(s, i3, MAJOR_TEXT, name);
            assert(dec_event_fields(s, i, 3) == Some((e, end)));
        },
        EventV::RespondEcho { name } => {
            let a2 = enc_lit_seq(Atom::ValRespondEcho);
            let a3 = enc_lit_seq(Atom::KeyName);
            let a4 = enc_str_seq(MAJOR_TEXT, name);
            assert(enc =~= a1 + (a2 + (a3 + a4)));
            lemma_prefix_split(s, i, a1, a2 + (a3 + a4));
            lemma_lit_rt(s, i, Atom::KeyT);
            let i1 = i + a1.len() as int;
            lemma_prefix_split(s, i1, a2, a3 + a4);
            lemma_atom_len(Atom::ValRespondEcho);
            lemma_str_rt(s, i1, MAJOR_TEXT, atom_seq(Atom::ValRespondEcho));
            let i2 = i1 + a2.len() as int;
            lemma_prefix_split(s, i2, a3, a4);
            lemma_lit_rt(s, i2, Atom::KeyName);
            let i3 = i2 + a3.len() as int;
            lemma_str_rt(s, i3, MAJOR_TEXT, name);
            assert(dec_event_fields(s, i, 3) == Some((e, end)));
        },
    }
}

/// Writes the event entries of a payload map.
pub fn write_event_fields(out: &mut Vec<u8>, e: &Event)
    ensures
        final(out)@ == old(out)@ + enc_event_fields(e@),
{
    match e {
        Event::RequestImage { id } => {
            write_lit(out, Atom::KeyT);
            write_lit(out, Atom::ValRequestImage);
            write_lit(out, Atom::KeyId);
            write_str(out, MAJOR_BYTES, id.as_slice());
        },
        Event::RespondImage { id, url } => {
            write_lit(out, Atom::KeyT);
            write_lit(out, Atom::ValRespondImage);
            write_lit(out, Atom::KeyId);
            write_str(out, MAJOR_BYTES, id.as_slice());
            write_lit(out, Atom::KeyUrl);
            write_str(out, MAJOR_TEXT, url.as_slice());
        },
        Event::RequestEcho { name } => {
            write_lit(out, Atom::KeyT);
            write_lit(out, Atom::ValRequestEcho);
            write_lit(out, Atom::KeyName);
            write_str(out, MAJOR_TEXT, name.as_slice());
        },
        Event::RespondEcho { name } => {
            write_lit(out, Atom::KeyT);
            write_lit(out, Atom::ValRespondEcho);
            write_lit(out, Atom::KeyName);
            write_str(out, MAJOR_TEXT, name.as_slice());
        },
    }
    proof {
        assert(out@ =~= old(out)@ + enc_event_fields(e@));
    }
}

/// Reads the event entries of a payload map; mirrors `dec_event_fields`.
pub fn read_event_fields(s: &[u8], pos: usize, cnt: u64) -> (r: Option<(Event, usize)>)
    ensures
        match r {
            Some(t) => dec_event_fields(s@, pos as int, cnt) == Some((t.0@, t.1 as int)) && t.1
                <= s@.len(),
            None => dec_event_fields(s@, pos as int, cnt) is None,
        },
{
    let j0 = match read_lit(s, pos, Atom::KeyT) {
        Some(j) => j,
        None => {
            return None;
        },
    };
    let (tag, j1) = match read_str(s, j0, MAJOR_TEXT) {
        Some(t) => t,
        None => {
            return None;
        },
    };
    if bytes_eq(tag.as_slice(), atom_vec(Atom::ValRequestImage).as_slice()) {
        if cnt != 3 {
            return None;
        }
        let j2 = match read_lit(s, j1, Atom::KeyId) {
            Some(j) => j,
            None => {
                return None;
            },
        };
        let (idv, j3) = match read_str(s, j2, MAJOR_BYTES) {
            Some(t) => t,
            None => {
                return None;
            },
        };
        Some((Event::RequestImage { id: idv }, j3))
    } else if bytes_eq(tag.as_slice(), atom_vec(Atom::ValRespondImage).as_slice()) {
        if cnt != 4 {
            return None;
        }
        let j2 = match read_lit(s, j1, Atom::KeyId) {
            Some(j) => j,
            None => {
                return None;
            },
        };
        let (idv, j3) = match read_str(s, j2, MAJOR_BYTES) {
            Some(t) => t,
            None => {
                return None;
            },
        };
        let j4 = match read_lit(s, j3, Atom::KeyUrl) {
            Some(j) => j,
            None => {
                return None;
            },
        };
        let (u, j5) = match read_str(s, j4, MAJOR_TEXT) {
            Some(t) => t,
            None => {
                return None;
            },
        };
        Some((Event::RespondImage { id: idv, url: u }, j5))
    } else if bytes_eq(tag.as_slice(), atom_vec(Atom::ValRequestEcho).as_slice()) {
        if cnt != 3 {
            return None;
        }
        let j2 = match read_lit(s, j1, Atom::KeyName) {
            Some(j) => j,
            None => {
                return None;
            },
        };
        let (n, j3) = match read_str(s, j2, MAJOR_TEXT) {
            Some(t) => t,
            None => {
                return None;
            },
        };
        Some((Event::RequestEcho { name: n }, j3))
    } else if bytes_eq(tag.as_slice(), atom_vec(Atom::ValRespondEcho).as_slice()) {
        if cnt != 3 {
            return None;
        }
        let j2 = match read_lit(s, j1, Atom::KeyName) {
            Some(j) => j,
            None => {
                return None;
            },
        };
        let (n, j3) = match read_str(s, j2, MAJOR_TEXT) {
            Some(t) => t,
            None => {
                return None;
            },
        };
        Some((Event::RespondEcho { name: n }, j3))
    } else {
        None
    }
}

} // verus!
