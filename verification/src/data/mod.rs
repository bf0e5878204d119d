//! The on-wire envelope and its plaintext payload: the data model, the CBOR
//! codec for both layers, the packet constructors and decryption, and the
//! round-trip laws.

pub mod events;
pub mod message;

use vstd::prelude::*;

use crate::atoms::Atom;
use crate::atoms::atom_seq;
use crate::atoms::atom_vec;
use crate::cbor::MAJOR_BYTES;
use crate::cbor::MAJOR_MAP;
use crate::cbor::MAJOR_TEXT;
use crate::cbor::dec_hdr;
use crate::cbor::dec_lit;
use crate::cbor::dec_str;
use crate::cbor::enc_lit_seq;
use crate::cbor::enc_str_seq;
use crate::cbor::hdr_seq;
use crate::cbor::lemma_hdr_rt;
use crate::cbor::lemma_lit_rt;
use crate::cbor::lemma_prefix_split;
use crate::cbor::lemma_str_rt;
use crate::cbor::read_hdr;
use crate::cbor::read_lit;
use crate::cbor::read_str;
use crate::cbor::write_hdr;
use crate::cbor::write_lit;
use crate::cbor::write_str;
use crate::data::events::Event;
use crate::data::events::EventV;
use crate::data::events::dec_event_fields;
use crate::data::events::enc_event_fields;
use crate::data::events::event_payload_cnt;
use crate::data::events::lemma_event_fields_rt;
use crate::data::events::read_event_fields;
use crate::data::events::write_event_fields;
use crate::data::message::Message;
use crate::data::message::MessageV;
use crate::data::message::MessageType;
use crate::data::message::dec_msg_fields;
use crate::data::message::enc_msg_fields;
use crate::data::message::lemma_msg_fields_rt;
use crate::data::message::read_msg_fields;
use crate::data::message::write_msg_fields;
use crate::cipher::Cipher;
use crate::cipher::aead_open;
use crate::cipher::aead_seal;
use crate::error::Error;

verus! {

/// Abstract value of a `Payload`.
pub enum PayloadV {
    MsgPayload(MessageV),
    EventPayload(EventV),
}

/// The plaintext inside a packet: a chat message or a control event,
/// discriminated on the wire by a single-character tag.
#[derive(Debug, Clone, PartialEq, Eq)]
pub enum Payload {
    MsgPayload(Message),
    EventPayload(Event),
}

impl View for Payload {
    type V = PayloadV;

    open spec fn view(&self) -> PayloadV {
        match self {
            Payload::MsgPayload(m) => PayloadV::MsgPayload(m@),
            Payload::EventPayload(e) => PayloadV::EventPayload(e@),
        }
    }
}

impl PayloadV {
    /// Every field fits its CBOR length argument.
    pub open spec fn wf(self) -> bool {
        match self {
            PayloadV::MsgPayload(m) => m.wf(),
            PayloadV::EventPayload(e) => e.wf(),
        }
    }
}

impl From<Message> for Payload {
    fn from(m: Message) -> (r: Payload) {
        Payload::MsgPayload(m)
    }
}

impl vstd::std_specs::convert::FromSpecImpl<Message> for Payload {
    open spec fn obeys_from_spec() -> bool {
        true
    }

    open spec fn from_spec(m: Message) -> Payload {
        Payload::MsgPayload(m)
    }
}

impl From<Event> for Payload {
    fn from(e: Event) -> (r: Payload) {
        Payload::EventPayload(e)
    }
}

impl vstd::std_specs::convert::FromSpecImpl<Event> for Payload {
    open spec fn obeys_from_spec() -> bool {
        true
    }

    open spec fn from_spec(e: Event) -> Payload {
        Payload::EventPayload(e)
    }
}

/// Number of entries of the payload map, the tag entry included.
pub open spec fn payload_cnt(p: PayloadV) -> u64 {
    match p {
        PayloadV::MsgPayload(m) => if m.reply is Some {
            6
        } else {
            5
        },
        PayloadV::EventPayload(e) => event_payload_cnt(e),
    }
}

/// The payload map: tagged `m` for a message and `e` for an event, the
/// variant's entries following.
pub open spec fn enc_payload(p: PayloadV) -> Seq<u8> {
    match p {
        PayloadV::MsgPayload(m) => hdr_seq(MAJOR_MAP, payload_cnt(p)) + enc_lit_seq(Atom::KeyT)
            + enc_lit_seq(Atom::ValM) + enc_msg_fields(m),
        PayloadV::EventPayload(e) => hdr_seq(MAJOR_MAP, payload_cnt(p)) + enc_lit_seq(Atom::KeyT)
            + enc_lit_seq(Atom::ValE) + enc_event_fields(e),
    }
}

/// Reads a payload map at `i`. A payload tag that is neither `m` nor `e`
/// fails the decode.
pub open spec fn dec_payload_at(s: Seq<u8>, i: int) -> Option<(PayloadV, int)> {
    match dec_hdr(s, i) {
        Some((m, cnt, j0)) => if m == MAJOR_MAP && cnt >= 1 {
            match dec_lit(s, j0, Atom::KeyT) {
                Some(j1) => match dec_str(s, j1, MAJOR_TEXT) {
                    Some((tag, j2)) => if tag == atom_seq(Atom::ValM) {
                        if cnt == 5 || cnt == 6 {
                            match dec_msg_fields(s, j2, cnt == 6) {
                                Some((mv, j3)) => Some((PayloadV::MsgPayload(mv), j3)),
                                None => None,
                            }
                        } else {
                            None
                        }
                    } else if tag == atom_seq(Atom::ValE) {
                        match dec_event_fields(s, j2, cnt) {
                            Some((ev, j3)) => Some((PayloadV::EventPayload(ev), j3)),
                            None => None,
                        }
                    } else {
                        None
                    },
                    None => None,
                },
                None => None,
            }
        } else {
            None
        },
        None => None,
    }
}

/// Reads a whole byte string as one payload; trailing bytes are refused.
pub open spec fn dec_payload(s: Seq<u8>) -> Option<PayloadV> {
    match dec_payload_at(s, 0) {
        Some((p, j)) => if j == s.len() {
            Some(p)
        } else {
            None
        },
        None => None,
    }
}

/// Decoding the payload written at `i` yields it back.
#[verifier::rlimit(100)]
#[verifier::spinoff_prover]
pub proof fn lemma_payload_rt(s: Seq<u8>, i: int, p: PayloadV)
    requires
        p.wf(),
        0 <= i,
        i + enc_payload(p).len() <= s.len(),
        s.subrange(i, i + enc_payload(p).len() as int) == enc_payload(p),
    ensures
        dec_payload_at(s, i) == Some((p, i + enc_payload(p).len() as int)),
{
    let e = enc_payload(p);
    let end = i + e.len() as int;
    let cnt = payload_cnt(p);
    let a1 = hdr_seq(MAJOR_MAP, cnt);
    let a2 = enc_lit_seq(Atom::KeyT);
    assert(atom_seq(Atom::ValM) != atom_seq(Atom::ValE)) by {
        reveal(crate::atoms::atom_seq);
        assert(atom_seq(Atom::ValM)[0] == 109u8);
        assert(atom_seq(Atom::ValE)[0] == 101u8);
    }
    match p {
        PayloadV::MsgPayload(m) => {
            let a3 = enc_lit_seq(Atom::ValM);
            let a4 = enc_msg_fields(m);
            assert(e =~= a1 + (a2 + (a3 + a4)));
            lemma_prefix_split(s, i, a1, a2 + (a3 + a4));
            lemma_hdr_rt(s, i, MAJOR_MAP, cnt);
            let i1 = i + a1.len() as int;
            lemma_prefix_split(s, i1, a2, a3 + a4);
            lemma_lit_rt(s, i1, Atom::KeyT);
            let i2 = i1 + a2.len() as int;
            lemma_prefix_split(s, i2, a3, a4);
            crate::atoms::lemma_atom_len(Atom::ValM);
            lemma_str_rt(s, i2, MAJOR_TEXT, atom_seq(Atom::ValM));
            let i3 = i2 + a3.len() as int;
            lemma_msg_fields_rt(s, i3, m);
            assert((cnt == 6) == (m.reply is Some));
            assert(dec_payload_at(s, i) == Some((p, end)));
        },
        PayloadV::EventPayload(ev) => {
            let a3 = enc_lit_seq(Atom::ValE);
            let a4 = enc_event_fields(ev);
            assert(e =~= a1 + (a2 + (a3 + a4)));
            lemma_prefix_split(s, i, a1, a2 + (a3 + a4));
            lemma_hdr_rt(s, i, MAJOR_MAP, cnt);
            let i1 = i + a1.len() as int;
            lemma_prefix_split(s, i1, a2, a3 + a4);
            lemma_lit_rt(s, i1, Atom::KeyT);
            let i2 = i1 + a2.len() as int;
            lemma_prefix_split(s, i2, a3, a4);
            crate::atoms::lemma_atom_len(Atom::ValE);
            lemma_str_rt(s, i2, MAJOR_TEXT, atom_seq(Atom::ValE));
            let i3 = i2 + a3.len() as int;
            lemma_event_fields_rt(s, i3, ev);
            assert(dec_payload_at(s, i) == Some((p, end)));
        },
    }
}

/// The payload codec inverts itself: decoding an encoded payload yields the
/// payload back.
pub proof fn lemma_payload_round_trip(p: PayloadV)
    requires
        p.wf(),
    ensures
        dec_payload(enc_payload(p)) == Some(p),
{
    let e = enc_payload(p);
    assert(e.subrange(0, e.len() as int) =~= e);
    lemma_payload_rt(e, 0, p);
}

/// Every view of an executable message type value fits its CBOR length
/// arguments.
pub proof fn lemma_msgty_wf(t: MessageType)
    ensures
        t@.wf(),
{
    match t {
        MessageType::Text { content } => {
            vstd::std_specs::vec::axiom_spec_len(&content);
        },
        MessageType::Edit { content } => {
            vstd::std_specs::vec::axiom_spec_len(&content);
        },
        MessageType::Image { id, url } => {
            vstd::std_specs::vec::axiom_spec_len(&id);
            match url {
                Some(u) => {
                    vstd::std_specs::vec::axiom_spec_len(&u);
                },
                None => {},
            }
        },
    }
}

/// Every view of an executable message value fits its CBOR length arguments.
pub proof fn lemma_message_wf(m: &Message)
    ensures
        m@.wf(),
{
    vstd::std_specs::vec::axiom_spec_len(&m.profile.id);
    match m.profile.username {
        Some(u) => {
            vstd::std_specs::vec::axiom_spec_len(&u);
        },
        None => {},
    }
    match m.profile.nick {
        Some(n) => {
            vstd::std_specs::vec::axiom_spec_len(&n);
        },
        None => {},
    }
    vstd::std_specs::vec::axiom_spec_len(&m.id);
    match m.reply {
        Some(r) => {
            vstd::std_specs::vec::axiom_spec_len(&r);
        },
        None => {},
    }
    vstd::std_specs::vec::axiom_spec_len(&m.chain);
    vstd::std_specs::vec::axiom_spec_len(&m.from);
    assert forall|k: int| 0 <= k < m@.chain.len() implies (#[trigger] m@.chain[k]).wf() by {
        assert(m@.chain[k] == m.chain@[k]@);
        lemma_msgty_wf(m.chain@[k]);
    }
}

/// Every view of an executable event value fits its CBOR length arguments.
pub proof fn lemma_event_wf(e: &Event)
    ensures
        e@.wf(),
{
    match e {
        Event::RequestImage { id } => {
            vstd::std_specs::vec::axiom_spec_len(id);
        },
        Event::RespondImage { id, url } => {
            vstd::std_specs::vec::axiom_spec_len(id);
            vstd::std_specs::vec::axiom_spec_len(url);
        },
        Event::RequestEcho { name } => {
            vstd::std_specs::vec::axiom_spec_len(name);
        },
        Event::RespondEcho { name } => {
            vstd::std_specs::vec::axiom_spec_len(name);
        },
    }
}

/// Every view of an executable payload value fits its CBOR length arguments.
pub proof fn lemma_payload_wf(p: &Payload)
    ensures
        p@.wf(),
{
    match p {
        Payload::MsgPayload(m) => {
            lemma_message_wf(m);
        },
        Payload::EventPayload(e) => {
            lemma_event_wf(e);
        },
    }
}

impl Payload {
    /// Serialises the payload as its wire bytes. Every payload value a
    /// caller can build serialises; the `Result` keeps the caller's error
    /// handling uniform with decoding.
    pub fn to_cbor(&self) -> (r: Result<Vec<u8>, Error>)
        ensures
            match r {
                Ok(b) => b@ == enc_payload(self@),
                Err(_) => false,
            },
    {
        proof {
            lemma_payload_wf(self);
        }
        let mut out: Vec<u8> = Vec::new();
        match self {
            Payload::MsgPayload(m) => {
                let cnt: u64 = if m.reply.is_some() {
                    6
                } else {
                    5
                };
                write_hdr(&mut out, MAJOR_MAP, cnt);
                write_lit(&mut out, Atom::KeyT);
                write_lit(&mut out, Atom::ValM);
                write_msg_fields(&mut out, m);
            },
            Payload::EventPayload(e) => {
                let cnt: u64 = match e {
                    Event::RespondImage { .. } => 4,
                    _ => 3,
                };
                write_hdr(&mut out, MAJOR_MAP, cnt);
                write_lit(&mut out, Atom::KeyT);
                write_lit(&mut out, Atom::ValE);
                write_event_fields(&mut out, e);
            },
        }
        proof {
            assert(out@ =~= enc_payload(self@));
        }
        Ok(out)
    }

    /// Parses one payload out of a whole byte string.
    pub fn from_cbor(data: &[u8]) -> (r: Result<Payload, Error>)
        ensures
            match r {
                Ok(p) => dec_payload(data@) == Some(p@) && p@.wf(),
                Err(e) => dec_payload(data@) is None && e == Error::Decode,
            },
    {
        let (m, cnt, j0) = match read_hdr(data, 0) {
            Some(t) => t,
            None => {
                return Err(Error::Decode);
            },
        };
        if !(m == MAJOR_MAP && cnt >= 1) {
            return Err(Error::Decode);
        }
        let j1 = match read_lit(data, j0, Atom::KeyT) {
            Some(j) => j,
            None => {
                return Err(Error::Decode);
            },
        };
        let (tag, j2) = match read_str(data, j1, MAJOR_TEXT) {
            Some(t) => t,
            None => {
                return Err(Error::Decode);
            },
        };
        let r: (Payload, usize) = if crate::util::bytes_eq(
            tag.as_slice(),
            atom_vec(Atom::ValM).as_slice(),
        ) {
            if !(cnt == 5 || cnt == 6) {
                return Err(Error::Decode);
            }
            match read_msg_fields(data, j2, cnt == 6) {
                Some((mv, j3)) => (Payload::MsgPayload(mv), j3),
                None => {
                    return Err(Error::Decode);
                },
            }
        } else if crate::util::bytes_eq(tag.as_slice(), atom_vec(Atom::ValE).as_slice()) {
            match read_event_fields(data, j2, cnt) {
                Some((ev, j3)) => (Payload::EventPayload(ev), j3),
                None => {
                    return Err(Error::Decode);
                },
            }
        } else {
            return Err(Error::Decode);
        };
        if r.1 != data.len() {
            return Err(Error::Decode);
        }
        proof {
            lemma_payload_wf(&r.0);
        }
        Ok(r.0)
    }
}


/// Transport-level control: subscribe to or unsubscribe from a room.
#[derive(Debug, Clone, Copy, PartialEq, Eq, Structural)]
pub enum Ctl {
    Sub,
    Unsub,
}

/// The envelope type: an encrypted chat message, an encrypted control
/// event, or a transport-level control packet.
#[derive(Debug, Clone, Copy, PartialEq, Eq, Structural)]
pub enum PacketKind {
    Message,
    Event,
    Ctl,
}

/// Abstract value of an `Inbox`.
pub enum InboxV {
    Request { id: Seq<u8> },
    Respond { id: Seq<u8> },
}

/// Correlates a request packet with its response: both carry the same
/// 16-byte id.
#[derive(Debug, Clone, PartialEq, Eq)]
pub enum Inbox {
    Request { id: Vec<u8> },
    Respond { id: Vec<u8> },
}

impl View for Inbox {
    type V = InboxV;

    open spec fn view(&self) -> InboxV {
        match self {
            Inbox::Request { id } => InboxV::Request { id: id@ },
            Inbox::Respond { id } => InboxV::Respond { id: id@ },
        }
    }
}

impl InboxV {
    /// The correlation id, whichever direction the token points.
    pub open spec fn id_seq(self) -> Seq<u8> {
        match self {
            InboxV::Request { id } => id,
            InboxV::Respond { id } => id,
        }
    }
}

/// Abstract value of a `Packet`.
pub struct PacketV {
    pub ty: PacketKind,
    pub content: Seq<u8>,
    pub nonce: Seq<u8>,
    pub room_id: Seq<u8>,
    pub inbox: Option<InboxV>,
    pub ctl: Option<Ctl>,
}

/// The on-wire envelope: the ciphertext of a payload with its nonce and the
/// room it belongs to, or a bare control packet.
#[derive(Debug, Clone, PartialEq, Eq)]
pub struct Packet {
    pub ty: PacketKind,
    pub content: Vec<u8>,
    pub nonce: Vec<u8>,
    pub room_id: Vec<u8>,
    pub inbox: Option<Inbox>,
    pub ctl: Option<Ctl>,
}

impl View for Packet {
    type V = PacketV;

    open spec fn view(&self) -> PacketV {
        PacketV {
            ty: self.ty,
            content: self.content@,
            nonce: self.nonce@,
            room_id: self.room_id@,
            inbox: match self.inbox {
                Some(ib) => Some(ib@),
                None => None,
            },
            ctl: self.ctl,
        }
    }
}

impl PacketV {
    /// The envelope invariants: a 16-byte room id; a control packet has
    /// empty content and nonce, a populated control field and no inbox; an
    /// encrypted packet has a 12-byte nonce, non-empty content and no
    /// control field.
    pub open spec fn wf(self) -> bool {
        &&& self.room_id.len() == 16
        &&& self.content.len() <= u64::MAX
        &&& match self.inbox {
            Some(ib) => ib.id_seq().len() == 16,
            None => true,
        }
        &&& match self.ty {
            PacketKind::Ctl => self.content.len() == 0 && self.nonce.len() == 0 && self.ctl
                is Some && self.inbox is None,
            _ => self.nonce.len() == 12 && self.content.len() > 0 && self.ctl is None,
        }
    }
}

/// The text tag of an envelope type.
pub open spec fn kind_atom(k: PacketKind) -> Atom {
    match k {
        PacketKind::Message => Atom::ValMessage,
        PacketKind::Event => Atom::ValEvent,
        PacketKind::Ctl => Atom::KeyCtl,
    }
}

/// The text tag of a control value.
pub open spec fn ctl_atom(c: Ctl) -> Atom {
    match c {
        Ctl::Sub => Atom::ValSub,
        Ctl::Unsub => Atom::ValUnsub,
    }
}

/// The text tag of an inbox direction.
pub open spec fn inbox_atom(ib: InboxV) -> Atom {
    match ib {
        InboxV::Request { id } => Atom::ValReq,
        InboxV::Respond { id } => Atom::ValRes,
    }
}

/// The inbox map: `{ t: "req" | "res", id: bytes }`.
pub open spec fn enc_inbox(ib: InboxV) -> Seq<u8> {
    hdr_seq(MAJOR_MAP, 2) + enc_lit_seq(Atom::KeyT) + enc_lit_seq(inbox_atom(ib)) + enc_lit_seq(
        Atom::KeyId,
    ) + enc_str_seq(MAJOR_BYTES, ib.id_seq())
}

/// Reads an inbox map at `i`.
pub open spec fn dec_inbox(s: Seq<u8>, i: int) -> Option<(InboxV, int)> {
    match dec_hdr(s, i) {
        Some((m, cnt, j0)) => if m == MAJOR_MAP && cnt == 2 {
            match dec_lit(s, j0, Atom::KeyT) {
                Some(j1) => match dec_str(s, j1, MAJOR_TEXT) {
                    Some((tag, j2)) => if tag == atom_seq(Atom::ValReq) || tag == atom_seq(
                        Atom::ValRes,
                    ) {
                        match dec_lit(s, j2, Atom::KeyId) {
                            Some(j3) => match dec_str(s, j3, MAJOR_BYTES) {
                                Some((idv, j4)) => if tag == atom_seq(Atom::ValReq) {
                                    Some((InboxV::Request { id: idv }, j4))
                                } else {
                                    Some((InboxV::Respond { id: idv }, j4))
                                },
                                None => None,
                            },
                            None => None,
                        }
                    } else {
                        None
                    },
                    None => None,
                },
                None => None,
            }
        } else {
            None
        },
        None => None,
    }
}

/// The control map: `{ t: "sub" | "unsub" }`.
pub open spec fn enc_ctl(c: Ctl) -> Seq<u8> {
    hdr_seq(MAJOR_MAP, 1) + enc_lit_seq(Atom::KeyT) + enc_lit_seq(ctl_atom(c))
}

/// Reads a control map at `i`.
pub open spec fn dec_ctl(s: Seq<u8>, i: int) -> Option<(Ctl, int)> {
    match dec_hdr(s, i) {
        Some((m, cnt, j0)) => if m == MAJOR_MAP && cnt == 1 {
            match dec_lit(s, j0, Atom::KeyT) {
                Some(j1) => match dec_str(s, j1, MAJOR_TEXT) {
                    Some((tag, j2)) => if tag == atom_seq(Atom::ValSub) {
                        Some((Ctl::Sub, j2))
                    } else if tag == atom_seq(Atom::ValUnsub) {
                        Some((Ctl::Unsub, j2))
                    } else {
                        None
                    },
                    None => None,
                },
                None => None,
            }
        } else {
            None
        },
        None => None,
    }
}

/// Number of entries of the envelope map.
pub open spec fn packet_cnt(p: PacketV) -> u64 {
    (4 + (if p.inbox is Some {
        1int
    } else {
        0int
    }) + (if p.ctl is Some {
        1int
    } else {
        0int
    })) as u64
}

/// The fixed envelope entries after the type tag: `c`, `n` and `rid`.
pub open spec fn enc_packet_core(p: PacketV) -> Seq<u8> {
    enc_lit_seq(Atom::KeyC) + enc_str_seq(MAJOR_BYTES, p.content) + enc_lit_seq(Atom::KeyN)
        + enc_str_seq(MAJOR_BYTES, p.nonce) + enc_lit_seq(Atom::KeyRid) + enc_str_seq(
        MAJOR_BYTES,
        p.room_id,
    )
}

/// The optional envelope entries: `inbox` and `ctl`, omitted when absent.
pub open spec fn enc_packet_opts(p: PacketV) -> Seq<u8> {
    (match p.inbox {
        Some(ib) => enc_lit_seq(Atom::KeyInbox) + enc_inbox(ib),
        None => Seq::<u8>::empty(),
    }) + (match p.ctl {
        Some(c) => enc_lit_seq(Atom::KeyCtl) + enc_ctl(c),
        None => Seq::<u8>::empty(),
    })
}

/// The envelope map.
pub open spec fn enc_packet(p: PacketV) -> Seq<u8> {
    hdr_seq(MAJOR_MAP, packet_cnt(p)) + enc_lit_seq(Atom::KeyT) + enc_lit_seq(kind_atom(p.ty))
        + enc_packet_core(p) + enc_packet_opts(p)
}

/// Reads the fixed envelope entries after the type tag.
pub open spec fn dec_packet_core(s: Seq<u8>, i: int) -> Option<((Seq<u8>, Seq<u8>, Seq<u8>), int)> {
    match dec_lit(s, i, Atom::KeyC) {
        Some(j0) => match dec_str(s, j0, MAJOR_BYTES) {
            Some((c, j1)) => match dec_lit(s, j1, Atom::KeyN) {
                Some(j2) => match dec_str(s, j2, MAJOR_BYTES) {
                    Some((n, j3)) => match dec_lit(s, j3, Atom::KeyRid) {
                        Some(j4) => match dec_str(s, j4, MAJOR_BYTES) {
                            Some((rid, j5)) => Some(((c, n, rid), j5)),
                            None => None,
                        },
                        None => None,
                    },
                    None => None,
                },
                None => None,
            },
            None => None,
        },
        None => None,
    }
}

/// Reads the optional envelope entries, given how many remain.
pub open spec fn dec_packet_opts(s: Seq<u8>, i: int, rem: u64) -> Option<
    ((Option<InboxV>, Option<Ctl>), int),
> {
    if rem == 0 {
        Some(((None, None), i))
    } else if rem == 1 {
        match dec_lit(s, i, Atom::KeyInbox) {
            Some(j0) => match dec_inbox(s, j0) {
                Some((ib, j1)) => Some(((Some(ib), None), j1)),
                None => None,
            },
            None => match dec_lit(s, i, Atom::KeyCtl) {
                Some(j0) => match dec_ctl(s, j0) {
                    Some((c, j1)) => Some(((None, Some(c)), j1)),
                    None => None,
                },
                None => None,
            },
        }
    } else if rem == 2 {
        match dec_lit(s, i, Atom::KeyInbox) {
            Some(j0) => match dec_inbox(s, j0) {
                Some((ib, j1)) => match dec_lit(s, j1, Atom::KeyCtl) {
                    Some(j2) => match dec_ctl(s, j2) {
                        Some((c, j3)) => Some(((Some(ib), Some(c)), j3)),
                        None => None,
                    },
                    None => None,
                },
                None => None,
            },
            None => None,
        }
    } else {
        None
    }
}

/// Reads an envelope map at `i`. An envelope whose type tag is unknown is
/// refused.
pub open spec fn dec_packet_at(s: Seq<u8>, i: int) -> Option<(PacketV, int)> {
    match dec_hdr(s, i) {
        Some((m, cnt, j0)) => if m == MAJOR_MAP && 4 <= cnt <= 6 {
            match dec_lit(s, j0, Atom::KeyT) {
                Some(j1) => match dec_str(s, j1, MAJOR_TEXT) {
                    Some((tag, j2)) => {
                        let kind = if tag == atom_seq(Atom::ValMessage) {
                            Some(PacketKind::Message)
                        } else if tag == atom_seq(Atom::ValEvent) {
                            Some(PacketKind::Event)
                        } else if tag == atom_seq(Atom::KeyCtl) {
                            Some(PacketKind::Ctl)
                        } else {
                            None
                        };
                        match kind {
                            Some(k) => match dec_packet_core(s, j2) {
                                Some(((c, n, rid), j3)) => match dec_packet_opts(
                                    s,
                                    j3,
                                    (cnt - 4) as u64,
                                ) {
                                    Some(((ib, ct), j4)) => Some(
                                        (
                                            PacketV {
                                                ty: k,
                                                content: c,
                                                nonce: n,
                                                room_id: rid,
                                                inbox: ib,
                                                ctl: ct,
                                            },
                                            j4,
                                        ),
                                    ),
                                    None => None,
                                },
                                None => None,
                            },
                            None => None,
                        }
                    },
                    None => None,
                },
                None => None,
            }
        } else {
            None
        },
        None => None,
    }
}

/// Reads a whole byte string as one well-formed envelope; trailing bytes and
/// envelopes that break the packet invariants are refused.
pub open spec fn dec_packet(s: Seq<u8>) -> Option<PacketV> {
    match dec_packet_at(s, 0) {
        Some((p, j)) => if j == s.len() && p.wf() {
            Some(p)
        } else {
            None
        },
        None => None,
    }
}


/// Decoding the inbox map written at `i` yields it back.
#[verifier::spinoff_prover]
pub proof fn lemma_inbox_rt(s: Seq<u8>, i: int, ib: InboxV)
    requires
        ib.id_seq().len() <= u64::MAX,
        0 <= i,
        i + enc_inbox(ib).len() <= s.len(),
        s.subrange(i, i + enc_inbox(ib).len() as int) == enc_inbox(ib),
    ensures
        dec_inbox(s, i) == Some((ib, i + enc_inbox(ib).len() as int)),
{
    let e = enc_inbox(ib);
    let end = i + e.len() as int;
    let a1 = hdr_seq(MAJOR_MAP, 2);
    let a2 = enc_lit_seq(Atom::KeyT);
    let a3 = enc_lit_seq(inbox_atom(ib));
    let a4 = enc_lit_seq(Atom::KeyId);
    let a5 = enc_str_seq(MAJOR_BYTES, ib.id_seq());
    assert(atom_seq(Atom::ValReq) != atom_seq(Atom::ValRes)) by {
        reveal(crate::atoms::atom_seq);
        assert(atom_seq(Atom::ValReq)[2] == 113u8);
        assert(atom_seq(Atom::ValRes)[2] == 115u8);
    }
    assert(e =~= a1 + (a2 + (a3 + (a4 + a5))));
    lemma_prefix_split(s, i, a1, a2 + (a3 + (a4 + a5)));
    lemma_hdr_rt(s, i, MAJOR_MAP, 2);
    let i1 = i + a1.len() as int;
    lemma_prefix_split(s, i1, a2, a3 + (a4 + a5));
    lemma_lit_rt(s, i1, Atom::KeyT);
    let i2 = i1 + a2.len() as int;
    lemma_prefix_split(s, i2, a3, a4 + a5);
    crate::atoms::lemma_atom_len(inbox_atom(ib));
    lemma_str_rt(s, i2, MAJOR_TEXT, atom_seq(inbox_atom(ib)));
    let i3 = i2 + a3.len() as int;
    lemma_prefix_split(s, i3, a4, a5);
    lemma_lit_rt(s, i3, Atom::KeyId);
    let i4 = i3 + a4.len() as int;
    lemma_str_rt(s, i4, MAJOR_BYTES, ib.id_seq());
    assert(dec_inbox(s, i) == Some((ib, end)));
}

/// Decoding the control map written at `i` yields it back.
#[verifier::spinoff_prover]
pub proof fn lemma_ctl_rt(s: Seq<u8>, i: int, c: Ctl)
    requires
        0 <= i,
        i + enc_ctl(c).len() <= s.len(),
        s.subrange(i, i + enc_ctl(c).len() as int) == enc_ctl(c),
    ensures
        dec_ctl(s, i) == Some((c, i + enc_ctl(c).len() as int)),
{
    let e = enc_ctl(c);
    let end = i + e.len() as int;
    let a1 = hdr_seq(MAJOR_MAP, 1);
    let a2 = enc_lit_seq(Atom::KeyT);
    let a3 = enc_lit_seq(ctl_atom(c));
    assert(atom_seq(Atom::ValSub) != atom_seq(Atom::ValUnsub)) by {
        reveal(crate::atoms::atom_seq);
        assert(atom_seq(Atom::ValSub).len() == 3);
        assert(atom_seq(Atom::ValUnsub).len() == 5);
    }
    assert(e =~= a1 + (a2 + a3));
    lemma_prefix_split(s, i, a1, a2 + a3);
    lemma_hdr_rt(s, i, MAJOR_MAP, 1);
    let i1 = i + a1.len() as int;
    lemma_prefix_split(s, i1, a2, a3);
    lemma_lit_rt(s, i1, Atom::KeyT);
    let i2 = i1 + a2.len() as int;
    crate::atoms::lemma_atom_len(ctl_atom(c));
    lemma_str_rt(s, i2, MAJOR_TEXT, atom_seq(ctl_atom(c)));
    assert(dec_ctl(s, i) == Some((c, end)));
}

/// Decoding the fixed envelope entries written at `i` yields them back.
#[verifier::spinoff_prover]
pub proof fn lemma_packet_core_rt(s: Seq<u8>, i: int, p: PacketV)
    requires
        p.content.len() <= u64::MAX,
        p.nonce.len() <= u64::MAX,
        p.room_id.len() <= u64::MAX,
        0 <= i,
        i + enc_packet_core(p).len() <= s.len(),
        s.subrange(i, i + enc_packet_core(p).len() as int) == enc_packet_core(p),
    ensures
        dec_packet_core(s, i) == Some(
            ((p.content, p.nonce, p.room_id), i + enc_packet_core(p).len() as int),
        ),
{
    let e = enc_packet_core(p);
    let end = i + e.len() as int;
    let a1 = enc_lit_seq(Atom::KeyC);
    let a2 = enc_str_seq(MAJOR_BYTES, p.content);
    let a3 = enc_lit_seq(Atom::KeyN);
    let a4 = enc_str_seq(MAJOR_BYTES, p.nonce);
    let a5 = enc_lit_seq(Atom::KeyRid);
    let a6 = enc_str_seq(MAJOR_BYTES, p.room_id);
    assert(e =~= a1 + (a2 + (a3 + (a4 + (a5 + a6)))));
    lemma_prefix_split(s, i, a1, a2 + (a3 + (a4 + (a5 + a6))));
    lemma_lit_rt(s, i, Atom::KeyC);
    let i1 = i + a1.len() as int;
    lemma_prefix_split(s, i1, a2, a3 + (a4 + (a5 + a6)));
    lemma_str_rt(s, i1, MAJOR_BYTES, p.content);
    let i2 = i1 + a2.len() as int;
    lemma_prefix_split(s, i2, a3, a4 + (a5 + a6));
    lemma_lit_rt(s, i2, Atom::KeyN);
    let i3 = i2 + a3.len() as int;
    lemma_prefix_split(s, i3, a4, a5 + a6);
    lemma_str_rt(s, i3, MAJOR_BYTES, p.nonce);
    let i4 = i3 + a4.len() as int;
    lemma_prefix_split(s, i4, a5, a6);
    lemma_lit_rt(s, i4, Atom::KeyRid);
    let i5 = i4 + a5.len() as int;
    lemma_str_rt(s, i5, MAJOR_BYTES, p.room_id);
    assert(dec_packet_core(s, i) == Some(((p.content, p.nonce, p.room_id), end)));
}

/// Decoding the optional envelope entries written at `i` yields them back.
#[verifier::spinoff_prover]
pub proof fn lemma_packet_opts_rt(s: Seq<u8>, i: int, p: PacketV)
    requires
        match p.inbox {
            Some(ib) => ib.id_seq().len() <= u64::MAX,
            None => true,
        },
        0 <= i,
        i + enc_packet_opts(p).len() <= s.len(),
        s.subrange(i, i + enc_packet_opts(p).len() as int) == enc_packet_opts(p),
    ensures
        dec_packet_opts(s, i, (packet_cnt(p) - 4) as u64) == Some(
            ((p.inbox, p.ctl), i + enc_packet_opts(p).len() as int),
        ),
{
    let e = enc_packet_opts(p);
    let end = i + e.len() as int;
    let a1 = match p.inbox {
        Some(ib) => enc_lit_seq(Atom::KeyInbox) + enc_inbox(ib),
        None => Seq::<u8>::empty(),
    };
    let a2 = match p.ctl {
        Some(c) => enc_lit_seq(Atom::KeyCtl) + enc_ctl(c),
        None => Seq::<u8>::empty(),
    };
    assert(e == a1 + a2);
    lemma_prefix_split(s, i, a1, a2);
    assert(atom_seq(Atom::KeyInbox) != atom_seq(Atom::KeyCtl)) by {
        reveal(crate::atoms::atom_seq);
        assert(atom_seq(Atom::KeyInbox).len() == 5);
        assert(atom_seq(Atom::KeyCtl).len() == 3);
    }
    match p.inbox {
        Some(ib) => {
            let b1 = enc_lit_seq(Atom::KeyInbox);
            let b2 = enc_inbox(ib);
            lemma_prefix_split(s, i, b1, b2);
            lemma_lit_rt(s, i, Atom::KeyInbox);
            lemma_inbox_rt(s, i + b1.len() as int, ib);
            let i1 = i + a1.len() as int;
            match p.ctl {
                Some(c) => {
                    let c1 = enc_lit_seq(Atom::KeyCtl);
                    let c2 = enc_ctl(c);
                    lemma_prefix_split(s, i1, c1, c2);
                    lemma_lit_rt(s, i1, Atom::KeyCtl);
                    lemma_ctl_rt(s, i1 + c1.len() as int, c);
                    assert(packet_cnt(p) - 4 == 2);
                    assert(dec_packet_opts(s, i, 2) == Some(((p.inbox, p.ctl), end)));
                },
                None => {
                    assert(packet_cnt(p) - 4 == 1);
                    assert(dec_packet_opts(s, i, 1) == Some(((p.inbox, p.ctl), end)));
                },
            }
        },
        None => {
            match p.ctl {
                Some(c) => {
                    let c1 = enc_lit_seq(Atom::KeyCtl);
                    let c2 = enc_ctl(c);
                    lemma_prefix_split(s, i, c1, c2);
                    lemma_lit_rt(s, i, Atom::KeyCtl);
                    lemma_ctl_rt(s, i + c1.len() as int, c);
                    crate::atoms::lemma_atom_len(Atom::KeyCtl);
                    lemma_str_rt(s, i, MAJOR_TEXT, atom_seq(Atom::KeyCtl));
                    assert(dec_lit(s, i, Atom::KeyInbox) is None) by {
                        reveal(crate::cbor::dec_lit);
                    }
                    assert(packet_cnt(p) - 4 == 1);
                    assert(dec_packet_opts(s, i, 1) == Some(((p.inbox, p.ctl), end)));
                },
                None => {
                    assert(packet_cnt(p) - 4 == 0);
                    assert(dec_packet_opts(s, i, 0) == Some(((p.inbox, p.ctl), end)));
                },
            }
        },
    }
}

/// Decoding the envelope written at `i` yields it back.
#[verifier::rlimit(100)]
#[verifier::spinoff_prover]
pub proof fn lemma_packet_at_rt(s: Seq<u8>, i: int, p: PacketV)
    requires
        p.wf(),
        0 <= i,
        i + enc_packet(p).len() <= s.len(),
        s.subrange(i, i + enc_packet(p).len() as int) == enc_packet(p),
    ensures
        dec_packet_at(s, i) == Some((p, i + enc_packet(p).len() as int)),
{
    let e = enc_packet(p);
    let end = i + e.len() as int;
    let cnt = packet_cnt(p);
    let a1 = hdr_seq(MAJOR_MAP, cnt);
    let a2 = enc_lit_seq(Atom::KeyT);
    let a3 = enc_lit_seq(kind_atom(p.ty));
    let a4 = enc_packet_core(p);
    let a5 = enc_packet_opts(p);
    assert(atom_seq(Atom::ValMessage).len() == 7 && atom_seq(Atom::ValEvent).len() == 5 && atom_seq(
        Atom::KeyCtl,
    ).len() == 3) by {
        reveal(crate::atoms::atom_seq);
    }
    assert(e =~= a1 + (a2 + (a3 + (a4 + a5))));
    lemma_prefix_split(s, i, a1, a2 + (a3 + (a4 + a5)));
    lemma_hdr_rt(s, i, MAJOR_MAP, cnt);
    let i1 = i + a1.len() as int;
    assert(dec_hdr(s, i) == Some((MAJOR_MAP, cnt, i1)));
    lemma_prefix_split(s, i1, a2, a3 + (a4 + a5));
    lemma_lit_rt(s, i1, Atom::KeyT);
    let i2 = i1 + a2.len() as int;
    lemma_prefix_split(s, i2, a3, a4 + a5);
    crate::atoms::lemma_atom_len(kind_atom(p.ty));
    lemma_str_rt(s, i2, MAJOR_TEXT, atom_seq(kind_atom(p.ty)));
    let i3 = i2 + a3.len() as int;
    lemma_prefix_split(s, i3, a4, a5);
    lemma_packet_core_rt(s, i3, p);
    let i4 = i3 + a4.len() as int;
    lemma_packet_opts_rt(s, i4, p);
    assert(4 <= cnt <= 6);
    assert(dec_packet_at(s, i) == Some((p, end)));
}

/// The envelope codec inverts itself: decoding an encoded well-formed packet
/// yields the packet back, byte for byte and field for field.
pub proof fn lemma_packet_round_trip(p: PacketV)
    requires
        p.wf(),
    ensures
        dec_packet(enc_packet(p)) == Some(p),
{
    let e = enc_packet(p);
    assert(e.subrange(0, e.len() as int) =~= e);
    lemma_packet_at_rt(e, 0, p);
}


/// Reads an inbox map; mirrors `dec_inbox`.
fn read_inbox(s: &[u8], pos: usize) -> (r: Option<(Inbox, usize)>)
    ensures
        match r {
            Some(t) => dec_inbox(s@, pos as int) == Some((t.0@, t.1 as int)) && t.1 <= s@.len(),
            None => dec_inbox(s@, pos as int) is None,
        },
{
    let (m, cnt, j0) = match read_hdr(s, pos) {
        Some(t) => t,
        None => {
            return None;
        },
    };
    if !(m == MAJOR_MAP && cnt == 2) {
        return None;
    }
    let j1 = match read_lit(s, j0, Atom::KeyT) {
        Some(j) => j,
        None => {
            return None;
        },
    };
    let (tag, j2) = match read_str(s, j1, MAJOR_TEXT) {
        Some(t) => t,
        None => {
            return None;
        },
    };
    let is_req = crate::util::bytes_eq(tag.as_slice(), atom_vec(Atom::ValReq).as_slice());
    let is_res = crate::util::bytes_eq(tag.as_slice(), atom_vec(Atom::ValRes).as_slice());
    if !(is_req || is_res) {
        return None;
    }
    let j3 = match read_lit(s, j2, Atom::KeyId) {
        Some(j) => j,
        None => {
            return None;
        },
    };
    let (idv, j4) = match read_str(s, j3, MAJOR_BYTES) {
        Some(t) => t,
        None => {
            return None;
        },
    };
    if is_req {
        Some((Inbox::Request { id: idv }, j4))
    } else {
        Some((Inbox::Respond { id: idv }, j4))
    }
}

/// Reads a control map; mirrors `dec_ctl`.
fn read_ctl(s: &[u8], pos: usize) -> (r: Option<(Ctl, usize)>)
    ensures
        match r {
            Some(t) => dec_ctl(s@, pos as int) == Some((t.0, t.1 as int)) && t.1 <= s@.len(),
            None => dec_ctl(s@, pos as int) is None,
        },
{
    let (m, cnt, j0) = match read_hdr(s, pos) {
        Some(t) => t,
        None => {
            return None;
        },
    };
    if !(m == MAJOR_MAP && cnt == 1) {
        return None;
    }
    let j1 = match read_lit(s, j0, Atom::KeyT) {
        Some(j) => j,
        None => {
            return None;
        },
    };
    let (tag, j2) = match read_str(s, j1, MAJOR_TEXT) {
        Some(t) => t,
        None => {
            return None;
        },
    };
    if crate::util::bytes_eq(tag.as_slice(), atom_vec(Atom::ValSub).as_slice()) {
        Some((Ctl::Sub, j2))
    } else if crate::util::bytes_eq(tag.as_slice(), atom_vec(Atom::ValUnsub).as_slice()) {
        Some((Ctl::Unsub, j2))
    } else {
        None
    }
}

/// The envelope type a payload is carried under.
pub open spec fn payload_kind(p: PayloadV) -> PacketKind {
    match p {
        PayloadV::MsgPayload(m) => PacketKind::Message,
        PayloadV::EventPayload(e) => PacketKind::Event,
    }
}

impl Packet {
    /// Checks the envelope invariants at run time.
    pub fn well_formed(&self) -> (b: bool)
        ensures
            b == self@.wf(),
    {
        proof {
            vstd::std_specs::vec::axiom_spec_len(&self.content);
        }
        if self.room_id.len() != 16 {
            return false;
        }
        let inbox_ok = match &self.inbox {
            Some(Inbox::Request { id }) => id.len() == 16,
            Some(Inbox::Respond { id }) => id.len() == 16,
            None => true,
        };
        if !inbox_ok {
            return false;
        }
        match self.ty {
            PacketKind::Ctl => self.content.len() == 0 && self.nonce.len() == 0
                && self.ctl.is_some() && self.inbox.is_none(),
            _ => self.nonce.len() == 12 && self.content.len() > 0 && self.ctl.is_none(),
        }
    }

    /// Serialises a well-formed envelope as its wire bytes; an envelope that
    /// breaks the packet invariants is refused.
    pub fn to_bytes(&self) -> (r: Result<Vec<u8>, Error>)
        ensures
            match r {
                Ok(b) => self@.wf() && b@ == enc_packet(self@),
                Err(e) => !self@.wf() && e == Error::Decode,
            },
    {
        if !self.well_formed() {
            return Err(Error::Decode);
        }
        let mut out: Vec<u8> = Vec::new();
        let mut cnt: u64 = 4;
        if self.inbox.is_some() {
            cnt += 1;
        }
        if self.ctl.is_some() {
            cnt += 1;
        }
        assert(cnt == packet_cnt(self@));
        write_hdr(&mut out, MAJOR_MAP, cnt);
        write_lit(&mut out, Atom::KeyT);
        match self.ty {
            PacketKind::Message => write_lit(&mut out, Atom::ValMessage),
            PacketKind::Event => write_lit(&mut out, Atom::ValEvent),
            PacketKind::Ctl => write_lit(&mut out, Atom::KeyCtl),
        }
        write_lit(&mut out, Atom::KeyC);
        write_str(&mut out, MAJOR_BYTES, self.content.as_slice());
        write_lit(&mut out, Atom::KeyN);
        write_str(&mut out, MAJOR_BYTES, self.nonce.as_slice());
        write_lit(&mut out, Atom::KeyRid);
        write_str(&mut out, MAJOR_BYTES, self.room_id.as_slice());
        let ghost mid = out@;
        match &self.inbox {
            Some(ib) => {
                write_lit(&mut out, Atom::KeyInbox);
                write_inbox_map(&mut out, ib);
            },
            None => {},
        }
        match self.ctl {
            Some(c) => {
                write_lit(&mut out, Atom::KeyCtl);
                write_ctl_map(&mut out, c);
            },
            None => {},
        }
        proof {
            assert(out@ =~= mid + enc_packet_opts(self@));
            assert(out@ =~= enc_packet(self@));
        }
        Ok(out)
    }

    /// Parses one well-formed envelope out of a whole byte string.
    pub fn from_bytes(data: &[u8]) -> (r: Result<Packet, Error>)
        ensures
            match r {
                Ok(p) => dec_packet(data@) == Some(p@) && p@.wf(),
                Err(e) => dec_packet(data@) is None && e == Error::Decode,
            },
    {
        let (m, cnt, j0) = match read_hdr(data, 0) {
            Some(t) => t,
            None => {
                return Err(Error::Decode);
            },
        };
        if !(m == MAJOR_MAP && 4 <= cnt && cnt <= 6) {
            return Err(Error::Decode);
        }
        let j1 = match read_lit(data, j0, Atom::KeyT) {
            Some(j) => j,
            None => {
                return Err(Error::Decode);
            },
        };
        let (tag, j2) = match read_str(data, j1, MAJOR_TEXT) {
            Some(t) => t,
            None => {
                return Err(Error::Decode);
            },
        };
        let kind: PacketKind = if crate::util::bytes_eq(
            tag.as_slice(),
            atom_vec(Atom::ValMessage).as_slice(),
        ) {
            PacketKind::Message
        } else if crate::util::bytes_eq(tag.as_slice(), atom_vec(Atom::ValEvent).as_slice()) {
            PacketKind::Event
        } else if crate::util::bytes_eq(tag.as_slice(), atom_vec(Atom::KeyCtl).as_slice()) {
            PacketKind::Ctl
        } else {
            return Err(Error::Decode);
        };
        let j3 = match read_lit(data, j2, Atom::KeyC) {
            Some(j) => j,
            None => {
                return Err(Error::Decode);
            },
        };
        let (c, j4) = match read_str(data, j3, MAJOR_BYTES) {
            Some(t) => t,
            None => {
                return Err(Error::Decode);
            },
        };
        let j5 = match read_lit(data, j4, Atom::KeyN) {
            Some(j) => j,
            None => {
                return Err(Error::Decode);
            },
        };
        let (n, j6) = match read_str(data, j5, MAJOR_BYTES) {
            Some(t) => t,
            None => {
                return Err(Error::Decode);
            },
        };
        let j7 = match read_lit(data, j6, Atom::KeyRid) {
            Some(j) => j,
            None => {
                return Err(Error::Decode);
            },
        };
        let (rid, j8) = match read_str(data, j7, MAJOR_BYTES) {
            Some(t) => t,
            None => {
                return Err(Error::Decode);
            },
        };
        let rem = cnt - 4;
        let (ib, ct, j9): (Option<Inbox>, Option<Ctl>, usize) = if rem == 0 {
            (None, None, j8)
        } else if rem == 1 {
            match read_lit(data, j8, Atom::KeyInbox) {
                Some(k0) => match read_inbox(data, k0) {
                    Some((ibv, k1)) => (Some(ibv), None, k1),
                    None => {
                        return Err(Error::Decode);
                    },
                },
                None => {
                    let k0 = match read_lit(data, j8, Atom::KeyCtl) {
                        Some(k) => k,
                        None => {
                            return Err(Error::Decode);
                        },
                    };
                    match read_ctl(data, k0) {
                        Some((cv, k1)) => (None, Some(cv), k1),
                        None => {
                            return Err(Error::Decode);
                        },
                    }
                },
            }
        } else {
            let k0 = match read_lit(data, j8, Atom::KeyInbox) {
                Some(k) => k,
                None => {
                    return Err(Error::Decode);
                },
            };
            let (ibv, k1) = match read_inbox(data, k0) {
                Some(t) => t,
                None => {
                    return Err(Error::Decode);
                },
            };
            let k2 = match read_lit(data, k1, Atom::KeyCtl) {
                Some(k) => k,
                None => {
                    return Err(Error::Decode);
                },
            };
            match read_ctl(data, k2) {
                Some((cv, k3)) => (Some(ibv), Some(cv), k3),
                None => {
                    return Err(Error::Decode);
                },
            }
        };
        let pkt = Packet { ty: kind, content: c, nonce: n, room_id: rid, inbox: ib, ctl: ct };
        if j9 != data.len() {
            return Err(Error::Decode);
        }
        if !pkt.well_formed() {
            return Err(Error::Decode);
        }
        Ok(pkt)
    }
}


/// Writes an inbox map.
fn write_inbox_map(out: &mut Vec<u8>, ib: &Inbox)
    ensures
        final(out)@ == old(out)@ + enc_inbox(ib@),
{
    write_hdr(out, MAJOR_MAP, 2);
    write_lit(out, Atom::KeyT);
    match ib {
        Inbox::Request { id } => {
            write_lit(out, Atom::ValReq);
            write_lit(out, Atom::KeyId);
            write_str(out, MAJOR_BYTES, id.as_slice());
        },
        Inbox::Respond { id } => {
            write_lit(out, Atom::ValRes);
            write_lit(out, Atom::KeyId);
            write_str(out, MAJOR_BYTES, id.as_slice());
        },
    }
    proof {
        assert(out@ =~= old(out)@ + enc_inbox(ib@));
    }
}

/// Writes a control map.
fn write_ctl_map(out: &mut Vec<u8>, c: Ctl)
    ensures
        final(out)@ == old(out)@ + enc_ctl(c),
{
    write_hdr(out, MAJOR_MAP, 1);
    write_lit(out, Atom::KeyT);
    match c {
        Ctl::Sub => write_lit(out, Atom::ValSub),
        Ctl::Unsub => write_lit(out, Atom::ValUnsub),
    }
    proof {
        assert(out@ =~= old(out)@ + enc_ctl(c));
    }
}


impl Packet {
    /// Builds an encrypted envelope for a payload: the payload's wire bytes
    /// are sealed under the cipher's key and a fresh random nonce, and the
    /// envelope carries that nonce beside the ciphertext. Fails only when
    /// the cipher backend refuses the plaintext, which it does only beyond
    /// two to the thirty-sixth bytes of encoded payload.
    pub fn new(room_id: Vec<u8>, payload: &Payload, cipher: &Cipher) -> (r: Result<Packet, Error>)
        requires
            cipher.wf(),
            room_id@.len() == 16,
        ensures
            enc_payload(payload@).len() <= 0x1000000000 ==> r is Ok,
            match r {
                Ok(pkt) => {
                    &&& pkt@.wf()
                    &&& pkt@.ty == payload_kind(payload@)
                    &&& pkt@.room_id == room_id@
                    &&& pkt@.inbox is None
                    &&& pkt@.ctl is None
                    &&& pkt@.nonce.len() == 12
                    &&& pkt@.content == aead_seal(cipher.key@, pkt@.nonce, enc_payload(payload@))
                    &&& aead_open(cipher.key@, pkt@.nonce, pkt@.content) == Some(
                        enc_payload(payload@),
                    )
                },
                Err(e) => e == Error::Cipher,
            },
    {
        let plain = match payload.to_cbor() {
            Ok(b) => b,
            Err(_) => {
                return Err(Error::Cipher);
            },
        };
        let nonce = Cipher::new_nonce();
        let content = match cipher.encrypt(&nonce, &plain) {
            Ok(c) => c,
            Err(e) => {
                return Err(e);
            },
        };
        let ty = match payload {
            Payload::MsgPayload(_) => PacketKind::Message,
            Payload::EventPayload(_) => PacketKind::Event,
        };
        proof {
            vstd::std_specs::vec::axiom_spec_len(&content);
        }
        Ok(Packet { ty, content, nonce, room_id, inbox: None, ctl: None })
    }

    /// Builds the control packet that subscribes to a room: empty content
    /// and nonce, the control field set.
    pub fn new_sub(room_id: Vec<u8>) -> (r: Packet)
        requires
            room_id@.len() == 16,
        ensures
            r@.wf(),
            r@ == (PacketV {
                ty: PacketKind::Ctl,
                content: Seq::<u8>::empty(),
                nonce: Seq::<u8>::empty(),
                room_id: room_id@,
                inbox: None,
                ctl: Some(Ctl::Sub),
            }),
    {
        let r = Packet {
            ty: PacketKind::Ctl,
            content: Vec::new(),
            nonce: Vec::new(),
            room_id,
            inbox: None,
            ctl: Some(Ctl::Sub),
        };
        proof {
            assert(r@.content =~= Seq::<u8>::empty());
            assert(r@.nonce =~= Seq::<u8>::empty());
        }
        r
    }

    /// Builds the control packet that unsubscribes from a room.
    pub fn new_unsub(room_id: Vec<u8>) -> (r: Packet)
        requires
            room_id@.len() == 16,
        ensures
            r@.wf(),
            r@ == (PacketV {
                ty: PacketKind::Ctl,
                content: Seq::<u8>::empty(),
                nonce: Seq::<u8>::empty(),
                room_id: room_id@,
                inbox: None,
                ctl: Some(Ctl::Unsub),
            }),
    {
        let r = Packet {
            ty: PacketKind::Ctl,
            content: Vec::new(),
            nonce: Vec::new(),
            room_id,
            inbox: None,
            ctl: Some(Ctl::Unsub),
        };
        proof {
            assert(r@.content =~= Seq::<u8>::empty());
            assert(r@.nonce =~= Seq::<u8>::empty());
        }
        r
    }

    /// Opens the envelope's ciphertext and parses the payload. A control
    /// packet carries no ciphertext and is refused with a protocol error; an
    /// inauthentic ciphertext fails the cipher; an authentic one that does
    /// not parse fails the decode.
    pub fn decrypt(&self, cipher: &Cipher) -> (r: Result<Payload, Error>)
        requires
            cipher.wf(),
        ensures
            match r {
                Ok(p) => {
                    &&& self@.ty != PacketKind::Ctl
                    &&& aead_open(cipher.key@, self@.nonce, self@.content) is Some
                    &&& dec_payload(aead_open(cipher.key@, self@.nonce, self@.content)->Some_0)
                        == Some(p@)
                    &&& p@.wf()
                },
                Err(e) => {
                    ||| (self@.ty == PacketKind::Ctl && e == Error::Protocol)
                    ||| (self@.ty != PacketKind::Ctl && e == Error::Cipher && (self@.nonce.len()
                        != 12 || aead_open(cipher.key@, self@.nonce, self@.content) is None))
                    ||| (self@.ty != PacketKind::Ctl && e == Error::Decode && aead_open(
                        cipher.key@,
                        self@.nonce,
                        self@.content,
                    ) is Some && dec_payload(
                        aead_open(cipher.key@, self@.nonce, self@.content)->Some_0,
                    ) is None)
                },
            },
    {
        match self.ty {
            PacketKind::Ctl => Err(Error::Protocol),
            _ => cipher.decrypt_payload(&self.nonce, &self.content),
        }
    }
}

/// Law: a packet built from a payload decrypts to that payload when both
/// sides hold the same key. The hypotheses are exactly what `Packet::new`
/// ensures of the packets it builds; `Packet::decrypt`'s contract then
/// forces the decrypted payload to be the one sealed in.
pub proof fn lemma_new_then_decrypt(key: Seq<u8>, pkt: PacketV, p: PayloadV)
    requires
        p.wf(),
        aead_open(key, pkt.nonce, pkt.content) == Some(enc_payload(p)),
    ensures
        dec_payload(aead_open(key, pkt.nonce, pkt.content)->Some_0) == Some(p),
{
    lemma_payload_round_trip(p);
}

} // verus!
