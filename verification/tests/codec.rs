use mesagisto::cipher::Cipher;
use mesagisto::data::events::Event;
use mesagisto::data::message::Message;
use mesagisto::data::message::MessageType;
use mesagisto::data::message::Profile;
use mesagisto::data::Ctl;
use mesagisto::data::Inbox;
use mesagisto::data::Packet;
use mesagisto::data::PacketKind;
use mesagisto::data::Payload;

fn room16() -> Vec<u8> {
    vec![9u8; 16]
}

#[test]
fn events_test() {
    let event = Event::RequestImage {
        id: "dd".as_bytes().to_owned(),
    };
    let payload = Payload::EventPayload(event);
    let data = payload.to_cbor().unwrap();
    let a = Payload::from_cbor(&data).is_ok();
    assert!(a);
}

#[test]
fn message_test() {
    let message = Message {
        profile: Profile {
            id: 232323i32.to_be_bytes().to_vec(),
            username: None,
            nick: None,
        },
        id: Vec::from("id".as_bytes()),
        chain: vec![
            MessageType::Text {
                content: "this is text".as_bytes().to_vec(),
            },
            MessageType::Text {
                content: "this is text".as_bytes().to_vec(),
            },
            MessageType::Image {
                id: Vec::from("id".as_bytes()),
                url: None,
            },
        ],
        reply: None,
        from: Vec::new(),
    };
    let payload = Payload::MsgPayload(message);
    let data = payload.to_cbor().unwrap();
    let a = Payload::from_cbor(&data).is_ok();
    assert!(a);
}

#[test]
fn mod_test() {
    let _cipher = Cipher::init("this is key".as_bytes().to_vec());
    let message = Message {
        profile: Profile {
            id: 1223232i64.to_be_bytes().to_vec(),
            username: None,
            nick: None,
        },
        id: Vec::from("id".as_bytes()),
        reply: None,
        chain: vec![
            MessageType::Text {
                content: "this is text".as_bytes().to_vec(),
            },
            MessageType::Text {
                content: "this is text".as_bytes().to_vec(),
            },
        ],
        from: 12113i64.to_be_bytes().to_vec(),
    };
    let payload: Payload = message.into();
    let packet2 = Payload::from_cbor(&payload.to_cbor().unwrap());
    assert!(packet2.is_ok());
}

#[test]
fn payload_round_trip_equals() {
    let message = Message {
        profile: Profile {
            id: vec![0, 0, 0, 1],
            username: Some("user".as_bytes().to_vec()),
            nick: Some("nick".as_bytes().to_vec()),
        },
        id: vec![0x69, 0x64],
        reply: Some(vec![1, 2, 3, 4]),
        chain: vec![
            MessageType::Text {
                content: "hi".as_bytes().to_vec(),
            },
            MessageType::Edit {
                content: "ho".as_bytes().to_vec(),
            },
            MessageType::Image {
                id: vec![1, 2, 3],
                url: Some("http://x/y".as_bytes().to_vec()),
            },
        ],
        from: vec![0, 0, 0, 2],
    };
    let payload = Payload::MsgPayload(message);
    let data = payload.to_cbor().unwrap();
    let back = Payload::from_cbor(&data).unwrap();
    assert_eq!(back, payload);

    for event in [
        Event::RequestImage { id: vec![1, 2, 3] },
        Event::RespondImage {
            id: vec![1, 2, 3],
            url: "http://x/y".as_bytes().to_vec(),
        },
        Event::RequestEcho {
            name: "room one".as_bytes().to_vec(),
        },
        Event::RespondEcho {
            name: "room two".as_bytes().to_vec(),
        },
    ] {
        let payload = Payload::EventPayload(event);
        let data = payload.to_cbor().unwrap();
        let back = Payload::from_cbor(&data).unwrap();
        assert_eq!(back, payload);
    }
}

#[test]
fn long_content_round_trip() {
    // exercise the two- and four-byte length headers
    let long = vec![0x41u8; 70_000];
    let message = Message {
        profile: Profile {
            id: vec![7; 300],
            username: None,
            nick: None,
        },
        id: vec![1],
        reply: None,
        chain: vec![MessageType::Text { content: long }],
        from: vec![2],
    };
    let payload = Payload::MsgPayload(message);
    let data = payload.to_cbor().unwrap();
    let back = Payload::from_cbor(&data).unwrap();
    assert_eq!(back, payload);
}

#[test]
fn packet_envelope_round_trip() {
    // a control packet
    let sub = Packet::new_sub(room16());
    let bytes = sub.to_bytes().unwrap();
    let back = Packet::from_bytes(&bytes).unwrap();
    assert_eq!(back, sub);

    // an encrypted packet with an inbox token
    let cipher = Cipher::init("this is key".as_bytes().to_vec());
    let payload = Payload::EventPayload(Event::RequestImage { id: vec![1, 2, 3] });
    let mut pkt = Packet::new(room16(), &payload, &cipher).unwrap();
    pkt.inbox = Some(Inbox::Request { id: vec![3u8; 16] });
    let bytes = pkt.to_bytes().unwrap();
    let back = Packet::from_bytes(&bytes).unwrap();
    assert_eq!(back, pkt);

    // a response envelope
    pkt.inbox = Some(Inbox::Respond { id: vec![4u8; 16] });
    let bytes = pkt.to_bytes().unwrap();
    let back = Packet::from_bytes(&bytes).unwrap();
    assert_eq!(back, pkt);
}

#[test]
fn malformed_envelopes_are_refused() {
    // unknown envelope type tag
    let sub = Packet::new_sub(room16());
    let mut bytes = sub.to_bytes().unwrap();
    // the envelope starts with a map header, the key "t", then the text tag
    // "ctl"; flip one tag byte to make the type unknown
    let pos = bytes.len() - 1;
    bytes[pos] ^= 1;
    assert!(Packet::from_bytes(&bytes).is_err());

    // trailing garbage is refused
    let mut bytes = sub.to_bytes().unwrap();
    bytes.push(0);
    assert!(Packet::from_bytes(&bytes).is_err());

    // truncation is refused
    let bytes = sub.to_bytes().unwrap();
    assert!(Packet::from_bytes(&bytes[..bytes.len() - 1]).is_err());
}

#[test]
fn unknown_chain_variant_is_dropped() {
    // a chain item with an unknown tag is skipped without failing the message
    let known = Message {
        profile: Profile {
            id: vec![1],
            username: None,
            nick: None,
        },
        id: vec![1],
        reply: None,
        chain: vec![MessageType::Text {
            content: "hi".as_bytes().to_vec(),
        }],
        from: vec![2],
    };
    let payload = Payload::MsgPayload(known.clone());
    let data = payload.to_cbor().unwrap();
    // splice a second chain item in by rebuilding the bytes with ciborium
    let v: ciborium::value::Value = ciborium::de::from_reader(data.as_slice()).unwrap();
    let mut entries = match v {
        ciborium::value::Value::Map(m) => m,
        _ => panic!("payload must be a map"),
    };
    for (k, val) in entries.iter_mut() {
        if k == &ciborium::value::Value::Text("chain".into()) {
            if let ciborium::value::Value::Array(items) = val {
                let unknown = ciborium::value::Value::Map(vec![
                    (
                        ciborium::value::Value::Text("t".into()),
                        ciborium::value::Value::Text("sticker".into()),
                    ),
                    (
                        ciborium::value::Value::Text("data".into()),
                        ciborium::value::Value::Bytes(vec![9, 9, 9]),
                    ),
                    (
                        ciborium::value::Value::Text("w".into()),
                        ciborium::value::Value::Integer(7.into()),
                    ),
                    (
                        ciborium::value::Value::Text("alts".into()),
                        ciborium::value::Value::Array(vec![ciborium::value::Value::Text(
                            "s".into(),
                        )]),
                    ),
                ]);
                items.push(unknown);
            }
        }
    }
    let mut spliced = Vec::new();
    ciborium::ser::into_writer(&ciborium::value::Value::Map(entries), &mut spliced).unwrap();
    let back = Payload::from_cbor(&spliced).unwrap();
    assert_eq!(back, Payload::MsgPayload(known));
}

#[test]
fn wire_format_matches_cbor() {
    // the payload bytes parse as standard CBOR with the documented keys
    let payload = Payload::EventPayload(Event::RequestImage { id: vec![1, 2, 3] });
    let data = payload.to_cbor().unwrap();
    let v: ciborium::value::Value = ciborium::de::from_reader(data.as_slice()).unwrap();
    match v {
        ciborium::value::Value::Map(entries) => {
            assert_eq!(entries.len(), 3);
            assert_eq!(
                entries[0],
                (
                    ciborium::value::Value::Text("t".into()),
                    ciborium::value::Value::Text("e".into())
                )
            );
            assert_eq!(
                entries[1],
                (
                    ciborium::value::Value::Text("t".into()),
                    ciborium::value::Value::Text("request_image".into())
                )
            );
            assert_eq!(
                entries[2],
                (
                    ciborium::value::Value::Text("id".into()),
                    ciborium::value::Value::Bytes(vec![1, 2, 3])
                )
            );
        }
        _ => panic!("payload must encode as a CBOR map"),
    }

    // the envelope bytes parse as standard CBOR with the short keys
    let sub = Packet::new_sub(room16());
    let bytes = sub.to_bytes().unwrap();
    let v: ciborium::value::Value = ciborium::de::from_reader(bytes.as_slice()).unwrap();
    match v {
        ciborium::value::Value::Map(entries) => {
            assert_eq!(entries.len(), 5);
            assert_eq!(
                entries[0],
                (
                    ciborium::value::Value::Text("t".into()),
                    ciborium::value::Value::Text("ctl".into())
                )
            );
            assert_eq!(
                entries[1],
                (
                    ciborium::value::Value::Text("c".into()),
                    ciborium::value::Value::Bytes(vec![])
                )
            );
            assert_eq!(
                entries[2],
                (
                    ciborium::value::Value::Text("n".into()),
                    ciborium::value::Value::Bytes(vec![])
                )
            );
            assert_eq!(
                entries[3],
                (
                    ciborium::value::Value::Text("rid".into()),
                    ciborium::value::Value::Bytes(vec![9u8; 16])
                )
            );
            assert_eq!(
                entries[4].0,
                ciborium::value::Value::Text("ctl".into())
            );
            match &entries[4].1 {
                ciborium::value::Value::Map(ctl) => {
                    assert_eq!(
                        ctl[0],
                        (
                            ciborium::value::Value::Text("t".into()),
                            ciborium::value::Value::Text("sub".into())
                        )
                    );
                }
                _ => panic!("ctl must be a map"),
            }
        }
        _ => panic!("envelope must encode as a CBOR map"),
    }
    assert_eq!(sub.ty, PacketKind::Ctl);
    assert_eq!(sub.ctl, Some(Ctl::Sub));
}
