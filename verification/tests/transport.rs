use mesagisto::conn::conn_step;
use mesagisto::conn::endpoint_of;
use mesagisto::conn::resolve_address;
use mesagisto::conn::retry_delay;
use mesagisto::conn::ConnAction;
use mesagisto::conn::ConnEvent;
use mesagisto::conn::ConnState;
use mesagisto::conn::Endpoint;
use mesagisto::data::Ctl;
use mesagisto::data::Inbox;
use mesagisto::data::Packet;
use mesagisto::data::PacketKind;
use mesagisto::error::Error;
use mesagisto::server::Server;

fn one_server() -> (Server, Vec<u8>) {
    let name = "s".as_bytes().to_vec();
    let addr = "msgist://example.com".as_bytes().to_vec();
    let server = Server::init(
        vec![(name.clone(), addr)],
        "secret".as_bytes().to_vec(),
    );
    (server, name)
}

#[test]
fn room_id_determinism() {
    // address "group/42" and key "secret" give exactly the version-5 UUID of
    // the fixed namespace over "group/42secret"
    let (mut server, _name) = one_server();
    let r1 = server.room_id(&"group/42".as_bytes().to_vec());
    let r2 = server.room_id(&"group/42".as_bytes().to_vec());
    assert_eq!(r1, r2);
    let ns = uuid::Uuid::from_u128(0x179e3449c41f4a57a76359a787efaa52);
    let expected = uuid::Uuid::new_v5(&ns, "group/42secret".as_bytes());
    assert_eq!(r1.as_slice(), expected.as_bytes().as_slice());

    // a second instance with the same key derives the same id
    let (mut server2, _) = one_server();
    assert_eq!(server2.room_id(&"group/42".as_bytes().to_vec()), r1);

    // a diverging key cannot meet the same room
    let mut server3 = Server::init(vec![], "other".as_bytes().to_vec());
    assert_ne!(server3.room_id(&"group/42".as_bytes().to_vec()), r1);
}

#[test]
fn sub_then_unsub_excludes_room() {
    let (mut server, name) = one_server();
    let room = server.room_id(&"group/42".as_bytes().to_vec());
    server.sub(&room, &name).unwrap();
    let removed = server.unsub(&room, &name).unwrap();
    assert!(removed);
    // nothing left to replay: the set excludes the room
    assert_eq!(server.replay_subs(&name).unwrap().len(), 0);
}

#[test]
fn sub_twice_unsub_once_keeps_room() {
    let (mut server, name) = one_server();
    let room = server.room_id(&"group/42".as_bytes().to_vec());
    server.sub(&room, &name).unwrap();
    server.sub(&room, &name).unwrap();
    let removed = server.unsub(&room, &name).unwrap();
    assert!(!removed);
    let replay = server.replay_subs(&name).unwrap();
    assert_eq!(replay.len(), 1);
    assert_eq!(replay[0].room_id, room);
}

#[test]
fn unknown_server_is_config_error() {
    let (mut server, _name) = one_server();
    let room = server.room_id(&"group/42".as_bytes().to_vec());
    let bogus = "t".as_bytes().to_vec();
    assert_eq!(server.sub(&room, &bogus), Err(Error::Config));
    assert_eq!(server.unsub(&room, &bogus), Err(Error::Config));
}

#[test]
fn outbound_queue_keeps_order() {
    // two packets enqueued one after the other leave in that order
    let (mut server, name) = one_server();
    let r1 = server.room_id(&"a".as_bytes().to_vec());
    let r2 = server.room_id(&"b".as_bytes().to_vec());
    let p1 = Packet::new_sub(r1.clone());
    let p2 = Packet::new_unsub(r2.clone());
    server.send(p1.clone(), &name).unwrap();
    server.send(p2.clone(), &name).unwrap();
    assert_eq!(server.next_outbound(&name), Some(p1));
    assert_eq!(server.next_outbound(&name), Some(p2));
    assert_eq!(server.next_outbound(&name), None);
}

#[test]
fn inbox_correlation_out_of_order() {
    // two concurrent requests; responses come back in reverse order and each
    // resolves the right waiter
    let (mut server, name) = one_server();
    let room = server.room_id(&"group/42".as_bytes().to_vec());
    let q1 = Packet::new_sub(room.clone());
    let q2 = Packet::new_sub(room.clone());
    let sent1 = server.request(q1, &name, 1).unwrap();
    let sent2 = server.request(q2, &name, 2).unwrap();
    let id1 = match &sent1.inbox {
        Some(Inbox::Request { id }) => id.clone(),
        _ => panic!("request must attach an inbox token"),
    };
    let id2 = match &sent2.inbox {
        Some(Inbox::Request { id }) => id.clone(),
        _ => panic!("request must attach an inbox token"),
    };
    assert_ne!(id1, id2);

    let mut resp2 = Packet::new_sub(room.clone());
    resp2.inbox = Some(Inbox::Respond { id: id2 });
    let mut resp1 = Packet::new_sub(room.clone());
    resp1.inbox = Some(Inbox::Respond { id: id1 });

    assert_eq!(server.handle_rest_pkt(&resp2), Some(2));
    assert_eq!(server.handle_rest_pkt(&resp1), Some(1));
    // a second delivery of the same id resolves nothing
    assert_eq!(server.handle_rest_pkt(&resp1), None);

    // a packet without a response token resolves nothing
    let plain = Packet::new_sub(room);
    assert_eq!(server.handle_rest_pkt(&plain), None);
}

#[test]
fn reconnect_replays_subscriptions() {
    // subscribe to two rooms, drain what was sent, then ask for the replay a
    // reconnect performs: both rooms get a fresh Sub packet
    let (mut server, name) = one_server();
    let r1 = server.room_id(&"r1".as_bytes().to_vec());
    let r2 = server.room_id(&"r2".as_bytes().to_vec());
    server.sub(&r1, &name).unwrap();
    server.sub(&r2, &name).unwrap();

    // the two original Sub packets
    let s1 = server.next_outbound(&name).unwrap();
    let s2 = server.next_outbound(&name).unwrap();
    assert_eq!(s1.room_id, r1);
    assert_eq!(s2.room_id, r2);
    assert_eq!(server.next_outbound(&name), None);

    // the replay after a reconnect
    let replay = server.replay_subs(&name).unwrap();
    assert_eq!(replay.len(), 2);
    assert_eq!(replay[0].room_id, r1);
    assert_eq!(replay[1].room_id, r2);
    for p in replay {
        assert_eq!(p.ty, PacketKind::Ctl);
        assert_eq!(p.ctl, Some(Ctl::Sub));
        assert!(p.content.is_empty());
        assert!(p.nonce.is_empty());
    }
}

#[test]
fn connection_state_machine() {
    // an unexpected loss reconnects; a takeover does not
    let (s1, a1) = conn_step(ConnState::Idle, ConnEvent::Dial);
    assert_eq!(s1, ConnState::Connecting);
    assert_eq!(a1, ConnAction::StartHandshake);
    let (s2, a2) = conn_step(s1, ConnEvent::HandshakeOk);
    assert_eq!(s2, ConnState::Open);
    assert_eq!(a2, ConnAction::SpawnTasksAndReplay);
    let (s3, a3) = conn_step(s2, ConnEvent::NetError);
    assert_eq!(s3, ConnState::Closing { reconnect: true });
    assert_eq!(a3, ConnAction::BeginClose);
    let (s4, a4) = conn_step(s3, ConnEvent::TasksExited);
    assert_eq!(s4, ConnState::Closed);
    assert_eq!(a4, ConnAction::EnqueueReconnect);

    let (t3, t3a) = conn_step(ConnState::Open, ConnEvent::TakeOver);
    assert_eq!(t3, ConnState::Closing { reconnect: false });
    assert_eq!(t3a, ConnAction::CloseConflict);
    let (t4, t4a) = conn_step(t3, ConnEvent::TasksExited);
    assert_eq!(t4, ConnState::Closed);
    assert_eq!(t4a, ConnAction::Stay);
}

#[test]
fn retry_budget() {
    assert_eq!(retry_delay(0), Some(10));
    assert_eq!(retry_delay(1), Some(10));
    assert_eq!(retry_delay(149), Some(10));
    assert_eq!(retry_delay(150), None);
    assert_eq!(retry_delay(10_000), None);
}

#[test]
fn endpoint_decisions() {
    // a domain with no port gets the default
    match resolve_address("msgist://example.com".as_bytes()).unwrap() {
        Endpoint::ByName { name, port } => {
            assert_eq!(name, "example.com".as_bytes().to_vec());
            assert_eq!(port, 6996);
        }
        other => panic!("expected a name endpoint, got {:?}", other),
    }
    // the relay scheme is not one the URL grammar singles out, so even a
    // literal address comes back as an opaque host name; the port is kept
    match resolve_address("msgist://127.0.0.1:7000".as_bytes()).unwrap() {
        Endpoint::ByName { name, port } => {
            assert_eq!(name, "127.0.0.1".as_bytes().to_vec());
            assert_eq!(port, 7000);
        }
        other => panic!("expected a host endpoint, got {:?}", other),
    }
    // parts that carry a literal address map to an address endpoint
    let parts = mesagisto::conn::UrlParts {
        scheme: "msgist".as_bytes().to_vec(),
        host: mesagisto::conn::HostPart::Ipv4 {
            octets: vec![127, 0, 0, 1],
        },
        port: Some(7000),
    };
    match endpoint_of(&parts).unwrap() {
        Endpoint::ByIp { octets, port } => {
            assert_eq!(octets, vec![127, 0, 0, 1]);
            assert_eq!(port, 7000);
        }
        other => panic!("expected an address endpoint, got {:?}", other),
    }
    // a foreign scheme is a configuration error
    assert_eq!(
        resolve_address("https://example.com".as_bytes()),
        Err(Error::Config)
    );
    // garbage is a configuration error
    assert_eq!(resolve_address("not a url".as_bytes()), Err(Error::Config));
    let parts = mesagisto::conn::UrlParts {
        scheme: "msgist".as_bytes().to_vec(),
        host: mesagisto::conn::HostPart::Missing,
        port: None,
    };
    assert_eq!(endpoint_of(&parts), Err(Error::Config));
}
