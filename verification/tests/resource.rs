use mesagisto::cipher::Cipher;
use mesagisto::data::events::Event;
use mesagisto::data::Packet;
use mesagisto::data::PacketKind;
use mesagisto::data::Payload;
use mesagisto::error::Error;
use mesagisto::res::image_response_url;
use mesagisto::res::request_image_packet;
use mesagisto::res::FileStep;
use mesagisto::res::Res;

fn cache() -> Res {
    Res::init("/tmp/mesagisto".as_bytes().to_vec())
}

#[test]
fn paths_use_base64url_ids() {
    // id bytes [1,2,3] encode to AQID
    let res = cache();
    let name = "AQID".as_bytes().to_vec();
    assert_eq!(res.path(&name), "/tmp/mesagisto/AQID".as_bytes().to_vec());
    assert_eq!(
        res.tmp_path(&name),
        "/tmp/mesagisto/AQID.tmp".as_bytes().to_vec()
    );
    assert_eq!(
        res.put_file(&vec![1, 2, 3]),
        "/tmp/mesagisto/AQID".as_bytes().to_vec()
    );
}

#[test]
fn image_round_trip_by_url_decisions() {
    // two callers race on id [1,2,3]: the first sees no file and downloads;
    // the second sees the in-flight file and waits; both then resolve to the
    // same final path <dir>/AQID
    let mut res = cache();
    let id = vec![1, 2, 3];
    let url = "http://x/img.png".as_bytes().to_vec();

    let first = res.file_by_url(&id, &url, false, false);
    match first {
        FileStep::Download { url: u, tmp, dst } => {
            assert_eq!(u, url);
            assert_eq!(tmp, "/tmp/mesagisto/AQID.tmp".as_bytes().to_vec());
            assert_eq!(dst, "/tmp/mesagisto/AQID".as_bytes().to_vec());
        }
        other => panic!("the first caller must download, got {:?}", other),
    }

    // the second caller sees the tmp file and waits
    assert_eq!(res.file_by_url(&id, &url, false, true), FileStep::Wait);
    res.wait_for(&"AQID".as_bytes().to_vec(), 21);
    res.wait_for(&"AQID".as_bytes().to_vec(), 22);

    // the poller sees the final file arrive and serves every waiter once
    let served = res.drain_waiters(&"AQID".as_bytes().to_vec());
    assert_eq!(served, vec![21, 22]);
    // nobody is left waiting
    assert_eq!(res.drain_waiters(&"AQID".as_bytes().to_vec()), Vec::<u64>::new());

    // once the blob is cached, callers are handed the final path
    match res.file_by_url(&id, &url, true, false) {
        FileStep::UsePath { path } => {
            assert_eq!(path, "/tmp/mesagisto/AQID".as_bytes().to_vec())
        }
        other => panic!("a cached blob must be used directly, got {:?}", other),
    }
}

#[test]
fn image_round_trip_by_uid_decisions() {
    // a caller without a URL is sent to the transport; the request packet
    // decrypts to the image request, and the answer carries the URL to fetch
    let res = cache();
    let cipher = Cipher::init("this is key".as_bytes().to_vec());
    let room = vec![5u8; 16];
    let id = vec![1, 2, 3];

    assert_eq!(res.file_by_uid(&id, false, false), FileStep::Request);

    let pkt = request_image_packet(&id, room.clone(), &cipher).unwrap();
    assert_eq!(pkt.ty, PacketKind::Event);
    assert_eq!(pkt.room_id, room);
    let req = pkt.decrypt(&cipher).unwrap();
    assert_eq!(
        req,
        Payload::EventPayload(Event::RequestImage { id: id.clone() })
    );

    // the mock peer answers with the URL; the caller recurses into the
    // by-URL path and downloads
    let answer = Event::RespondImage {
        id: id.clone(),
        url: "http://x/y".as_bytes().to_vec(),
    };
    let answer_pkt = Packet::new(room, &Payload::EventPayload(answer), &cipher).unwrap();
    let opened = answer_pkt.decrypt(&cipher).unwrap();
    let url = image_response_url(&opened, &id).unwrap();
    assert_eq!(url, "http://x/y".as_bytes().to_vec());
    match res.file_by_uid(&id, true, false) {
        FileStep::UsePath { .. } => {}
        other => panic!("a cached blob must be used directly, got {:?}", other),
    }
    match res.file(&id, &Some(url), false, false) {
        FileStep::Download { .. } => {}
        other => panic!("with a URL in hand the caller downloads, got {:?}", other),
    }
}

#[test]
fn waiters_of_distinct_ids_stay_apart() {
    let mut res = cache();
    res.wait_for(&"AQID".as_bytes().to_vec(), 1);
    res.wait_for(&"BBBB".as_bytes().to_vec(), 2);
    let ids = res.pending_ids();
    assert_eq!(ids.len(), 2);
    assert_eq!(res.drain_waiters(&"AQID".as_bytes().to_vec()), vec![1]);
    assert_eq!(res.drain_waiters(&"BBBB".as_bytes().to_vec()), vec![2]);
}

#[test]
fn answers_for_other_requests_are_refused() {
    // only the response that carries the asked id resolves the request
    let id = vec![1, 2, 3];
    let good = Payload::EventPayload(Event::RespondImage {
        id: id.clone(),
        url: "http://x/y".as_bytes().to_vec(),
    });
    assert_eq!(
        image_response_url(&good, &id),
        Ok("http://x/y".as_bytes().to_vec())
    );
    let other = Payload::EventPayload(Event::RespondImage {
        id: vec![9],
        url: "http://x/y".as_bytes().to_vec(),
    });
    assert_eq!(image_response_url(&other, &id), Err(Error::Protocol));
    let request = Payload::EventPayload(Event::RequestImage { id: id.clone() });
    assert_eq!(image_response_url(&request, &id), Err(Error::Protocol));
}
