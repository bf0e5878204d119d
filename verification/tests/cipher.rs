use mesagisto::cipher::Cipher;
use mesagisto::data::events::Event;
use mesagisto::data::message::Message;
use mesagisto::data::message::MessageType;
use mesagisto::data::message::Profile;
use mesagisto::data::Packet;
use mesagisto::data::PacketKind;
use mesagisto::data::Payload;
use mesagisto::error::Error;
use sha2::Digest;

fn room16() -> Vec<u8> {
    vec![7u8; 16]
}

#[test]
fn key_derivation_is_sha256() {
    let cipher = Cipher::init("this is key".as_bytes().to_vec());
    assert_eq!(cipher.key.len(), 32);
    // the key is the SHA-256 digest of the passphrase
    let expected = sha2::Sha256::digest("this is key".as_bytes()).to_vec();
    assert_eq!(cipher.key, expected);
    assert_eq!(cipher.origin_key, "this is key".as_bytes().to_vec());
}

#[test]
fn encrypt_decrypt_round_trip() {
    let cipher = Cipher::init("this is key".as_bytes().to_vec());
    let nonce = Cipher::new_nonce();
    assert_eq!(nonce.len(), 12);
    let plain = "attack at dawn".as_bytes().to_vec();
    let ct = cipher.encrypt(&nonce, &plain).unwrap();
    assert_eq!(ct.len(), plain.len() + 16);
    let back = cipher.decrypt(&nonce, &ct).unwrap();
    assert_eq!(back, plain);
}

#[test]
fn wrong_key_fails_with_cipher_error() {
    let cipher = Cipher::init("this is key".as_bytes().to_vec());
    let other = Cipher::init("this is another key".as_bytes().to_vec());
    let nonce = Cipher::new_nonce();
    let plain = "attack at dawn".as_bytes().to_vec();
    let ct = cipher.encrypt(&nonce, &plain).unwrap();
    assert_eq!(other.decrypt(&nonce, &ct), Err(Error::Cipher));
}

#[test]
fn tampered_ciphertext_fails() {
    let cipher = Cipher::init("this is key".as_bytes().to_vec());
    let nonce = Cipher::new_nonce();
    let plain = "attack at dawn".as_bytes().to_vec();
    let mut ct = cipher.encrypt(&nonce, &plain).unwrap();
    ct[0] ^= 1;
    assert_eq!(cipher.decrypt(&nonce, &ct), Err(Error::Cipher));
}

#[test]
fn short_nonce_fails() {
    let cipher = Cipher::init("this is key".as_bytes().to_vec());
    let nonce = vec![0u8; 11];
    let plain = "x".as_bytes().to_vec();
    assert_eq!(cipher.encrypt(&nonce, &plain), Err(Error::Cipher));
    assert_eq!(cipher.decrypt(&nonce, &plain), Err(Error::Cipher));
}

#[test]
fn echo_message_round_trip() {
    // cipher key "this is key"; a one-line text message encodes, encrypts,
    // decrypts and decodes back to itself
    let cipher = Cipher::init("this is key".as_bytes().to_vec());
    let message = Message {
        profile: Profile {
            id: vec![0, 0, 0, 1],
            username: None,
            nick: None,
        },
        id: vec![0x69, 0x64],
        reply: None,
        chain: vec![MessageType::Text {
            content: "hi".as_bytes().to_vec(),
        }],
        from: vec![0, 0, 0, 2],
    };
    let payload = Payload::MsgPayload(message);
    let packet = Packet::new(room16(), &payload, &cipher).unwrap();
    assert_eq!(packet.ty, PacketKind::Message);
    assert_eq!(packet.room_id, room16());
    assert_eq!(packet.nonce.len(), 12);
    let back = packet.decrypt(&cipher).unwrap();
    assert_eq!(back, payload);
}

#[test]
fn packet_decrypt_with_wrong_key_fails() {
    let cipher = Cipher::init("this is key".as_bytes().to_vec());
    let other = Cipher::init("another key".as_bytes().to_vec());
    let payload = Payload::EventPayload(Event::RequestImage { id: vec![1, 2, 3] });
    let packet = Packet::new(room16(), &payload, &cipher).unwrap();
    assert_eq!(packet.decrypt(&other), Err(Error::Cipher));
}

#[test]
fn ctl_packet_does_not_decrypt() {
    let cipher = Cipher::init("this is key".as_bytes().to_vec());
    let sub = Packet::new_sub(room16());
    assert_eq!(sub.decrypt(&cipher), Err(Error::Protocol));
}

#[test]
fn fresh_nonce_per_encryption() {
    let cipher = Cipher::init("this is key".as_bytes().to_vec());
    let payload = Payload::EventPayload(Event::RequestImage { id: vec![1] });
    let p1 = Packet::new(room16(), &payload, &cipher).unwrap();
    let p2 = Packet::new(room16(), &payload, &cipher).unwrap();
    // the nonce is drawn fresh per encryption; a repeat of 12 random bytes
    // is beyond unlikely
    assert_ne!(p1.nonce, p2.nonce);
}
