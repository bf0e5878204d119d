use mesagisto::data::message::Message;
use mesagisto::data::message::MessageType;
use mesagisto::data::message::Profile;
use mesagisto::db::store::tree_open;
use mesagisto::error::Error;
use mesagisto::fmt_bytes;
use mesagisto::ByteWidth;
use mesagisto::MesagistoConfig;
use mesagisto::OkExt;
use mesagisto::OptionExt;
use mesagisto::ResultExt;

fn config(key: &str) -> MesagistoConfig {
    MesagistoConfig {
        name: "facade-test".as_bytes().to_vec(),
        proxy: None,
        cipher_key: key.as_bytes().to_vec(),
        skip_verify: false,
        custom_cert: None,
        remote_address: vec![(
            "s".as_bytes().to_vec(),
            "msgist://example.com".as_bytes().to_vec(),
        )],
        same_side_deliver: false,
    }
}

#[test]
fn apply_builds_the_library() {
    let tree = tree_open("/tmp/mesagisto-facade-test/image".as_bytes()).unwrap();
    let lib = config("secret").apply("/tmp/mesagisto".as_bytes().to_vec(), tree).unwrap();
    assert_eq!(lib.cipher.origin_key, "secret".as_bytes().to_vec());
    assert_eq!(lib.server.origin_key, "secret".as_bytes().to_vec());
    assert_eq!(lib.res.directory, "/tmp/mesagisto".as_bytes().to_vec());
    assert_eq!(lib.db.db_name, "facade-test".as_bytes().to_vec());
}

#[test]
fn missing_cipher_key_is_refused() {
    assert_eq!(config("").validate(), Err(Error::Config));
    let mut dup = config("secret");
    dup.remote_address.push((
        "s".as_bytes().to_vec(),
        "msgist://other.example".as_bytes().to_vec(),
    ));
    assert_eq!(dup.validate(), Err(Error::Config));
    assert_eq!(config("secret").validate(), Ok(()));
}

#[test]
fn byte_width_classes() {
    assert_eq!(fmt_bytes(&vec![0; 4]), ByteWidth::Int32);
    assert_eq!(fmt_bytes(&vec![0; 8]), ByteWidth::Int64);
    assert_eq!(fmt_bytes(&vec![0; 16]), ByteWidth::Uuid);
    assert_eq!(fmt_bytes(&vec![0; 3]), ByteWidth::Raw);
    assert_eq!(fmt_bytes(&Vec::new()), ByteWidth::Raw);
}

#[test]
fn extension_traits() {
    let ok: Result<u8, ()> = Ok(1);
    let err: Result<u8, ()> = Err(());
    assert_eq!(ok.ignore(), Some(1));
    assert_eq!(err.ignore(), None);
    assert_eq!(ok.log(), Some(1));
    assert_eq!(err.log(), None);
    let v: Result<u8, ()> = 5u8.ok();
    assert_eq!(v, Ok(5));
    assert_eq!(7u8.some(), Some(7));
    assert_eq!(7u8.some_ref(), Some(&7));
}

#[test]
fn message_helpers() {
    let profile = Profile {
        id: vec![1],
        username: None,
        nick: None,
    };
    let m = Message::new(
        profile,
        7,
        vec![MessageType::Text {
            content: "hey".as_bytes().to_vec(),
        }],
    );
    assert_eq!(m.id, 7i32.to_be_bytes().to_vec());
    assert!(m.reply.is_none());
    assert!(m.from.is_empty());
    // a four-byte id is not a 64-bit id
    assert_eq!(m.id_i64(), None);

    let mut m2 = m;
    m2.id = 99i64.to_be_bytes().to_vec();
    assert_eq!(m2.id_i64(), Some(99));
    m2.id = (-2i64).to_be_bytes().to_vec();
    assert_eq!(m2.id_i64(), Some(-2));
}
