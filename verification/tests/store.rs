use mesagisto::db::store::tree_open;
use mesagisto::db::Db;
use mesagisto::error::Error;

#[test]
fn image_ids_round_trip() {
    let tree = tree_open("/tmp/mesagisto-store-test/image".as_bytes()).unwrap();
    let mut db = Db::init("store-test-image".as_bytes().to_vec(), tree);
    db.put_image_id(&[1, 2, 3], &[9, 9]).unwrap();
    assert_eq!(db.get_image_id(&[1, 2, 3]), Some(vec![9, 9]));
    db.put_image_id(&[1, 2, 3], &[8]).unwrap();
    assert_eq!(db.get_image_id(&[1, 2, 3]), Some(vec![8]));
    assert_eq!(db.get_image_id(&[4, 4, 4]), None);
}

#[test]
fn message_ids_need_a_registered_tree() {
    let tree = tree_open("/tmp/mesagisto-store-test-mid/image".as_bytes()).unwrap();
    let mut db = Db::init("store-test-mid".as_bytes().to_vec(), tree);
    let target = vec![0, 0, 0, 7];

    // before a tree is registered the conversation is refused, and a lookup
    // holds nothing
    assert_eq!(
        db.put_msg_id(&target, &[1], &[2], false),
        Err(Error::Config)
    );
    assert_eq!(db.get_msg_id(&target, &vec![1]), Ok(None));

    // the caller opens the tree at the store's documented location
    let path = db.msg_db_path(&target);
    assert_eq!(
        path,
        "db/store-test-mid/msg-id/AAAABw".as_bytes().to_vec()
    );
    let mid_tree = tree_open("/tmp/mesagisto-store-test-mid/msgid".as_bytes()).unwrap();
    assert!(db.register_msg_db(target.clone(), mid_tree));

    // a stored mapping reads back; the reverse direction only when asked
    db.put_msg_id(&target, &[1], &[2], false).unwrap();
    assert_eq!(db.get_msg_id(&target, &vec![1]), Ok(Some(vec![2])));
    assert_eq!(db.get_msg_id(&target, &vec![2]), Ok(None));

    db.put_msg_id(&target, &[3], &[4], true).unwrap();
    assert_eq!(db.get_msg_id(&target, &vec![3]), Ok(Some(vec![4])));
    assert_eq!(db.get_msg_id(&target, &vec![4]), Ok(Some(vec![3])));
}
