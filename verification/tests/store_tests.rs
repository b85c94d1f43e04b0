use prefix_server::db::{decode_db_item, encode_db_item, BlockInterval, DbItem, KeyDB};

fn item(tx_id: &[u8], input_index: u32, block_height: u32) -> DbItem {
    DbItem { tx_id: tx_id.to_vec(), input_index, block_height }
}

fn all_heights() -> Option<BlockInterval> {
    Some(BlockInterval { start: 0, end: 0 })
}

#[test]
fn db_item_round_trip() {
    let it = item(&[9u8; 32], 5, 123456);
    let raw = encode_db_item(&it);
    let back = decode_db_item(&raw).unwrap();
    assert_eq!(back.tx_id, it.tx_id);
    assert_eq!(back.input_index, 5);
    assert_eq!(back.block_height, 123456);
    assert!(decode_db_item(&raw[..7]).is_none());
}

#[test]
fn put_then_read_back() {
    let mut db = KeyDB::try_new("index-db").unwrap();
    db.put(&[0xaa, 0xbb], &item(&[1u8; 32], 0, 0)).unwrap();
    let found = db.prefix_iter(&[0xaa, 0xbb], all_heights());
    assert_eq!(found.len(), 1);
    assert_eq!(found[0].tx_id, vec![1u8; 32]);
}

#[test]
fn idempotent_overwrite() {
    // Putting the same (fingerprint, record) twice leaves exactly one
    // stored record for that fingerprint with that value.
    let mut db = KeyDB::try_new("index-db").unwrap();
    let it = item(&[2u8; 32], 1, 7);
    db.put(&[0x01, 0x02], &it).unwrap();
    db.put(&[0x01, 0x02], &it).unwrap();
    let found = db.prefix_iter(&[0x01, 0x02], all_heights());
    assert_eq!(found.len(), 1);
    assert_eq!(found[0].tx_id, vec![2u8; 32]);
    assert_eq!(found[0].input_index, 1);
    assert_eq!(found[0].block_height, 7);
}

#[test]
fn confirm_overwrite() {
    // A record first written at height 0 and rewritten at a positive
    // height reads back as the confirmed record only.
    let mut db = KeyDB::try_new("index-db").unwrap();
    let fingerprint = [0x42u8, 0x43, 0x44];
    db.put(&fingerprint, &item(&[3u8; 32], 0, 0)).unwrap();
    db.put(&fingerprint, &item(&[3u8; 32], 0, 815)).unwrap();
    let found = db.prefix_iter(&fingerprint, all_heights());
    assert_eq!(found.len(), 1);
    assert_eq!(found[0].block_height, 815);
    // And it no longer counts as unconfirmed.
    assert_eq!(db.prefix_iter(&fingerprint, None).len(), 0);
}

#[test]
fn prefix_scan_boundary() {
    // Keys 0xAA00, 0xAABB, 0xAB00: a scan for 0xAA returns exactly the
    // first two, in key order, and excludes 0xAB00.
    let mut db = KeyDB::try_new("index-db").unwrap();
    db.put(&[0xab, 0x00], &item(&[3u8; 32], 3, 0)).unwrap();
    db.put(&[0xaa, 0xbb], &item(&[2u8; 32], 2, 0)).unwrap();
    db.put(&[0xaa, 0x00], &item(&[1u8; 32], 1, 0)).unwrap();
    let found = db.prefix_iter(&[0xaa], all_heights());
    assert_eq!(found.len(), 2);
    assert_eq!(found[0].tx_id, vec![1u8; 32]);
    assert_eq!(found[1].tx_id, vec![2u8; 32]);
    let none = db.prefix_iter(&[0xff, 0xff], all_heights());
    assert_eq!(none.len(), 0);
}

#[test]
fn height_filter_semantics() {
    let mut db = KeyDB::try_new("index-db").unwrap();
    db.put(&[0x10], &item(&[1u8; 32], 0, 0)).unwrap();
    db.put(&[0x11], &item(&[2u8; 32], 0, 5)).unwrap();
    db.put(&[0x12], &item(&[3u8; 32], 0, 10)).unwrap();
    // No filter: unconfirmed records only.
    let unconfirmed = db.prefix_iter(&[], None);
    assert_eq!(unconfirmed.len(), 1);
    assert_eq!(unconfirmed[0].block_height, 0);
    // Open-ended interval: every height at or above start.
    let from_five = db.prefix_iter(&[], Some(BlockInterval { start: 5, end: 0 }));
    assert_eq!(from_five.len(), 2);
    assert_eq!(from_five[0].block_height, 5);
    assert_eq!(from_five[1].block_height, 10);
    // Closed interval: both ends inclusive.
    let window = db.prefix_iter(&[], Some(BlockInterval { start: 1, end: 5 }));
    assert_eq!(window.len(), 1);
    assert_eq!(window[0].block_height, 5);
}

#[test]
fn scan_is_in_key_order_after_unordered_puts() {
    let mut db = KeyDB::try_new("index-db").unwrap();
    db.put(&[0x05, 0x01], &item(&[2u8; 32], 0, 0)).unwrap();
    db.put(&[0x05], &item(&[1u8; 32], 0, 0)).unwrap();
    db.put(&[0x05, 0x02, 0x00], &item(&[3u8; 32], 0, 0)).unwrap();
    let found = db.prefix_iter(&[0x05], all_heights());
    // A proper prefix sorts before its extensions.
    assert_eq!(found.len(), 3);
    assert_eq!(found[0].tx_id, vec![1u8; 32]);
    assert_eq!(found[1].tx_id, vec![2u8; 32]);
    assert_eq!(found[2].tx_id, vec![3u8; 32]);
}

#[test]
fn empty_prefix_scans_everything() {
    let mut db = KeyDB::try_new("index-db").unwrap();
    db.put(&[0x01], &item(&[1u8; 32], 0, 1)).unwrap();
    db.put(&[0xff], &item(&[2u8; 32], 0, 2)).unwrap();
    let found = db.prefix_iter(&[], all_heights());
    assert_eq!(found.len(), 2);
}

#[test]
fn close_consumes_the_store() {
    let db = KeyDB::try_new("index-db").unwrap();
    db.close();
}
