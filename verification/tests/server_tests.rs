use prefix_server::client::{active_chain_height, BitcoinClient, ChainTip, Network};
use prefix_server::codec::{decode_transaction, encode_tx_legacy};
use prefix_server::db::{BlockInterval, DbItem, KeyDB};
use prefix_server::errors::{HexDecodeError, ScrapeError, ServerError};
use prefix_server::hashing::{fingerprint_input, tx_id};
use prefix_server::scraper::{scrape_abort, scrape_step, Status};
use prefix_server::server::{assemble_item, prefix_search, Public, SearchParams};
use prefix_server::settings::Settings;
use prefix_server::streams::{insert_items, raw_tx_to_items, tx_to_items};

const GENESIS_COINBASE: &str = "01000000010000000000000000000000000000000000000000000000000000000000000000ffffffff4d04ffff001d0104455468652054696d65732030332f4a616e2f32303039204368616e63656c6c6f72206f6e206272696e6b206f66207365636f6e64206261696c6f757420666f722062616e6b73ffffffff0100f2052a01000000434104678afdb0fe5548271967f1a67130b7105cd6a828e03909a67962e0ea1f61deb649f6bc3f4cef38c4f35504e51ec112de5c384df7ba0b8d578a4c702b6bf11d5fac00000000";

fn new_public() -> Public {
    Public {
        key_db: KeyDB::try_new("index-db").unwrap(),
        bitcoin_client: BitcoinClient::new(
            "http://127.0.0.1:18443".to_string(),
            "username".to_string(),
            "password".to_string(),
        ),
        status: Status::default(),
        settings: Settings::default(),
    }
}

fn block_bytes(txs: &[Vec<u8>]) -> Vec<u8> {
    let mut raw = vec![0u8; 80];
    raw.push(txs.len() as u8);
    for tx in txs {
        raw.extend_from_slice(tx);
    }
    raw
}

#[test]
fn prefix_gate_fails_fast() {
    // With the configured minimum of 2 bytes, a 1-byte prefix is
    // refused before the store is consulted.
    let public = new_public();
    assert_eq!(public.settings.min_prefix, 2);
    let r = public.prefix_search(&SearchParams { prefix: vec![0xaa], interval: None });
    assert!(matches!(r, Err(ServerError::PrefixTooShort)));
}

#[test]
fn prefix_not_found() {
    let public = new_public();
    let r = public.prefix_search(&SearchParams { prefix: vec![0xff, 0xff], interval: None });
    assert!(matches!(r, Err(ServerError::PrefixNotFound)));
}

#[test]
fn prefix_search_returns_matches() {
    let mut public = new_public();
    let it = DbItem { tx_id: vec![1u8; 32], input_index: 0, block_height: 9 };
    public.key_db.put(&[0xaa, 0xbb, 0xcc], &it).unwrap();
    let r = public
        .prefix_search(
            &SearchParams {
                prefix: vec![0xaa, 0xbb],
                interval: Some(BlockInterval { start: 0, end: 0 }),
            },
        )
        .unwrap();
    assert_eq!(r.len(), 1);
    assert_eq!(r[0].block_height, 9);
}

#[test]
fn hex_prefix_search_validates() {
    let db = KeyDB::try_new("index-db").unwrap();
    // Too short: one byte of prefix against a two-byte minimum.
    let r = prefix_search(b"aa".to_vec(), &db, 2);
    assert!(matches!(r, Err(ServerError::PrefixTooShort)));
    // Odd number of digits.
    let r = prefix_search(b"aabbc".to_vec(), &db, 2);
    assert!(matches!(r, Err(ServerError::InvalidHex(HexDecodeError::OddLength))));
    // Not hex at all.
    let r = prefix_search(b"zzzz".to_vec(), &db, 2);
    assert!(matches!(r, Err(ServerError::InvalidHex(HexDecodeError::InvalidCharacter))));
    // Well-formed but matching nothing.
    let r = prefix_search(b"ffff".to_vec(), &db, 2);
    assert!(matches!(r, Err(ServerError::PrefixNotFound)));
}

#[test]
fn hex_prefix_search_finds_unconfirmed() {
    let mut db = KeyDB::try_new("index-db").unwrap();
    db.put(&[0xaa, 0xbb], &DbItem { tx_id: vec![5u8; 32], input_index: 2, block_height: 0 })
        .unwrap();
    db.put(&[0xaa, 0xcc], &DbItem { tx_id: vec![6u8; 32], input_index: 0, block_height: 44 })
        .unwrap();
    // The hex search scans unconfirmed records only.
    let r = prefix_search(b"AABB".to_vec(), &db, 2).unwrap();
    assert_eq!(r.len(), 1);
    assert_eq!(r[0].input_index, 2);
    let r = prefix_search(b"aacc".to_vec(), &db, 2);
    assert!(matches!(r, Err(ServerError::PrefixNotFound)));
}

#[test]
fn single_flight_scrape() {
    let mut public = new_public();
    assert!(public.scrape(BlockInterval { start: 100, end: 200 }, 0).is_ok());
    assert!(matches!(public.status(), Status::Scraping(100, 100, 200)));
    // A second call fails fast and does not alter the first run's
    // cursor.
    let second = public.scrape(BlockInterval { start: 0, end: 50 }, 0);
    assert!(matches!(second, Err(ScrapeError::AlreadyScraping)));
    assert!(matches!(public.status(), Status::Scraping(100, 100, 200)));
    // One processed block moves the cursor strictly inside the range.
    let empty_block = block_bytes(&[]);
    let done = scrape_step(&mut public.status, &mut public.key_db, &empty_block).unwrap();
    assert!(!done);
    match public.status() {
        Status::Scraping(cursor, start, end) => {
            assert_eq!((start, end), (100, 200));
            assert!(100 < cursor && cursor < 200);
        },
        Status::Idle => panic!("run should still be in progress"),
    }
    // After an abort the status reads idle again.
    scrape_abort(&mut public.status);
    assert!(matches!(public.status(), Status::Idle));
}

#[test]
fn scrape_completes_range_and_goes_idle() {
    let mut public = new_public();
    assert!(public.scrape(BlockInterval { start: 5, end: 7 }, 0).is_ok());
    let empty_block = block_bytes(&[]);
    assert_eq!(scrape_step(&mut public.status, &mut public.key_db, &empty_block).unwrap(), false);
    assert_eq!(scrape_step(&mut public.status, &mut public.key_db, &empty_block).unwrap(), true);
    assert!(matches!(public.status(), Status::Idle));
}

#[test]
fn scrape_resolves_open_end_at_chain_tip() {
    let mut public = new_public();
    assert!(public.scrape(BlockInterval { start: 10, end: 0 }, 42).is_ok());
    assert!(matches!(public.status(), Status::Scraping(10, 10, 42)));
}

#[test]
fn scrape_empty_range_completes_at_once() {
    let mut public = new_public();
    assert!(public.scrape(BlockInterval { start: 7, end: 7 }, 0).is_ok());
    assert!(matches!(public.status(), Status::Idle));
}

#[test]
fn partial_backfill_on_failure() {
    // The node fails while fetching the third block of a [100, 103)
    // range: records from the earlier heights stay queryable, the
    // cursor never passes the failure, and the status returns to idle.
    let mut public = new_public();
    assert!(public.scrape(BlockInterval { start: 100, end: 103 }, 0).is_ok());
    let tx_raw = hex::decode(GENESIS_COINBASE).unwrap();
    let good_block = block_bytes(&[tx_raw.clone()]);
    assert_eq!(
        scrape_step(&mut public.status, &mut public.key_db, &good_block).unwrap(),
        false
    );
    assert_eq!(
        scrape_step(&mut public.status, &mut public.key_db, &block_bytes(&[])).unwrap(),
        false
    );
    assert!(matches!(public.status(), Status::Scraping(102, 100, 103)));
    // The fetch of block 102 fails: a malformed body aborts the run.
    let r = scrape_step(&mut public.status, &mut public.key_db, &[0u8; 12]);
    assert!(r.is_err());
    assert!(matches!(public.status(), Status::Idle));
    // What height 100 wrote is still there, confirmed at 100.
    let tx = decode_transaction(&tx_raw).unwrap();
    let fp = fingerprint_input(&tx.inputs[0]);
    let found = public.key_db.prefix_iter(&fp, Some(BlockInterval { start: 100, end: 100 }));
    assert_eq!(found.len(), 1);
    assert_eq!(found[0].tx_id, tx_id(&tx));
    assert_eq!(found[0].input_index, 0);
}

#[test]
fn streaming_enrichment() {
    // A prefix matching two stored records yields two items, each with
    // the right input index and the transaction body fetched under the
    // record's identifier.
    let mut db = KeyDB::try_new("index-db").unwrap();
    let body_a = hex::decode(GENESIS_COINBASE).unwrap();
    let tx_a = decode_transaction(&body_a).unwrap();
    let id_a = tx_id(&tx_a);
    let mut tx_b = decode_transaction(&body_a).unwrap();
    tx_b.lock_time = 1;
    let body_b = encode_tx_legacy(&tx_b);
    let id_b = tx_id(&tx_b);
    db.put(&[0x77, 0x01], &DbItem { tx_id: id_a.clone(), input_index: 0, block_height: 0 })
        .unwrap();
    db.put(&[0x77, 0x02], &DbItem { tx_id: id_b.clone(), input_index: 1, block_height: 0 })
        .unwrap();
    let records = prefix_search(b"77".to_vec(), &db, 1).unwrap();
    assert_eq!(records.len(), 2);
    // The node, as the caller would consult it, keyed by identifier.
    let node: Vec<(Vec<u8>, Vec<u8>)> = vec![(id_a, body_a), (id_b, body_b)];
    let mut items = Vec::new();
    for record in &records {
        let body = node.iter().find(|(id, _)| *id == record.tx_id).unwrap().1.clone();
        items.push(assemble_item(body, record));
    }
    assert_eq!(items.len(), 2);
    assert_eq!(items[0].input_index, 0);
    assert_eq!(items[1].input_index, 1);
    assert_eq!(items[0].raw_tx, node[0].1);
    assert_eq!(items[1].raw_tx, node[1].1);
}

#[test]
fn tx_to_items_one_record_per_input() {
    let tx = decode_transaction(&hex::decode(GENESIS_COINBASE).unwrap()).unwrap();
    let items = tx_to_items(7, &tx);
    assert_eq!(items.len(), 1);
    assert_eq!(items[0].0, fingerprint_input(&tx.inputs[0]));
    assert_eq!(items[0].1.tx_id, tx_id(&tx));
    assert_eq!(items[0].1.input_index, 0);
    assert_eq!(items[0].1.block_height, 7);
}

#[test]
fn raw_tx_to_items_tags_height_zero() {
    let raw = hex::decode(GENESIS_COINBASE).unwrap();
    let items = raw_tx_to_items(&raw).unwrap();
    assert_eq!(items.len(), 1);
    assert_eq!(items[0].1.block_height, 0);
    assert!(raw_tx_to_items(&raw[..20]).is_err());
}

#[test]
fn insert_items_writes_every_pair() {
    let mut db = KeyDB::try_new("index-db").unwrap();
    let tx = decode_transaction(&hex::decode(GENESIS_COINBASE).unwrap()).unwrap();
    let items = tx_to_items(3, &tx);
    insert_items(&mut db, &items);
    let found = db.prefix_iter(&[], Some(BlockInterval { start: 0, end: 0 }));
    assert_eq!(found.len(), 1);
    assert_eq!(found[0].block_height, 3);
}

#[test]
fn settings_defaults() {
    let s = Settings::default();
    assert_eq!(s.bind, "127.0.0.1:8080");
    assert_eq!(s.node_ip, "127.0.0.1");
    assert_eq!(s.rpc_port, 18443);
    assert_eq!(s.rpc_username, "username");
    assert_eq!(s.rpc_password, "password");
    assert_eq!(s.zmq_port, 28332);
    assert_eq!(s.db_path, ".prefix-server/db");
    assert_eq!(s.min_prefix, 2);
}

#[test]
fn network_names() {
    assert_eq!(Network::Mainnet.to_string(), "mainnet");
    assert_eq!(Network::Testnet.to_string(), "testnet");
    assert_eq!(Network::Regnet.to_string(), "regnet");
}

#[test]
fn client_holds_parameters() {
    let c = BitcoinClient::new("http://node:1".to_string(), "u".to_string(), "p".to_string());
    assert_eq!(c.endpoint, "http://node:1");
    assert_eq!(c.username, "u");
    assert_eq!(c.password, "p");
}

#[test]
fn active_tip_is_first_active() {
    let tips = vec![
        ChainTip { height: 9, active: false },
        ChainTip { height: 7, active: true },
        ChainTip { height: 8, active: true },
    ];
    assert_eq!(active_chain_height(&tips), Some(7));
    assert_eq!(active_chain_height(&vec![]), None);
    assert_eq!(
        active_chain_height(&vec![ChainTip { height: 1, active: false }]),
        None
    );
}

#[test]
fn server_error_messages() {
    assert_eq!(ServerError::PrefixNotFound.message(), "prefix not found");
    assert_eq!(ServerError::PrefixTooShort.message(), "prefix too short");
    assert_eq!(
        ServerError::InvalidHex(HexDecodeError::OddLength).message(),
        "invalid hex"
    );
    let from_hex: ServerError = ServerError::from(HexDecodeError::OddLength);
    assert!(matches!(from_hex, ServerError::InvalidHex(HexDecodeError::OddLength)));
}

#[test]
fn server_error_from_client_error() {
    let e = prefix_server::errors::ClientError { message: "connection refused".to_string() };
    let wrapped = ServerError::from(e);
    assert!(matches!(wrapped, ServerError::Client(_)));
    assert_eq!(wrapped.message(), "client error");
}

#[test]
fn status_default_is_idle() {
    assert!(matches!(Status::default(), Status::Idle));
}
