use prefix_server::codec::{decode_block, decode_transaction, encode_input, encode_tx_legacy, TxInput};
use prefix_server::hashing::{fingerprint_input, tx_id};

const GENESIS_COINBASE: &str = "01000000010000000000000000000000000000000000000000000000000000000000000000ffffffff4d04ffff001d0104455468652054696d65732030332f4a616e2f32303039204368616e63656c6c6f72206f6e206272696e6b206f66207365636f6e64206261696c6f757420666f722062616e6b73ffffffff0100f2052a01000000434104678afdb0fe5548271967f1a67130b7105cd6a828e03909a67962e0ea1f61deb649f6bc3f4cef38c4f35504e51ec112de5c384df7ba0b8d578a4c702b6bf11d5fac00000000";

fn genesis_tx_bytes() -> Vec<u8> {
    hex::decode(GENESIS_COINBASE).unwrap()
}

#[test]
fn decode_genesis_coinbase() {
    let raw = genesis_tx_bytes();
    let tx = decode_transaction(&raw).unwrap();
    assert_eq!(tx.version, 1);
    assert_eq!(tx.inputs.len(), 1);
    assert_eq!(tx.outputs.len(), 1);
    assert_eq!(tx.lock_time, 0);
    assert!(tx.witness.is_empty());
    assert_eq!(tx.inputs[0].prev_txid, vec![0u8; 32]);
    assert_eq!(tx.inputs[0].prev_vout, 0xffffffff);
    assert_eq!(tx.inputs[0].sequence, 0xffffffff);
    assert_eq!(tx.inputs[0].script_sig.len(), 77);
    assert_eq!(tx.outputs[0].value, 50_0000_0000);
    assert_eq!(tx.outputs[0].script_pubkey.len(), 67);
}

#[test]
fn genesis_txid_display_order() {
    let raw = genesis_tx_bytes();
    let tx = decode_transaction(&raw).unwrap();
    let id = tx_id(&tx);
    assert_eq!(
        hex::encode(&id),
        "4a5e1e4baab89f3a32518a88c31bc87f618f76673e2cc77ab2127b7afdeda33b"
    );
}

#[test]
fn legacy_encode_round_trip() {
    let raw = genesis_tx_bytes();
    let tx = decode_transaction(&raw).unwrap();
    assert_eq!(encode_tx_legacy(&tx), raw);
}

#[test]
fn trailing_bytes_refused_for_transactions() {
    let mut raw = genesis_tx_bytes();
    raw.push(0x00);
    assert!(decode_transaction(&raw).is_err());
}

#[test]
fn truncated_transaction_refused() {
    let raw = genesis_tx_bytes();
    assert!(decode_transaction(&raw[..raw.len() - 1]).is_err());
    assert!(decode_transaction(&raw[..10]).is_err());
    assert!(decode_transaction(&[]).is_err());
}

#[test]
fn non_minimal_count_refused() {
    // The genesis coinbase with its input count 1 re-encoded as the
    // three-byte form fd 01 00: consensus decoding demands the minimal
    // encoding.
    let raw = genesis_tx_bytes();
    let mut widened = Vec::new();
    widened.extend_from_slice(&raw[..4]);
    widened.extend_from_slice(&[0xfd, 0x01, 0x00]);
    widened.extend_from_slice(&raw[5..]);
    assert!(decode_transaction(&widened).is_err());
}

fn segwit_tx_bytes() -> Vec<u8> {
    let mut raw = Vec::new();
    raw.extend_from_slice(&[0x02, 0x00, 0x00, 0x00]); // version 2
    raw.extend_from_slice(&[0x00, 0x01]); // marker, flag
    raw.push(0x01); // one input
    raw.extend_from_slice(&[0x11; 32]); // spent txid
    raw.extend_from_slice(&[0x03, 0x00, 0x00, 0x00]); // vout 3
    raw.push(0x00); // empty script_sig
    raw.extend_from_slice(&[0xff, 0xff, 0xff, 0xff]); // sequence
    raw.push(0x01); // one output
    raw.extend_from_slice(&[0x01, 0x00, 0x00, 0x00, 0x00, 0x00, 0x00, 0x00]); // 1 unit
    raw.extend_from_slice(&[0x01, 0x51]); // script: OP_TRUE
    raw.extend_from_slice(&[0x01, 0x02, 0xaa, 0xbb]); // one witness stack: one item, 2 bytes
    raw.extend_from_slice(&[0x00, 0x00, 0x00, 0x00]); // lock time
    raw
}

#[test]
fn decode_segwit_transaction() {
    let tx = decode_transaction(&segwit_tx_bytes()).unwrap();
    assert_eq!(tx.version, 2);
    assert_eq!(tx.inputs.len(), 1);
    assert_eq!(tx.inputs[0].prev_vout, 3);
    assert_eq!(tx.outputs.len(), 1);
    assert_eq!(tx.outputs[0].value, 1);
    assert_eq!(tx.witness, vec![vec![vec![0xaa, 0xbb]]]);
}

#[test]
fn segwit_flag_other_than_one_refused() {
    let mut raw = segwit_tx_bytes();
    raw[5] = 0x02; // flag byte
    assert!(decode_transaction(&raw).is_err());
}

#[test]
fn txid_ignores_witness_data() {
    let segwit = decode_transaction(&segwit_tx_bytes()).unwrap();
    // The same transaction, re-decoded from its legacy (witness-free)
    // serialization, must carry the same identifier.
    let legacy = decode_transaction(&encode_tx_legacy(&segwit)).unwrap();
    assert!(legacy.witness.is_empty());
    assert_eq!(tx_id(&segwit), tx_id(&legacy));
}

#[test]
fn fingerprint_is_sha256_of_canonical_encoding() {
    let input = TxInput {
        prev_txid: vec![7u8; 32],
        prev_vout: 1,
        script_sig: vec![0xde, 0xad],
        sequence: 0xfffffffe,
    };
    let encoded = encode_input(&input);
    // The canonical encoding, written out by hand.
    let mut expected = Vec::new();
    expected.extend_from_slice(&[7u8; 32]);
    expected.extend_from_slice(&[0x01, 0x00, 0x00, 0x00]);
    expected.extend_from_slice(&[0x02, 0xde, 0xad]);
    expected.extend_from_slice(&[0xfe, 0xff, 0xff, 0xff]);
    assert_eq!(encoded, expected);
    let digest = bitcoin_hashes::sha256::Hash::hash(&expected).to_byte_array().to_vec();
    assert_eq!(fingerprint_input(&input), digest);
}

#[test]
fn fingerprint_deterministic_across_transactions() {
    let raw = genesis_tx_bytes();
    let tx_a = decode_transaction(&raw).unwrap();
    let tx_b = decode_transaction(&segwit_tx_bytes()).unwrap();
    // The same canonical input fields, arriving in unrelated
    // transactions, fingerprint identically.
    let input_a = TxInput {
        prev_txid: tx_a.inputs[0].prev_txid.clone(),
        prev_vout: tx_a.inputs[0].prev_vout,
        script_sig: tx_a.inputs[0].script_sig.clone(),
        sequence: tx_a.inputs[0].sequence,
    };
    assert_eq!(fingerprint_input(&input_a), fingerprint_input(&tx_a.inputs[0]));
    assert_ne!(fingerprint_input(&tx_a.inputs[0]), fingerprint_input(&tx_b.inputs[0]));
}

#[test]
fn decode_block_with_transactions() {
    let mut raw = vec![0u8; 80]; // header
    raw.push(0x02); // two transactions
    raw.extend_from_slice(&genesis_tx_bytes());
    raw.extend_from_slice(&segwit_tx_bytes());
    let block = decode_block(&raw).unwrap();
    assert_eq!(block.header.len(), 80);
    assert_eq!(block.txdata.len(), 2);
    assert_eq!(block.txdata[0].inputs.len(), 1);
    assert_eq!(block.txdata[1].version, 2);
}

#[test]
fn decode_block_ignores_trailing_bytes() {
    let mut raw = vec![0u8; 80];
    raw.push(0x00);
    raw.push(0xab); // trailing garbage after a complete block
    let block = decode_block(&raw).unwrap();
    assert_eq!(block.txdata.len(), 0);
}

#[test]
fn decode_block_truncated_refused() {
    let raw = vec![0u8; 79];
    assert!(decode_block(&raw).is_err());
    let mut raw = vec![0u8; 80];
    raw.push(0x01); // promises one transaction, delivers none
    assert!(decode_block(&raw).is_err());
}
