//! Content addressing: the input fingerprint and the transaction
//! identifier.
//!
//! Both are SHA-256 derivations over canonical encodings from the wire
//! codec. The hash itself comes from an outside implementation and its
//! value is named, not stated: `sha256_of` stands for whatever SHA-256
//! returns, and every contract above it speaks of that name.

use vstd::prelude::*;

use crate::codec::{enc_input, enc_tx_legacy, encode_input, encode_tx_legacy, Transaction, TransactionView, TxInput, TxInputView};

verus! {

/// The SHA-256 digest of `data`. The digest is a fixed function of the
/// bytes alone; its value is stated nowhere and comes only from the
/// outside implementation.
pub uninterp spec fn sha256_of(data: Seq<u8>) -> Seq<u8>;

/// Relies on `bitcoin_hashes::sha256::Hash::hash`: the SHA-256 digest
/// of the given bytes, 32 bytes long.
#[verifier::external_body]
fn sha256(data: &[u8]) -> (r: Vec<u8>)
    ensures
        r@ == sha256_of(data@),
        r@.len() == 32,
{
    bitcoin_hashes::sha256::Hash::hash(data).to_byte_array().to_vec()
}

/// The fingerprint of one input: the SHA-256 digest of its canonical
/// encoding. This is the index key.
pub open spec fn fingerprint_of(i: TxInputView) -> Seq<u8> {
    sha256_of(enc_input(i))
}

/// Computes an input's fingerprint: the SHA-256 digest of its canonical
/// encoding (spent-output reference, unlock script, sequence number).
///
/// The derivation is deterministic and order-sensitive: it depends on
/// the encoded bytes alone, not on the transaction the input sits in
/// nor on the path the input arrived by.
pub fn fingerprint_input(input: &TxInput) -> (r: Vec<u8>)
    ensures
        r@ == fingerprint_of(input@),
        r@.len() == 32,
{
    let raw = encode_input(input);
    sha256(raw.as_slice())
}

/// Two inputs with the same canonical encoding have the same
/// fingerprint, whatever transactions they belong to.
pub proof fn lemma_fingerprint_deterministic(a: TxInputView, b: TxInputView)
    requires
        enc_input(a) == enc_input(b),
    ensures
        fingerprint_of(a) == fingerprint_of(b),
{
}

/// The transaction identifier: the double SHA-256 digest of the legacy
/// encoding (witness data excluded), byte-reversed into the node's
/// display order.
pub open spec fn tx_id_of(t: TransactionView) -> Seq<u8> {
    sha256_of(sha256_of(enc_tx_legacy(t))).reverse()
}

/// Computes a transaction's identifier: double SHA-256 over the legacy
/// encoding, with the byte order reversed to the node's display order,
/// as later RPC lookups expect it.
pub fn tx_id(tx: &Transaction) -> (r: Vec<u8>)
    ensures
        r@ == tx_id_of(tx@),
        r@.len() == 32,
{
    let raw = encode_tx_legacy(tx);
    let once = sha256(raw.as_slice());
    let twice = sha256(once.as_slice());
    let mut reversed: Vec<u8> = Vec::new();
    let n = twice.len();
    for i in 0..n
        invariant
            n == twice@.len(),
            reversed@.len() == i,
            forall|j: int| 0 <= j < i ==> reversed@[j] == twice@[n - 1 - j],
    {
        reversed.push(twice[n - 1 - i]);
    }
    proof {
        assert(reversed@ =~= twice@.reverse());
    }
    reversed
}

} // verus!
