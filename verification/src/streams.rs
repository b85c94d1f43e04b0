//! The ingestion pipelines' record-building and writing steps.
//!
//! Both the live feed and the backfill walk hand raw bytes in here:
//! a transaction or a block is decoded through the wire codec, tagged
//! with its confirmation height, expanded into one record per input,
//! and written to the index store. The feed transports themselves are
//! the caller's concern.

use vstd::prelude::*;
use vstd::slice::slice_to_vec;

use crate::codec::{decode_block, decode_transaction, parse_block, parse_tx, Transaction, TransactionView};
use crate::db::{spec_put, DbItem, DbItemView, KeyDB};
use crate::errors::{DecodeError, StreamError};
use crate::hashing::{fingerprint_input, fingerprint_of, tx_id, tx_id_of};

verus! {

/// The views of a sequence of (fingerprint, record) pairs.
pub open spec fn pair_views(s: Seq<(Vec<u8>, DbItem)>) -> Seq<(Seq<u8>, DbItemView)> {
    s.map_values(|e: (Vec<u8>, DbItem)| (e.0@, e.1@))
}

/// The records a transaction confirmed at `height` contributes: one per
/// input, keyed by the input's fingerprint, carrying the transaction's
/// identifier and the input's position.
pub open spec fn spec_tx_items(height: u32, t: TransactionView) -> Seq<(Seq<u8>, DbItemView)> {
    Seq::new(
        t.inputs.len(),
        |k: int|
            (
                fingerprint_of(t.inputs[k]),
                DbItemView { tx_id: tx_id_of(t), input_index: k as u32, block_height: height },
            ),
    )
}

/// The records of a run of transactions, in order.
pub open spec fn spec_txs_items(height: u32, ts: Seq<TransactionView>) -> Seq<
    (Seq<u8>, DbItemView),
>
    decreases ts.len(),
{
    if ts.len() == 0 {
        Seq::empty()
    } else {
        spec_tx_items(height, ts[0]) + spec_txs_items(height, ts.drop_first())
    }
}

/// Whether every transaction's input count fits an input index.
pub open spec fn txs_inputs_fit(ts: Seq<TransactionView>) -> bool {
    forall|i: int| 0 <= i < ts.len() ==> (#[trigger] ts[i]).inputs.len() <= u32::MAX
}

/// What a raw unconfirmed transaction contributes: its records at
/// height 0, or nothing if the bytes are malformed.
pub open spec fn spec_raw_tx_items(raw: Seq<u8>) -> Option<Seq<(Seq<u8>, DbItemView)>> {
    match parse_tx(raw, 0) {
        Some((t, j)) => if j == raw.len() && t.inputs.len() <= u32::MAX {
            Some(spec_tx_items(0, t))
        } else {
            None
        },
        None => None,
    }
}

/// What a raw block confirmed at `height` contributes: the records of
/// all its transactions, in block order, or nothing if malformed.
pub open spec fn spec_block_items(height: u32, raw: Seq<u8>) -> Option<Seq<(Seq<u8>, DbItemView)>> {
    match parse_block(raw, 0) {
        Some((b, _)) => if txs_inputs_fit(b.txdata) {
            Some(spec_txs_items(height, b.txdata))
        } else {
            None
        },
        None => None,
    }
}

/// The store after the pairs are written in order, each an upsert.
pub open spec fn spec_put_items(
    m: Seq<(Seq<u8>, DbItemView)>,
    items: Seq<(Seq<u8>, DbItemView)>,
) -> Seq<(Seq<u8>, DbItemView)>
    decreases items.len(),
{
    if items.len() == 0 {
        m
    } else {
        spec_put_items(spec_put(m, items[0].0, items[0].1), items.drop_first())
    }
}

/// Writing one more pair extends the fold by one upsert.
proof fn lemma_put_items_snoc(
    m: Seq<(Seq<u8>, DbItemView)>,
    items: Seq<(Seq<u8>, DbItemView)>,
    x: (Seq<u8>, DbItemView),
)
    ensures
        spec_put_items(m, items.push(x)) == spec_put(spec_put_items(m, items), x.0, x.1),
    decreases items.len(),
{
    reveal_with_fuel(spec_put_items, 3);
    if items.len() == 0 {
        assert(items.push(x)[0] == x);
        assert(items.push(x).drop_first() =~= Seq::<(Seq<u8>, DbItemView)>::empty());
    } else {
        assert(items.push(x)[0] == items[0]);
        assert(items.push(x).drop_first() =~= items.drop_first().push(x));
        lemma_put_items_snoc(spec_put(m, items[0].0, items[0].1), items.drop_first(), x);
    }
}

/// Expands one transaction into its records: for each input, its
/// fingerprint paired with a record naming the transaction, the input's
/// position, and the given confirmation height.
#[verifier::rlimit(50)]
pub fn tx_to_items(block_height: u32, tx: &Transaction) -> (r: Vec<(Vec<u8>, DbItem)>)
    requires
        tx@.inputs.len() <= u32::MAX,
    ensures
        pair_views(r@) == spec_tx_items(block_height, tx@),
{
    let txid = tx_id(tx);
    let mut out: Vec<(Vec<u8>, DbItem)> = Vec::new();
    let n = tx.inputs.len();
    proof {
        assert(pair_views(out@) =~= spec_tx_items(block_height, tx@).take(0));
    }
    for k in 0..n
        invariant
            n == tx.inputs@.len(),
            n <= u32::MAX,
            txid@ == tx_id_of(tx@),
            pair_views(out@) == spec_tx_items(block_height, tx@).take(k as int),
    {
        let ghost out_before = out@;
        let fp = fingerprint_input(&tx.inputs[k]);
        let item = DbItem {
            tx_id: slice_to_vec(txid.as_slice()),
            input_index: k as u32,
            block_height,
        };
        out.push((fp, item));
        proof {
            let items = spec_tx_items(block_height, tx@);
            assert(tx@.inputs[k as int] == tx.inputs@[k as int]@);
            assert(fp@ == items[k as int].0);
            assert(item@ == items[k as int].1);
            assert(pair_views(out@) =~= pair_views(out_before).push((fp@, item@)));
            assert(items.take(k + 1) =~= items.take(k as int).push(items[k as int]));
        }
    }
    proof {
        assert(spec_tx_items(block_height, tx@).take(n as int) =~= spec_tx_items(
            block_height,
            tx@,
        ));
    }
    out
}

/// Decodes a raw unconfirmed transaction from the feed and expands it
/// into records at height 0. Malformed bytes fail the pipeline.
pub fn raw_tx_to_items(raw_tx: &[u8]) -> (r: Result<Vec<(Vec<u8>, DbItem)>, StreamError>)
    ensures
        r is Ok <==> spec_raw_tx_items(raw_tx@) is Some,
        r is Ok ==> Some(pair_views(r->Ok_0@)) == spec_raw_tx_items(raw_tx@),
        r is Err ==> r->Err_0 is Deserialization,
{
    let tx = match decode_transaction(raw_tx) {
        Ok(tx) => tx,
        Err(e) => {
            return Err(StreamError::Deserialization(e));
        },
    };
    if tx.inputs.len() > 0xffff_ffffusize {
        return Err(StreamError::Deserialization(DecodeError));
    }
    Ok(tx_to_items(0, &tx))
}

/// Writing one more transaction's records appends them to the run's.
proof fn lemma_txs_items_snoc(height: u32, ts: Seq<TransactionView>)
    requires
        ts.len() > 0,
    ensures
        spec_txs_items(height, ts) == spec_txs_items(height, ts.drop_last()) + spec_tx_items(
            height,
            ts.last(),
        ),
    decreases ts.len(),
{
    if ts.len() == 1 {
        assert(ts.drop_last() =~= Seq::<TransactionView>::empty());
        assert(ts.drop_first() =~= Seq::<TransactionView>::empty());
        assert(spec_txs_items(height, ts) =~= spec_txs_items(height, ts.drop_last())
            + spec_tx_items(height, ts.last()));
    } else {
        lemma_txs_items_snoc(height, ts.drop_first());
        assert(ts.drop_first().drop_last() =~= ts.drop_last().drop_first());
        assert(ts.drop_first().last() == ts.last());
        assert(ts.drop_last()[0] == ts[0]);
        assert(spec_txs_items(height, ts) =~= spec_txs_items(height, ts.drop_last())
            + spec_tx_items(height, ts.last()));
    }
}

/// Decodes a raw block and expands every contained transaction into
/// records at the given confirmation height, in block order. Malformed
/// bytes fail the pipeline.
pub fn block_to_items(block_height: u32, raw_block: &[u8]) -> (r: Result<
    Vec<(Vec<u8>, DbItem)>,
    StreamError,
>)
    ensures
        r is Ok <==> spec_block_items(block_height, raw_block@) is Some,
        r is Ok ==> Some(pair_views(r->Ok_0@)) == spec_block_items(block_height, raw_block@),
        r is Err ==> r->Err_0 is Deserialization,
{
    let block = match decode_block(raw_block) {
        Ok(b) => b,
        Err(e) => {
            return Err(StreamError::Deserialization(e));
        },
    };
    let ghost ts = block@.txdata;
    let mut out: Vec<(Vec<u8>, DbItem)> = Vec::new();
    let n = block.txdata.len();
    proof {
        assert(pair_views(out@) =~= spec_txs_items(block_height, ts.take(0)));
    }
    for i in 0..n
        invariant
            n == block.txdata@.len(),
            ts == block@.txdata,
            parse_block(raw_block@, 0) is Some,
            parse_block(raw_block@, 0)->Some_0.0.txdata == ts,
            forall|j: int| 0 <= j < i ==> (#[trigger] ts[j]).inputs.len() <= u32::MAX,
            pair_views(out@) == spec_txs_items(block_height, ts.take(i as int)),
    {
        proof {
            assert(ts[i as int] == block.txdata@[i as int]@);
        }
        if block.txdata[i].inputs.len() > 0xffff_ffffusize {
            return Err(StreamError::Deserialization(DecodeError));
        }
        let mut pairs = tx_to_items(block_height, &block.txdata[i]);
        let ghost pairs_v = pair_views(pairs@);
        let ghost out_before = out@;
        out.append(&mut pairs);
        proof {
            lemma_txs_items_snoc(block_height, ts.take(i + 1));
            assert(ts.take(i + 1).drop_last() =~= ts.take(i as int));
            assert(ts.take(i + 1).last() == ts[i as int]);
            assert(pair_views(out@) =~= pair_views(out_before) + pairs_v);
        }
    }
    proof {
        assert(ts.take(n as int) =~= ts);
        assert(txs_inputs_fit(ts));
    }
    Ok(out)
}

/// Writes a batch of records to the store, one atomic upsert per pair,
/// in order.
pub fn insert_items(db: &mut KeyDB, items: &Vec<(Vec<u8>, DbItem)>)
    requires
        old(db).wf(),
    ensures
        final(db).wf(),
        final(db)@ == spec_put_items(old(db)@, pair_views(items@)),
{
    let n = items.len();
    proof {
        assert(pair_views(items@).take(0) =~= Seq::<(Seq<u8>, DbItemView)>::empty());
    }
    for i in 0..n
        invariant
            n == items@.len(),
            db.wf(),
            db@ == spec_put_items(old(db)@, pair_views(items@).take(i as int)),
    {
        let _ = db.put(items[i].0.as_slice(), &items[i].1);
        proof {
            assert(pair_views(items@).take(i + 1) =~= pair_views(items@).take(i as int).push(
                (items@[i as int].0@, items@[i as int].1@),
            ));
            lemma_put_items_snoc(
                old(db)@,
                pair_views(items@).take(i as int),
                (items@[i as int].0@, items@[i as int].1@),
            );
        }
    }
    proof {
        assert(pair_views(items@).take(n as int) =~= pair_views(items@));
    }
}

} // verus!
