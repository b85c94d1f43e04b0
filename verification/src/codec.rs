//! The wire codec: the node's consensus serialization of transactions
//! and blocks.
//!
//! The byte format is stated by spec functions (`enc_*` for producing
//! bytes, `parse_*` for reading them); the executable encoders and
//! decoders are proved to agree with them exactly. A transaction is
//! serialized as: version (4 bytes little endian), its inputs and
//! outputs behind compact-size counts, and the lock time (4 bytes);
//! a segregated-witness transaction puts a zero marker and a flag byte
//! of one after the version and appends one witness stack per input
//! before the lock time. A block is an 80-byte header followed by its
//! transactions behind a compact-size count.

use vstd::prelude::*;
use vstd::slice::{slice_subrange, slice_to_vec};

use crate::errors::DecodeError;

verus! {

/// One transaction input: the output it spends, the unlock script, and
/// the sequence number. These are the canonical fields that the input's
/// fingerprint is derived from; witness data stands apart on the
/// transaction.
#[derive(Clone, Debug)]
pub struct TxInput {
    /// Identifier of the transaction whose output is spent (32 bytes,
    /// in the wire's internal byte order).
    pub prev_txid: Vec<u8>,
    /// Index of the spent output within that transaction.
    pub prev_vout: u32,
    /// The unlock script.
    pub script_sig: Vec<u8>,
    /// The sequence number.
    pub sequence: u32,
}

/// The mathematical value of a `TxInput`.
pub ghost struct TxInputView {
    pub prev_txid: Seq<u8>,
    pub prev_vout: u32,
    pub script_sig: Seq<u8>,
    pub sequence: u32,
}

impl View for TxInput {
    type V = TxInputView;

    open spec fn view(&self) -> TxInputView {
        TxInputView {
            prev_txid: self.prev_txid@,
            prev_vout: self.prev_vout,
            script_sig: self.script_sig@,
            sequence: self.sequence,
        }
    }
}

/// One transaction output: its value and the lock script.
#[derive(Clone, Debug)]
pub struct TxOutput {
    /// Value in the smallest unit.
    pub value: u64,
    /// The lock script.
    pub script_pubkey: Vec<u8>,
}

/// The mathematical value of a `TxOutput`.
pub ghost struct TxOutputView {
    pub value: u64,
    pub script_pubkey: Seq<u8>,
}

impl View for TxOutput {
    type V = TxOutputView;

    open spec fn view(&self) -> TxOutputView {
        TxOutputView { value: self.value, script_pubkey: self.script_pubkey@ }
    }
}

/// A decoded transaction. `witness` holds one stack per input for a
/// segregated-witness transaction and is empty for a legacy one;
/// witness data takes no part in the transaction identifier or in input
/// fingerprints.
#[derive(Clone, Debug)]
pub struct Transaction {
    pub version: u32,
    pub inputs: Vec<TxInput>,
    pub outputs: Vec<TxOutput>,
    pub lock_time: u32,
    /// One witness stack per input, or empty for a legacy encoding.
    pub witness: Vec<Vec<Vec<u8>>>,
}

/// The mathematical value of a `Transaction`.
pub ghost struct TransactionView {
    pub version: u32,
    pub inputs: Seq<TxInputView>,
    pub outputs: Seq<TxOutputView>,
    pub lock_time: u32,
    pub witness: Seq<Seq<Seq<u8>>>,
}

/// The views of a sequence of inputs.
pub open spec fn input_views(s: Seq<TxInput>) -> Seq<TxInputView> {
    s.map_values(|x: TxInput| x@)
}

/// The views of a sequence of outputs.
pub open spec fn output_views(s: Seq<TxOutput>) -> Seq<TxOutputView> {
    s.map_values(|x: TxOutput| x@)
}

/// The views of a sequence of byte vectors.
pub open spec fn bytes_views(s: Seq<Vec<u8>>) -> Seq<Seq<u8>> {
    s.map_values(|x: Vec<u8>| x@)
}

/// The views of a sequence of witness stacks.
pub open spec fn stack_views(s: Seq<Vec<Vec<u8>>>) -> Seq<Seq<Seq<u8>>> {
    s.map_values(|x: Vec<Vec<u8>>| bytes_views(x@))
}

impl View for Transaction {
    type V = TransactionView;

    open spec fn view(&self) -> TransactionView {
        TransactionView {
            version: self.version,
            inputs: input_views(self.inputs@),
            outputs: output_views(self.outputs@),
            lock_time: self.lock_time,
            witness: stack_views(self.witness@),
        }
    }
}

/// A decoded block: the raw 80-byte header and the contained
/// transactions.
#[derive(Clone, Debug)]
pub struct Block {
    /// The raw block header (80 bytes).
    pub header: Vec<u8>,
    /// The block's transactions, in block order.
    pub txdata: Vec<Transaction>,
}

/// The mathematical value of a `Block`.
pub ghost struct BlockView {
    pub header: Seq<u8>,
    pub txdata: Seq<TransactionView>,
}

/// The views of a sequence of transactions.
pub open spec fn tx_views(s: Seq<Transaction>) -> Seq<TransactionView> {
    s.map_values(|x: Transaction| x@)
}

impl View for Block {
    type V = BlockView;

    open spec fn view(&self) -> BlockView {
        BlockView { header: self.header@, txdata: tx_views(self.txdata@) }
    }
}

// ------------------------------------------------------------------
// The encoding, stated.
// ------------------------------------------------------------------

/// A 16-bit integer, little endian.
pub open spec fn enc_u16_le(x: u16) -> Seq<u8> {
    seq![(x % 0x100) as u8, ((x / 0x100) % 0x100) as u8]
}

/// A 32-bit integer, little endian.
pub open spec fn enc_u32_le(x: u32) -> Seq<u8> {
    seq![
        (x % 0x100) as u8,
        ((x / 0x100) % 0x100) as u8,
        ((x / 0x10000) % 0x100) as u8,
        ((x / 0x1000000) % 0x100) as u8,
    ]
}

/// A 64-bit integer, little endian.
pub open spec fn enc_u64_le(x: u64) -> Seq<u8> {
    seq![
        (x % 0x100) as u8,
        ((x / 0x100) % 0x100) as u8,
        ((x / 0x10000) % 0x100) as u8,
        ((x / 0x1000000) % 0x100) as u8,
        ((x / 0x100000000) % 0x100) as u8,
        ((x / 0x10000000000) % 0x100) as u8,
        ((x / 0x1000000000000) % 0x100) as u8,
        ((x / 0x100000000000000) % 0x100) as u8,
    ]
}

/// A compact-size count: one byte below 0xfd, otherwise a width tag and
/// the smallest of 16, 32 or 64 bits that holds the value.
pub open spec fn enc_compact_size(n: u64) -> Seq<u8> {
    if n < 0xfd {
        seq![n as u8]
    } else if n <= 0xffff {
        seq![0xfdu8] + enc_u16_le(n as u16)
    } else if n <= 0xffffffff {
        seq![0xfeu8] + enc_u32_le(n as u32)
    } else {
        seq![0xffu8] + enc_u64_le(n)
    }
}

/// One input's canonical encoding: spent-output reference, unlock
/// script behind its length, sequence number. This is the byte string
/// the input's fingerprint is taken over.
pub open spec fn enc_input(i: TxInputView) -> Seq<u8> {
    i.prev_txid + enc_u32_le(i.prev_vout) + enc_compact_size(i.script_sig.len() as u64)
        + i.script_sig + enc_u32_le(i.sequence)
}

/// Inputs, one after the other.
pub open spec fn enc_inputs(s: Seq<TxInputView>) -> Seq<u8>
    decreases s.len(),
{
    if s.len() == 0 {
        Seq::empty()
    } else {
        enc_input(s[0]) + enc_inputs(s.drop_first())
    }
}

/// One output's encoding: value, lock script behind its length.
pub open spec fn enc_output(o: TxOutputView) -> Seq<u8> {
    enc_u64_le(o.value) + enc_compact_size(o.script_pubkey.len() as u64) + o.script_pubkey
}

/// Outputs, one after the other.
pub open spec fn enc_outputs(s: Seq<TxOutputView>) -> Seq<u8>
    decreases s.len(),
{
    if s.len() == 0 {
        Seq::empty()
    } else {
        enc_output(s[0]) + enc_outputs(s.drop_first())
    }
}

/// A transaction's legacy encoding, without witness data: the form the
/// transaction identifier is computed over, for segregated-witness
/// transactions as well as legacy ones.
pub open spec fn enc_tx_legacy(t: TransactionView) -> Seq<u8> {
    enc_u32_le(t.version) + enc_compact_size(t.inputs.len() as u64) + enc_inputs(t.inputs)
        + enc_compact_size(t.outputs.len() as u64) + enc_outputs(t.outputs) + enc_u32_le(
        t.lock_time,
    )
}

// ------------------------------------------------------------------
// Executable encoders.
// ------------------------------------------------------------------

/// Appends a 16-bit integer, little endian.
fn push_u16_le(out: &mut Vec<u8>, x: u16)
    ensures
        final(out)@ == old(out)@ + enc_u16_le(x),
{
    out.push((x % 0x100) as u8);
    out.push(((x / 0x100) % 0x100) as u8);
    proof {
        assert(out@ =~= old(out)@ + enc_u16_le(x));
    }
}

/// Appends a 32-bit integer, little endian.
pub(crate) fn push_u32_le(out: &mut Vec<u8>, x: u32)
    ensures
        final(out)@ == old(out)@ + enc_u32_le(x),
{
    out.push((x % 0x100) as u8);
    out.push(((x / 0x100) % 0x100) as u8);
    out.push(((x / 0x10000) % 0x100) as u8);
    out.push(((x / 0x1000000) % 0x100) as u8);
    proof {
        assert(out@ =~= old(out)@ + enc_u32_le(x));
    }
}

/// Appends a 64-bit integer, little endian.
fn push_u64_le(out: &mut Vec<u8>, x: u64)
    ensures
        final(out)@ == old(out)@ + enc_u64_le(x),
{
    out.push((x % 0x100) as u8);
    out.push(((x / 0x100) % 0x100) as u8);
    out.push(((x / 0x10000) % 0x100) as u8);
    out.push(((x / 0x1000000) % 0x100) as u8);
    out.push(((x / 0x100000000) % 0x100) as u8);
    out.push(((x / 0x10000000000) % 0x100) as u8);
    out.push(((x / 0x1000000000000) % 0x100) as u8);
    out.push(((x / 0x100000000000000) % 0x100) as u8);
    proof {
        assert(out@ =~= old(out)@ + enc_u64_le(x));
    }
}

/// Appends a compact-size count.
fn push_compact_size(out: &mut Vec<u8>, n: u64)
    ensures
        final(out)@ == old(out)@ + enc_compact_size(n),
{
    if n < 0xfd {
        out.push(n as u8);
        proof {
            assert(out@ =~= old(out)@ + enc_compact_size(n));
        }
    } else if n <= 0xffff {
        out.push(0xfd);
        push_u16_le(out, n as u16);
        proof {
            assert(out@ =~= old(out)@ + enc_compact_size(n));
        }
    } else if n <= 0xffffffff {
        out.push(0xfe);
        push_u32_le(out, n as u32);
        proof {
            assert(out@ =~= old(out)@ + enc_compact_size(n));
        }
    } else {
        out.push(0xff);
        push_u64_le(out, n);
        proof {
            assert(out@ =~= old(out)@ + enc_compact_size(n));
        }
    }
}

/// Re-serializes one input's canonical fields.
pub fn encode_input(input: &TxInput) -> (r: Vec<u8>)
    ensures
        r@ == enc_input(input@),
{
    let mut out: Vec<u8> = Vec::new();
    out.extend_from_slice(input.prev_txid.as_slice());
    push_u32_le(&mut out, input.prev_vout);
    push_compact_size(&mut out, input.script_sig.len() as u64);
    out.extend_from_slice(input.script_sig.as_slice());
    push_u32_le(&mut out, input.sequence);
    proof {
        assert(out@ =~= enc_input(input@));
    }
    out
}

/// Appends one output's encoding.
fn push_output(out: &mut Vec<u8>, output: &TxOutput)
    ensures
        final(out)@ == old(out)@ + enc_output(output@),
{
    push_u64_le(out, output.value);
    push_compact_size(out, output.script_pubkey.len() as u64);
    out.extend_from_slice(output.script_pubkey.as_slice());
    proof {
        assert(out@ =~= old(out)@ + enc_output(output@));
    }
}

/// Splitting a non-empty input sequence at its last element splits its
/// encoding the same way.
proof fn lemma_enc_inputs_snoc(s: Seq<TxInputView>)
    requires
        s.len() > 0,
    ensures
        enc_inputs(s) == enc_inputs(s.drop_last()) + enc_input(s.last()),
    decreases s.len(),
{
    if s.len() == 1 {
        assert(s.drop_last() =~= Seq::<TxInputView>::empty());
        assert(enc_inputs(s.drop_first()) == Seq::<u8>::empty());
        assert(enc_inputs(s) =~= enc_inputs(s.drop_last()) + enc_input(s.last()));
    } else {
        lemma_enc_inputs_snoc(s.drop_first());
        assert(s.drop_first().drop_last() =~= s.drop_last().drop_first());
        assert(s.drop_first().last() == s.last());
        assert(s.drop_last()[0] == s[0]);
        assert(enc_inputs(s) == enc_input(s[0]) + (enc_inputs(s.drop_first().drop_last())
            + enc_input(s.last())));
        assert(enc_inputs(s.drop_last()) == enc_input(s[0]) + enc_inputs(
            s.drop_last().drop_first(),
        ));
        assert(enc_inputs(s) =~= enc_inputs(s.drop_last()) + enc_input(s.last()));
    }
}

/// The same, for outputs.
proof fn lemma_enc_outputs_snoc(s: Seq<TxOutputView>)
    requires
        s.len() > 0,
    ensures
        enc_outputs(s) == enc_outputs(s.drop_last()) + enc_output(s.last()),
    decreases s.len(),
{
    if s.len() == 1 {
        assert(s.drop_last() =~= Seq::<TxOutputView>::empty());
        assert(enc_outputs(s.drop_first()) == Seq::<u8>::empty());
        assert(enc_outputs(s) =~= enc_outputs(s.drop_last()) + enc_output(s.last()));
    } else {
        lemma_enc_outputs_snoc(s.drop_first());
        assert(s.drop_first().drop_last() =~= s.drop_last().drop_first());
        assert(s.drop_first().last() == s.last());
        assert(s.drop_last()[0] == s[0]);
        assert(enc_outputs(s) == enc_output(s[0]) + (enc_outputs(s.drop_first().drop_last())
            + enc_output(s.last())));
        assert(enc_outputs(s.drop_last()) == enc_output(s[0]) + enc_outputs(
            s.drop_last().drop_first(),
        ));
        assert(enc_outputs(s) =~= enc_outputs(s.drop_last()) + enc_output(s.last()));
    }
}

/// Serializes a transaction in the legacy form, without witness data:
/// the byte string its identifier is computed over.
pub fn encode_tx_legacy(tx: &Transaction) -> (r: Vec<u8>)
    ensures
        r@ == enc_tx_legacy(tx@),
{
    let mut out: Vec<u8> = Vec::new();
    push_u32_le(&mut out, tx.version);
    push_compact_size(&mut out, tx.inputs.len() as u64);
    let ghost after_in_count = out@;
    let n_in = tx.inputs.len();
    proof {
        assert(input_views(tx.inputs@).take(0) =~= Seq::<TxInputView>::empty());
    }
    for i in 0..n_in
        invariant
            n_in == tx.inputs@.len(),
            out@ == after_in_count + enc_inputs(input_views(tx.inputs@).take(i as int)),
    {
        let piece = encode_input(&tx.inputs[i]);
        out.extend_from_slice(piece.as_slice());
        proof {
            let vs = input_views(tx.inputs@);
            lemma_enc_inputs_snoc(vs.take(i + 1));
            assert(vs.take(i + 1).drop_last() =~= vs.take(i as int));
            assert(vs.take(i + 1).last() == tx.inputs@[i as int]@);
        }
    }
    proof {
        assert(input_views(tx.inputs@).take(n_in as int) =~= input_views(tx.inputs@));
    }
    push_compact_size(&mut out, tx.outputs.len() as u64);
    let ghost after_out_count = out@;
    let n_out = tx.outputs.len();
    proof {
        assert(output_views(tx.outputs@).take(0) =~= Seq::<TxOutputView>::empty());
    }
    for i in 0..n_out
        invariant
            n_out == tx.outputs@.len(),
            out@ == after_out_count + enc_outputs(output_views(tx.outputs@).take(i as int)),
    {
        push_output(&mut out, &tx.outputs[i]);
        proof {
            let vs = output_views(tx.outputs@);
            lemma_enc_outputs_snoc(vs.take(i + 1));
            assert(vs.take(i + 1).drop_last() =~= vs.take(i as int));
            assert(vs.take(i + 1).last() == tx.outputs@[i as int]@);
        }
    }
    proof {
        assert(output_views(tx.outputs@).take(n_out as int) =~= output_views(tx.outputs@));
    }
    push_u32_le(&mut out, tx.lock_time);
    proof {
        assert(out@ =~= enc_tx_legacy(tx@));
    }
    out
}


// ------------------------------------------------------------------
// The encoding, read back: spec parsers.
//
// Each takes the bytes and a position and yields the parsed value and
// the position after it, or nothing on malformed input.
// ------------------------------------------------------------------

/// Reads a 16-bit integer, little endian.
pub open spec fn parse_u16_le(s: Seq<u8>, i: int) -> Option<(u16, int)> {
    if 0 <= i && i + 2 <= s.len() {
        Some(((s[i] as int + s[i + 1] as int * 0x100) as u16, i + 2))
    } else {
        None
    }
}

/// Reads a 32-bit integer, little endian.
pub open spec fn parse_u32_le(s: Seq<u8>, i: int) -> Option<(u32, int)> {
    if 0 <= i && i + 4 <= s.len() {
        Some(
            (
                (s[i] as int + s[i + 1] as int * 0x100 + s[i + 2] as int * 0x10000 + s[i + 3] as int
                    * 0x1000000) as u32,
                i + 4,
            ),
        )
    } else {
        None
    }
}

/// Reads a 64-bit integer, little endian.
pub open spec fn parse_u64_le(s: Seq<u8>, i: int) -> Option<(u64, int)> {
    if 0 <= i && i + 8 <= s.len() {
        Some(
            (
                (s[i] as int + s[i + 1] as int * 0x100 + s[i + 2] as int * 0x10000 + s[i + 3] as int
                    * 0x1000000 + s[i + 4] as int * 0x100000000 + s[i + 5] as int * 0x10000000000 + s[i
                    + 6] as int * 0x1000000000000 + s[i + 7] as int * 0x100000000000000) as u64,
                i + 8,
            ),
        )
    } else {
        None
    }
}

/// Reads a compact-size count. A count written wider than needed is
/// refused, as consensus decoding demands.
pub open spec fn parse_compact_size(s: Seq<u8>, i: int) -> Option<(u64, int)> {
    if 0 <= i && i < s.len() {
        let tag = s[i];
        if tag < 0xfd {
            Some((tag as u64, i + 1))
        } else if tag == 0xfd {
            match parse_u16_le(s, i + 1) {
                Some((v, j)) => if v >= 0xfd {
                    Some((v as u64, j))
                } else {
                    None
                },
                None => None,
            }
        } else if tag == 0xfe {
            match parse_u32_le(s, i + 1) {
                Some((v, j)) => if v > 0xffff {
                    Some((v as u64, j))
                } else {
                    None
                },
                None => None,
            }
        } else {
            match parse_u64_le(s, i + 1) {
                Some((v, j)) => if v > 0xffffffff {
                    Some((v, j))
                } else {
                    None
                },
                None => None,
            }
        }
    } else {
        None
    }
}

/// Reads `n` raw bytes.
pub open spec fn parse_bytes(s: Seq<u8>, i: int, n: int) -> Option<(Seq<u8>, int)> {
    if 0 <= i && 0 <= n && i + n <= s.len() {
        Some((s.subrange(i, i + n), i + n))
    } else {
        None
    }
}

/// Reads one input: spent-output reference, unlock script, sequence.
pub open spec fn parse_input(s: Seq<u8>, i: int) -> Option<(TxInputView, int)> {
    match parse_bytes(s, i, 32) {
        Some((txid, i1)) => match parse_u32_le(s, i1) {
            Some((vout, i2)) => match parse_compact_size(s, i2) {
                Some((slen, i3)) => match parse_bytes(s, i3, slen as int) {
                    Some((script, i4)) => match parse_u32_le(s, i4) {
                        Some((seqn, i5)) => Some(
                            (
                                TxInputView {
                                    prev_txid: txid,
                                    prev_vout: vout,
                                    script_sig: script,
                                    sequence: seqn,
                                },
                                i5,
                            ),
                        ),
                        None => None,
                    },
                    None => None,
                },
                None => None,
            },
            None => None,
        },
        None => None,
    }
}

/// Reads `n` inputs, one after the other.
pub open spec fn parse_inputs(s: Seq<u8>, i: int, n: u64) -> Option<(Seq<TxInputView>, int)>
    decreases n,
{
    if n == 0 {
        Some((Seq::empty(), i))
    } else {
        match parse_input(s, i) {
            Some((v, j)) => match parse_inputs(s, j, (n - 1) as u64) {
                Some((rest, k)) => Some((seq![v] + rest, k)),
                None => None,
            },
            None => None,
        }
    }
}

/// Reads one output: value, lock script.
pub open spec fn parse_output(s: Seq<u8>, i: int) -> Option<(TxOutputView, int)> {
    match parse_u64_le(s, i) {
        Some((value, i1)) => match parse_compact_size(s, i1) {
            Some((slen, i2)) => match parse_bytes(s, i2, slen as int) {
                Some((script, i3)) => Some(
                    (TxOutputView { value: value, script_pubkey: script }, i3),
                ),
                None => None,
            },
            None => None,
        },
        None => None,
    }
}

/// Reads `n` outputs, one after the other.
pub open spec fn parse_outputs(s: Seq<u8>, i: int, n: u64) -> Option<(Seq<TxOutputView>, int)>
    decreases n,
{
    if n == 0 {
        Some((Seq::empty(), i))
    } else {
        match parse_output(s, i) {
            Some((v, j)) => match parse_outputs(s, j, (n - 1) as u64) {
                Some((rest, k)) => Some((seq![v] + rest, k)),
                None => None,
            },
            None => None,
        }
    }
}

/// Reads one witness item: its length, then its bytes.
pub open spec fn parse_witness_item(s: Seq<u8>, i: int) -> Option<(Seq<u8>, int)> {
    match parse_compact_size(s, i) {
        Some((n, j)) => parse_bytes(s, j, n as int),
        None => None,
    }
}

/// Reads `n` witness items.
pub open spec fn parse_witness_items(s: Seq<u8>, i: int, n: u64) -> Option<(Seq<Seq<u8>>, int)>
    decreases n,
{
    if n == 0 {
        Some((Seq::empty(), i))
    } else {
        match parse_witness_item(s, i) {
            Some((v, j)) => match parse_witness_items(s, j, (n - 1) as u64) {
                Some((rest, k)) => Some((seq![v] + rest, k)),
                None => None,
            },
            None => None,
        }
    }
}

/// Reads one input's witness stack: an item count, then the items.
pub open spec fn parse_witness_stack(s: Seq<u8>, i: int) -> Option<(Seq<Seq<u8>>, int)> {
    match parse_compact_size(s, i) {
        Some((n, j)) => parse_witness_items(s, j, n),
        None => None,
    }
}

/// Reads `n` witness stacks, one per input.
pub open spec fn parse_witness_stacks(s: Seq<u8>, i: int, n: u64) -> Option<
    (Seq<Seq<Seq<u8>>>, int),
>
    decreases n,
{
    if n == 0 {
        Some((Seq::empty(), i))
    } else {
        match parse_witness_stack(s, i) {
            Some((v, j)) => match parse_witness_stacks(s, j, (n - 1) as u64) {
                Some((rest, k)) => Some((seq![v] + rest, k)),
                None => None,
            },
            None => None,
        }
    }
}

/// Reads one transaction.
///
/// A zero input count marks a segregated-witness encoding: a flag byte
/// of one must follow, and one witness stack per input stands between
/// the outputs and the lock time. Any other flag is malformed.
pub open spec fn parse_tx(s: Seq<u8>, i: int) -> Option<(TransactionView, int)> {
    match parse_u32_le(s, i) {
        Some((version, i1)) => match parse_compact_size(s, i1) {
            Some((n_in, i2)) => if n_in == 0 {
                if i2 < s.len() && s[i2] == 1 {
                    match parse_compact_size(s, i2 + 1) {
                        Some((m, i3)) => match parse_inputs(s, i3, m) {
                            Some((ins, i4)) => match parse_compact_size(s, i4) {
                                Some((n_out, i5)) => match parse_outputs(s, i5, n_out) {
                                    Some((outs, i6)) => match parse_witness_stacks(s, i6, m) {
                                        Some((wits, i7)) => match parse_u32_le(s, i7) {
                                            Some((lock, i8)) => Some(
                                                (
                                                    TransactionView {
                                                        version: version,
                                                        inputs: ins,
                                                        outputs: outs,
                                                        lock_time: lock,
                                                        witness: wits,
                                                    },
                                                    i8,
                                                ),
                                            ),
                                            None => None,
                                        },
                                        None => None,
                                    },
                                    None => None,
                                },
                                None => None,
                            },
                            None => None,
                        },
                        None => None,
                    }
                } else {
                    None
                }
            } else {
                match parse_inputs(s, i2, n_in) {
                    Some((ins, i3)) => match parse_compact_size(s, i3) {
                        Some((n_out, i4)) => match parse_outputs(s, i4, n_out) {
                            Some((outs, i5)) => match parse_u32_le(s, i5) {
                                Some((lock, i6)) => Some(
                                    (
                                        TransactionView {
                                            version: version,
                                            inputs: ins,
                                            outputs: outs,
                                            lock_time: lock,
                                            witness: Seq::empty(),
                                        },
                                        i6,
                                    ),
                                ),
                                None => None,
                            },
                            None => None,
                        },
                        None => None,
                    },
                    None => None,
                }
            },
            None => None,
        },
        None => None,
    }
}

/// Reads `n` transactions, one after the other.
pub open spec fn parse_txs(s: Seq<u8>, i: int, n: u64) -> Option<(Seq<TransactionView>, int)>
    decreases n,
{
    if n == 0 {
        Some((Seq::empty(), i))
    } else {
        match parse_tx(s, i) {
            Some((v, j)) => match parse_txs(s, j, (n - 1) as u64) {
                Some((rest, k)) => Some((seq![v] + rest, k)),
                None => None,
            },
            None => None,
        }
    }
}

/// Reads one block: the 80-byte header, then its transactions behind a
/// compact-size count.
pub open spec fn parse_block(s: Seq<u8>, i: int) -> Option<(BlockView, int)> {
    match parse_bytes(s, i, 80) {
        Some((header, i1)) => match parse_compact_size(s, i1) {
            Some((n_tx, i2)) => match parse_txs(s, i2, n_tx) {
                Some((txs, i3)) => Some((BlockView { header: header, txdata: txs }, i3)),
                None => None,
            },
            None => None,
        },
        None => None,
    }
}


// ------------------------------------------------------------------
// Executable decoders, each proved to agree with its spec parser.
//
// A decoder advances `pos` past what it read; on malformed bytes it
// reports `DecodeError` and the spec parser yields nothing.
// ------------------------------------------------------------------

/// Reads a 16-bit integer, little endian.
fn read_u16_le(s: &[u8], pos: &mut usize) -> (r: Result<u16, DecodeError>)
    requires
        *old(pos) <= s@.len(),
    ensures
        *final(pos) <= s@.len(),
        r is Ok <==> parse_u16_le(s@, *old(pos) as int) is Some,
        r is Ok ==> parse_u16_le(s@, *old(pos) as int) == Some((r->Ok_0, *final(pos) as int)),
{
    if s.len() - *pos >= 2 {
        let b0 = s[*pos];
        let b1 = s[*pos + 1];
        *pos += 2;
        Ok(b0 as u16 + b1 as u16 * 0x100)
    } else {
        Err(DecodeError)
    }
}

/// Reads a 32-bit integer, little endian.
pub(crate) fn read_u32_le(s: &[u8], pos: &mut usize) -> (r: Result<u32, DecodeError>)
    requires
        *old(pos) <= s@.len(),
    ensures
        *final(pos) <= s@.len(),
        r is Ok <==> parse_u32_le(s@, *old(pos) as int) is Some,
        r is Ok ==> parse_u32_le(s@, *old(pos) as int) == Some((r->Ok_0, *final(pos) as int)),
{
    if s.len() - *pos >= 4 {
        let b0 = s[*pos];
        let b1 = s[*pos + 1];
        let b2 = s[*pos + 2];
        let b3 = s[*pos + 3];
        *pos += 4;
        Ok(b0 as u32 + b1 as u32 * 0x100 + b2 as u32 * 0x10000 + b3 as u32 * 0x1000000)
    } else {
        Err(DecodeError)
    }
}

/// Reads a 64-bit integer, little endian.
fn read_u64_le(s: &[u8], pos: &mut usize) -> (r: Result<u64, DecodeError>)
    requires
        *old(pos) <= s@.len(),
    ensures
        *final(pos) <= s@.len(),
        r is Ok <==> parse_u64_le(s@, *old(pos) as int) is Some,
        r is Ok ==> parse_u64_le(s@, *old(pos) as int) == Some((r->Ok_0, *final(pos) as int)),
{
    if s.len() - *pos >= 8 {
        let b0 = s[*pos];
        let b1 = s[*pos + 1];
        let b2 = s[*pos + 2];
        let b3 = s[*pos + 3];
        let b4 = s[*pos + 4];
        let b5 = s[*pos + 5];
        let b6 = s[*pos + 6];
        let b7 = s[*pos + 7];
        *pos += 8;
        Ok(
            b0 as u64 + b1 as u64 * 0x100 + b2 as u64 * 0x10000 + b3 as u64 * 0x1000000
                + b4 as u64 * 0x100000000 + b5 as u64 * 0x10000000000 + b6 as u64
                * 0x1000000000000 + b7 as u64 * 0x100000000000000,
        )
    } else {
        Err(DecodeError)
    }
}

/// Reads a compact-size count, refusing a non-minimal encoding.
fn read_compact_size(s: &[u8], pos: &mut usize) -> (r: Result<u64, DecodeError>)
    requires
        *old(pos) <= s@.len(),
    ensures
        *final(pos) <= s@.len(),
        r is Ok <==> parse_compact_size(s@, *old(pos) as int) is Some,
        r is Ok ==> parse_compact_size(s@, *old(pos) as int) == Some(
            (r->Ok_0, *final(pos) as int),
        ),
{
    if s.len() - *pos >= 1 {
        let tag = s[*pos];
        *pos += 1;
        if tag < 0xfd {
            Ok(tag as u64)
        } else if tag == 0xfd {
            match read_u16_le(s, pos) {
                Ok(v) => if v >= 0xfd {
                    Ok(v as u64)
                } else {
                    Err(DecodeError)
                },
                Err(e) => Err(e),
            }
        } else if tag == 0xfe {
            match read_u32_le(s, pos) {
                Ok(v) => if v > 0xffff {
                    Ok(v as u64)
                } else {
                    Err(DecodeError)
                },
                Err(e) => Err(e),
            }
        } else {
            match read_u64_le(s, pos) {
                Ok(v) => if v > 0xffffffff {
                    Ok(v)
                } else {
                    Err(DecodeError)
                },
                Err(e) => Err(e),
            }
        }
    } else {
        Err(DecodeError)
    }
}

/// Reads `n` raw bytes.
fn read_bytes(s: &[u8], pos: &mut usize, n: u64) -> (r: Result<Vec<u8>, DecodeError>)
    requires
        *old(pos) <= s@.len(),
    ensures
        *final(pos) <= s@.len(),
        r is Ok <==> parse_bytes(s@, *old(pos) as int, n as int) is Some,
        r is Ok ==> parse_bytes(s@, *old(pos) as int, n as int) == Some(
            (r->Ok_0@, *final(pos) as int),
        ),
{
    if n <= (s.len() - *pos) as u64 {
        let n_us = n as usize;
        let sub = slice_subrange(s, *pos, *pos + n_us);
        let v = slice_to_vec(sub);
        *pos += n_us;
        Ok(v)
    } else {
        Err(DecodeError)
    }
}

/// Reads one input.
fn read_input(s: &[u8], pos: &mut usize) -> (r: Result<TxInput, DecodeError>)
    requires
        *old(pos) <= s@.len(),
    ensures
        *final(pos) <= s@.len(),
        r is Ok <==> parse_input(s@, *old(pos) as int) is Some,
        r is Ok ==> parse_input(s@, *old(pos) as int) == Some((r->Ok_0@, *final(pos) as int)),
{
    let prev_txid = match read_bytes(s, pos, 32) {
        Ok(v) => v,
        Err(e) => {
            return Err(e);
        },
    };
    let prev_vout = match read_u32_le(s, pos) {
        Ok(v) => v,
        Err(e) => {
            return Err(e);
        },
    };
    let slen = match read_compact_size(s, pos) {
        Ok(v) => v,
        Err(e) => {
            return Err(e);
        },
    };
    let script_sig = match read_bytes(s, pos, slen) {
        Ok(v) => v,
        Err(e) => {
            return Err(e);
        },
    };
    let sequence = match read_u32_le(s, pos) {
        Ok(v) => v,
        Err(e) => {
            return Err(e);
        },
    };
    Ok(TxInput { prev_txid, prev_vout, script_sig, sequence })
}

/// Reads `n` inputs.
fn read_inputs(s: &[u8], pos: &mut usize, n: u64) -> (r: Result<Vec<TxInput>, DecodeError>)
    requires
        *old(pos) <= s@.len(),
    ensures
        *final(pos) <= s@.len(),
        r is Ok <==> parse_inputs(s@, *old(pos) as int, n) is Some,
        r is Ok ==> parse_inputs(s@, *old(pos) as int, n) == Some(
            (input_views(r->Ok_0@), *final(pos) as int),
        ),
{
    let ghost p0 = *pos as int;
    let mut out: Vec<TxInput> = Vec::new();
    let mut k: u64 = 0;
    proof {
        assert(input_views(out@) =~= Seq::<TxInputView>::empty());
    }
    while k < n
        invariant
            p0 == *old(pos) as int,
            *pos <= s@.len(),
            k <= n,
            match parse_inputs(s@, *pos as int, (n - k) as u64) {
                Some((rest, j)) => parse_inputs(s@, p0, n) == Some(
                    (input_views(out@) + rest, j),
                ),
                None => parse_inputs(s@, p0, n) is None,
            },
        decreases n - k,
    {
        let ghost out_before = out@;
        let ghost pos_before = *pos as int;
        match read_input(s, pos) {
            Ok(inp) => {
                out.push(inp);
                k += 1;
                proof {
                    assert(input_views(out@) =~= input_views(out_before).push(inp@));
                    if parse_inputs(s@, *pos as int, (n - k) as u64) is Some {
                        let (rest, j) = parse_inputs(s@, *pos as int, (n - k) as u64)->Some_0;
                        assert(parse_inputs(s@, pos_before, (n - (k - 1)) as u64) == Some(
                            (seq![inp@] + rest, j),
                        ));
                        assert(input_views(out_before) + (seq![inp@] + rest) =~= input_views(out@)
                            + rest);
                    }
                }
            },
            Err(e) => {
                proof {
                    assert(parse_inputs(s@, pos_before, (n - k) as u64) is None);
                }
                return Err(e);
            },
        }
    }
    proof {
        assert(parse_inputs(s@, *pos as int, 0) == Some((Seq::<TxInputView>::empty(), *pos as int)));
        assert(input_views(out@) + Seq::<TxInputView>::empty() =~= input_views(out@));
    }
    Ok(out)
}

/// Reads one output.
fn read_output(s: &[u8], pos: &mut usize) -> (r: Result<TxOutput, DecodeError>)
    requires
        *old(pos) <= s@.len(),
    ensures
        *final(pos) <= s@.len(),
        r is Ok <==> parse_output(s@, *old(pos) as int) is Some,
        r is Ok ==> parse_output(s@, *old(pos) as int) == Some((r->Ok_0@, *final(pos) as int)),
{
    let value = match read_u64_le(s, pos) {
        Ok(v) => v,
        Err(e) => {
            return Err(e);
        },
    };
    let slen = match read_compact_size(s, pos) {
        Ok(v) => v,
        Err(e) => {
            return Err(e);
        },
    };
    let script_pubkey = match read_bytes(s, pos, slen) {
        Ok(v) => v,
        Err(e) => {
            return Err(e);
        },
    };
    Ok(TxOutput { value, script_pubkey })
}

/// Reads `n` outputs.
fn read_outputs(s: &[u8], pos: &mut usize, n: u64) -> (r: Result<Vec<TxOutput>, DecodeError>)
    requires
        *old(pos) <= s@.len(),
    ensures
        *final(pos) <= s@.len(),
        r is Ok <==> parse_outputs(s@, *old(pos) as int, n) is Some,
        r is Ok ==> parse_outputs(s@, *old(pos) as int, n) == Some(
            (output_views(r->Ok_0@), *final(pos) as int),
        ),
{
    let ghost p0 = *pos as int;
    let mut out: Vec<TxOutput> = Vec::new();
    let mut k: u64 = 0;
    proof {
        assert(output_views(out@) =~= Seq::<TxOutputView>::empty());
    }
    while k < n
        invariant
            p0 == *old(pos) as int,
            *pos <= s@.len(),
            k <= n,
            match parse_outputs(s@, *pos as int, (n - k) as u64) {
                Some((rest, j)) => parse_outputs(s@, p0, n) == Some(
                    (output_views(out@) + rest, j),
                ),
                None => parse_outputs(s@, p0, n) is None,
            },
        decreases n - k,
    {
        let ghost out_before = out@;
        let ghost pos_before = *pos as int;
        match read_output(s, pos) {
            Ok(op) => {
                out.push(op);
                k += 1;
                proof {
                    assert(output_views(out@) =~= output_views(out_before).push(op@));
                    if parse_outputs(s@, *pos as int, (n - k) as u64) is Some {
                        let (rest, j) = parse_outputs(s@, *pos as int, (n - k) as u64)->Some_0;
                        assert(parse_outputs(s@, pos_before, (n - (k - 1)) as u64) == Some(
                            (seq![op@] + rest, j),
                        ));
                        assert(output_views(out_before) + (seq![op@] + rest) =~= output_views(out@)
                            + rest);
                    }
                }
            },
            Err(e) => {
                proof {
                    assert(parse_outputs(s@, pos_before, (n - k) as u64) is None);
                }
                return Err(e);
            },
        }
    }
    proof {
        assert(parse_outputs(s@, *pos as int, 0) == Some(
            (Seq::<TxOutputView>::empty(), *pos as int),
        ));
        assert(output_views(out@) + Seq::<TxOutputView>::empty() =~= output_views(out@));
    }
    Ok(out)
}


/// Reads one witness item.
fn read_witness_item(s: &[u8], pos: &mut usize) -> (r: Result<Vec<u8>, DecodeError>)
    requires
        *old(pos) <= s@.len(),
    ensures
        *final(pos) <= s@.len(),
        r is Ok <==> parse_witness_item(s@, *old(pos) as int) is Some,
        r is Ok ==> parse_witness_item(s@, *old(pos) as int) == Some(
            (r->Ok_0@, *final(pos) as int),
        ),
{
    let n = match read_compact_size(s, pos) {
        Ok(v) => v,
        Err(e) => {
            return Err(e);
        },
    };
    read_bytes(s, pos, n)
}

/// Reads one input's witness stack.
fn read_witness_stack(s: &[u8], pos: &mut usize) -> (r: Result<Vec<Vec<u8>>, DecodeError>)
    requires
        *old(pos) <= s@.len(),
    ensures
        *final(pos) <= s@.len(),
        r is Ok <==> parse_witness_stack(s@, *old(pos) as int) is Some,
        r is Ok ==> parse_witness_stack(s@, *old(pos) as int) == Some(
            (bytes_views(r->Ok_0@), *final(pos) as int),
        ),
{
    let n = match read_compact_size(s, pos) {
        Ok(v) => v,
        Err(e) => {
            return Err(e);
        },
    };
    let ghost p0 = *pos as int;
    let ghost pn = n;
    let mut out: Vec<Vec<u8>> = Vec::new();
    let mut k: u64 = 0;
    proof {
        assert(bytes_views(out@) =~= Seq::<Seq<u8>>::empty());
    }
    while k < n
        invariant
            parse_compact_size(s@, *old(pos) as int) == Some((pn, p0)),
            p0 <= s@.len(),
            *pos <= s@.len(),
            k <= n,
            n == pn,
            match parse_witness_items(s@, *pos as int, (n - k) as u64) {
                Some((rest, j)) => parse_witness_items(s@, p0, n) == Some(
                    (bytes_views(out@) + rest, j),
                ),
                None => parse_witness_items(s@, p0, n) is None,
            },
        decreases n - k,
    {
        let ghost out_before = out@;
        let ghost pos_before = *pos as int;
        match read_witness_item(s, pos) {
            Ok(item) => {
                out.push(item);
                k += 1;
                proof {
                    assert(bytes_views(out@) =~= bytes_views(out_before).push(item@));
                    if parse_witness_items(s@, *pos as int, (n - k) as u64) is Some {
                        let (rest, j) = parse_witness_items(
                            s@,
                            *pos as int,
                            (n - k) as u64,
                        )->Some_0;
                        assert(parse_witness_items(s@, pos_before, (n - (k - 1)) as u64) == Some(
                            (seq![item@] + rest, j),
                        ));
                        assert(bytes_views(out_before) + (seq![item@] + rest) =~= bytes_views(out@)
                            + rest);
                    }
                }
            },
            Err(e) => {
                proof {
                    assert(parse_witness_items(s@, pos_before, (n - k) as u64) is None);
                }
                return Err(e);
            },
        }
    }
    proof {
        assert(parse_witness_items(s@, *pos as int, 0) == Some(
            (Seq::<Seq<u8>>::empty(), *pos as int),
        ));
        assert(bytes_views(out@) + Seq::<Seq<u8>>::empty() =~= bytes_views(out@));
    }
    Ok(out)
}

/// Reads `n` witness stacks.
fn read_witness_stacks(s: &[u8], pos: &mut usize, n: u64) -> (r: Result<
    Vec<Vec<Vec<u8>>>,
    DecodeError,
>)
    requires
        *old(pos) <= s@.len(),
    ensures
        *final(pos) <= s@.len(),
        r is Ok <==> parse_witness_stacks(s@, *old(pos) as int, n) is Some,
        r is Ok ==> parse_witness_stacks(s@, *old(pos) as int, n) == Some(
            (stack_views(r->Ok_0@), *final(pos) as int),
        ),
{
    let ghost p0 = *pos as int;
    let mut out: Vec<Vec<Vec<u8>>> = Vec::new();
    let mut k: u64 = 0;
    proof {
        assert(stack_views(out@) =~= Seq::<Seq<Seq<u8>>>::empty());
    }
    while k < n
        invariant
            p0 == *old(pos) as int,
            *pos <= s@.len(),
            k <= n,
            match parse_witness_stacks(s@, *pos as int, (n - k) as u64) {
                Some((rest, j)) => parse_witness_stacks(s@, p0, n) == Some(
                    (stack_views(out@) + rest, j),
                ),
                None => parse_witness_stacks(s@, p0, n) is None,
            },
        decreases n - k,
    {
        let ghost out_before = out@;
        let ghost pos_before = *pos as int;
        match read_witness_stack(s, pos) {
            Ok(stack) => {
                let ghost stack_v = bytes_views(stack@);
                out.push(stack);
                k += 1;
                proof {
                    assert(stack_views(out@) =~= stack_views(out_before).push(stack_v));
                    if parse_witness_stacks(s@, *pos as int, (n - k) as u64) is Some {
                        let (rest, j) = parse_witness_stacks(
                            s@,
                            *pos as int,
                            (n - k) as u64,
                        )->Some_0;
                        assert(parse_witness_stacks(s@, pos_before, (n - (k - 1)) as u64) == Some(
                            (seq![stack_v] + rest, j),
                        ));
                        assert(stack_views(out_before) + (seq![stack_v] + rest) =~= stack_views(
                            out@,
                        ) + rest);
                    }
                }
            },
            Err(e) => {
                proof {
                    assert(parse_witness_stacks(s@, pos_before, (n - k) as u64) is None);
                }
                return Err(e);
            },
        }
    }
    proof {
        assert(parse_witness_stacks(s@, *pos as int, 0) == Some(
            (Seq::<Seq<Seq<u8>>>::empty(), *pos as int),
        ));
        assert(stack_views(out@) + Seq::<Seq<Seq<u8>>>::empty() =~= stack_views(out@));
    }
    Ok(out)
}

/// Reads one transaction, legacy or segregated-witness.
fn read_tx(s: &[u8], pos: &mut usize) -> (r: Result<Transaction, DecodeError>)
    requires
        *old(pos) <= s@.len(),
    ensures
        *final(pos) <= s@.len(),
        r is Ok <==> parse_tx(s@, *old(pos) as int) is Some,
        r is Ok ==> parse_tx(s@, *old(pos) as int) == Some((r->Ok_0@, *final(pos) as int)),
{
    let version = match read_u32_le(s, pos) {
        Ok(v) => v,
        Err(e) => {
            return Err(e);
        },
    };
    let n_in = match read_compact_size(s, pos) {
        Ok(v) => v,
        Err(e) => {
            return Err(e);
        },
    };
    if n_in == 0 {
        // A zero count is the segregated-witness marker; the flag byte
        // must be one.
        if *pos < s.len() && s[*pos] == 1 {
            *pos += 1;
            let m = match read_compact_size(s, pos) {
                Ok(v) => v,
                Err(e) => {
                    return Err(e);
                },
            };
            let inputs = match read_inputs(s, pos, m) {
                Ok(v) => v,
                Err(e) => {
                    return Err(e);
                },
            };
            let n_out = match read_compact_size(s, pos) {
                Ok(v) => v,
                Err(e) => {
                    return Err(e);
                },
            };
            let outputs = match read_outputs(s, pos, n_out) {
                Ok(v) => v,
                Err(e) => {
                    return Err(e);
                },
            };
            let witness = match read_witness_stacks(s, pos, m) {
                Ok(v) => v,
                Err(e) => {
                    return Err(e);
                },
            };
            let lock_time = match read_u32_le(s, pos) {
                Ok(v) => v,
                Err(e) => {
                    return Err(e);
                },
            };
            Ok(Transaction { version, inputs, outputs, lock_time, witness })
        } else {
            Err(DecodeError)
        }
    } else {
        let inputs = match read_inputs(s, pos, n_in) {
            Ok(v) => v,
            Err(e) => {
                return Err(e);
            },
        };
        let n_out = match read_compact_size(s, pos) {
            Ok(v) => v,
            Err(e) => {
                return Err(e);
            },
        };
        let outputs = match read_outputs(s, pos, n_out) {
            Ok(v) => v,
            Err(e) => {
                return Err(e);
            },
        };
        let lock_time = match read_u32_le(s, pos) {
            Ok(v) => v,
            Err(e) => {
                return Err(e);
            },
        };
        let tx = Transaction { version, inputs, outputs, lock_time, witness: Vec::new() };
        proof {
            assert(stack_views(tx.witness@) =~= Seq::<Seq<Seq<u8>>>::empty());
        }
        Ok(tx)
    }
}

/// Reads `n` transactions.
fn read_txs(s: &[u8], pos: &mut usize, n: u64) -> (r: Result<Vec<Transaction>, DecodeError>)
    requires
        *old(pos) <= s@.len(),
    ensures
        *final(pos) <= s@.len(),
        r is Ok <==> parse_txs(s@, *old(pos) as int, n) is Some,
        r is Ok ==> parse_txs(s@, *old(pos) as int, n) == Some(
            (tx_views(r->Ok_0@), *final(pos) as int),
        ),
{
    let ghost p0 = *pos as int;
    let mut out: Vec<Transaction> = Vec::new();
    let mut k: u64 = 0;
    proof {
        assert(tx_views(out@) =~= Seq::<TransactionView>::empty());
    }
    while k < n
        invariant
            p0 == *old(pos) as int,
            *pos <= s@.len(),
            k <= n,
            match parse_txs(s@, *pos as int, (n - k) as u64) {
                Some((rest, j)) => parse_txs(s@, p0, n) == Some((tx_views(out@) + rest, j)),
                None => parse_txs(s@, p0, n) is None,
            },
        decreases n - k,
    {
        let ghost out_before = out@;
        let ghost pos_before = *pos as int;
        match read_tx(s, pos) {
            Ok(tx) => {
                let ghost tx_v = tx@;
                out.push(tx);
                k += 1;
                proof {
                    assert(tx_views(out@) =~= tx_views(out_before).push(tx_v));
                    if parse_txs(s@, *pos as int, (n - k) as u64) is Some {
                        let (rest, j) = parse_txs(s@, *pos as int, (n - k) as u64)->Some_0;
                        assert(parse_txs(s@, pos_before, (n - (k - 1)) as u64) == Some(
                            (seq![tx_v] + rest, j),
                        ));
                        assert(tx_views(out_before) + (seq![tx_v] + rest) =~= tx_views(out@)
                            + rest);
                    }
                }
            },
            Err(e) => {
                proof {
                    assert(parse_txs(s@, pos_before, (n - k) as u64) is None);
                }
                return Err(e);
            },
        }
    }
    proof {
        assert(parse_txs(s@, *pos as int, 0) == Some(
            (Seq::<TransactionView>::empty(), *pos as int),
        ));
        assert(tx_views(out@) + Seq::<TransactionView>::empty() =~= tx_views(out@));
    }
    Ok(out)
}

/// Decodes one transaction from exactly the given bytes.
///
/// Succeeds precisely when the bytes are one well-formed transaction
/// with nothing following it; the result is what the spec parser reads.
pub fn decode_transaction(data: &[u8]) -> (r: Result<Transaction, DecodeError>)
    ensures
        r is Ok <==> (parse_tx(data@, 0) is Some && parse_tx(data@, 0)->Some_0.1 == data@.len()),
        r is Ok ==> parse_tx(data@, 0) == Some((r->Ok_0@, data@.len() as int)),
{
    let mut pos: usize = 0;
    match read_tx(data, &mut pos) {
        Ok(tx) => {
            if pos == data.len() {
                Ok(tx)
            } else {
                Err(DecodeError)
            }
        },
        Err(e) => Err(e),
    }
}

/// Decodes one block from the given bytes.
///
/// Succeeds precisely when the bytes begin with a well-formed block;
/// bytes after it are ignored, as the node's block decoding ignores
/// them. The result is what the spec parser reads.
pub fn decode_block(data: &[u8]) -> (r: Result<Block, DecodeError>)
    ensures
        r is Ok <==> parse_block(data@, 0) is Some,
        r is Ok ==> parse_block(data@, 0)->Some_0.0 == r->Ok_0@,
{
    let mut pos: usize = 0;
    let header = match read_bytes(data, &mut pos, 80) {
        Ok(v) => v,
        Err(e) => {
            return Err(e);
        },
    };
    let n_tx = match read_compact_size(data, &mut pos) {
        Ok(v) => v,
        Err(e) => {
            return Err(e);
        },
    };
    let txdata = match read_txs(data, &mut pos, n_tx) {
        Ok(v) => v,
        Err(e) => {
            return Err(e);
        },
    };
    Ok(Block { header, txdata })
}


// ------------------------------------------------------------------
// The encoding read back is the value written: the encoders and
// parsers agree, so the canonical forms are unambiguous.
// ------------------------------------------------------------------

/// Reading a 16-bit integer written little endian gives it back.
proof fn lemma_parse_enc_u16(s: Seq<u8>, i: int, x: u16)
    requires
        0 <= i,
        i + 2 <= s.len(),
        s.subrange(i, i + 2) == enc_u16_le(x),
    ensures
        parse_u16_le(s, i) == Some((x, i + 2)),
{
    assert(s[i] == enc_u16_le(x)[0]);
    assert(s[i + 1] == enc_u16_le(x)[1]);
    assert(x as int == x as int % 0x100 + (x as int / 0x100 % 0x100) * 0x100) by (nonlinear_arith);
}

/// Reading a 32-bit integer written little endian gives it back.
pub(crate) proof fn lemma_parse_enc_u32(s: Seq<u8>, i: int, x: u32)
    requires
        0 <= i,
        i + 4 <= s.len(),
        s.subrange(i, i + 4) == enc_u32_le(x),
    ensures
        parse_u32_le(s, i) == Some((x, i + 4)),
{
    assert(s[i] == enc_u32_le(x)[0]);
    assert(s[i + 1] == enc_u32_le(x)[1]);
    assert(s[i + 2] == enc_u32_le(x)[2]);
    assert(s[i + 3] == enc_u32_le(x)[3]);
    assert(x as int == x as int % 0x100 + (x as int / 0x100 % 0x100) * 0x100 + (x as int / 0x10000
        % 0x100) * 0x10000 + (x as int / 0x1000000 % 0x100) * 0x1000000) by (nonlinear_arith);
}

/// A 64-bit value is the sum of its eight little-endian byte places.
proof fn lemma_u64_byte_places(x: u64)
    ensures
        x as int == x as int % 0x100 + (x as int / 0x100 % 0x100) * 0x100 + (x as int / 0x10000
            % 0x100) * 0x10000 + (x as int / 0x1000000 % 0x100) * 0x1000000 + (x as int
            / 0x100000000 % 0x100) * 0x100000000 + (x as int / 0x10000000000 % 0x100)
            * 0x10000000000 + (x as int / 0x1000000000000 % 0x100) * 0x1000000000000 + (x as int
            / 0x100000000000000 % 0x100) * 0x100000000000000,
{
    let x0 = x as int;
    vstd::arithmetic::div_mod::lemma_fundamental_div_mod(x0, 0x100);
    vstd::arithmetic::div_mod::lemma_div_denominator(x0, 0x100, 0x100);
    vstd::arithmetic::div_mod::lemma_fundamental_div_mod(x0 / 0x100, 0x100);
    vstd::arithmetic::div_mod::lemma_div_denominator(x0, 0x10000, 0x100);
    vstd::arithmetic::div_mod::lemma_fundamental_div_mod(x0 / 0x10000, 0x100);
    vstd::arithmetic::div_mod::lemma_div_denominator(x0, 0x1000000, 0x100);
    vstd::arithmetic::div_mod::lemma_fundamental_div_mod(x0 / 0x1000000, 0x100);
    vstd::arithmetic::div_mod::lemma_div_denominator(x0, 0x100000000, 0x100);
    vstd::arithmetic::div_mod::lemma_fundamental_div_mod(x0 / 0x100000000, 0x100);
    vstd::arithmetic::div_mod::lemma_div_denominator(x0, 0x10000000000, 0x100);
    vstd::arithmetic::div_mod::lemma_fundamental_div_mod(x0 / 0x10000000000, 0x100);
    vstd::arithmetic::div_mod::lemma_div_denominator(x0, 0x1000000000000, 0x100);
    vstd::arithmetic::div_mod::lemma_fundamental_div_mod(x0 / 0x1000000000000, 0x100);
    vstd::arithmetic::div_mod::lemma_div_denominator(x0, 0x100000000000000, 0x100);
    vstd::arithmetic::div_mod::lemma_fundamental_div_mod(x0 / 0x100000000000000, 0x100);
    assert(x0 / 0x100000000000000 / 0x100 == x0 / 0x10000000000000000);
    assert(x0 / 0x10000000000000000 == 0) by {
        vstd::arithmetic::div_mod::lemma_basic_div(x0, 0x10000000000000000);
    }
}

/// Reading a 64-bit integer written little endian gives it back.
proof fn lemma_parse_enc_u64(s: Seq<u8>, i: int, x: u64)
    requires
        0 <= i,
        i + 8 <= s.len(),
        s.subrange(i, i + 8) == enc_u64_le(x),
    ensures
        parse_u64_le(s, i) == Some((x, i + 8)),
{
    assert(s[i] == enc_u64_le(x)[0]);
    assert(s[i + 1] == enc_u64_le(x)[1]);
    assert(s[i + 2] == enc_u64_le(x)[2]);
    assert(s[i + 3] == enc_u64_le(x)[3]);
    assert(s[i + 4] == enc_u64_le(x)[4]);
    assert(s[i + 5] == enc_u64_le(x)[5]);
    assert(s[i + 6] == enc_u64_le(x)[6]);
    assert(s[i + 7] == enc_u64_le(x)[7]);
    lemma_u64_byte_places(x);
}

/// Reading a compact-size count written in its minimal form gives it
/// back.
proof fn lemma_parse_enc_compact_size(s: Seq<u8>, i: int, n: u64)
    requires
        0 <= i,
        i + enc_compact_size(n).len() <= s.len(),
        s.subrange(i, i + enc_compact_size(n).len() as int) == enc_compact_size(n),
    ensures
        parse_compact_size(s, i) == Some((n, i + enc_compact_size(n).len())),
{
    let e = enc_compact_size(n);
    assert(s[i] == e[0]);
    if n < 0xfd {
    } else if n <= 0xffff {
        assert(s.subrange(i + 1, i + 3) =~= enc_u16_le(n as u16)) by {
            assert(forall|j: int| 0 <= j < 2 ==> #[trigger] s.subrange(i + 1, i + 3)[j] == e[j + 1]);
        }
        lemma_parse_enc_u16(s, i + 1, n as u16);
    } else if n <= 0xffffffff {
        assert(s.subrange(i + 1, i + 5) =~= enc_u32_le(n as u32)) by {
            assert(forall|j: int| 0 <= j < 4 ==> #[trigger] s.subrange(i + 1, i + 5)[j] == e[j + 1]);
        }
        lemma_parse_enc_u32(s, i + 1, n as u32);
    } else {
        assert(s.subrange(i + 1, i + 9) =~= enc_u64_le(n)) by {
            assert(forall|j: int| 0 <= j < 8 ==> #[trigger] s.subrange(i + 1, i + 9)[j] == e[j + 1]);
        }
        lemma_parse_enc_u64(s, i + 1, n);
    }
}

/// The canonical input encoding is unambiguous: reading it back, with
/// anything at all following it, yields exactly the input that was
/// written. This is what lets the fingerprint stand for the input's
/// content.
pub proof fn lemma_input_encoding_round_trip(i: TxInputView, rest: Seq<u8>)
    requires
        i.prev_txid.len() == 32,
        i.script_sig.len() <= u64::MAX,
    ensures
        parse_input(enc_input(i) + rest, 0) == Some((i, enc_input(i).len() as int)),
{
    let s = enc_input(i) + rest;
    let slen = i.script_sig.len() as int;
    let cs = enc_compact_size(i.script_sig.len() as u64);
    let p1: int = 32;
    let p2: int = p1 + 4;
    let p3: int = p2 + cs.len();
    let p4: int = p3 + slen;
    let p5: int = p4 + 4;
    assert(s.subrange(0, p1) =~= i.prev_txid);
    assert(parse_bytes(s, 0, 32) == Some((i.prev_txid, p1)));
    assert(s.subrange(p1, p2) =~= enc_u32_le(i.prev_vout));
    lemma_parse_enc_u32(s, p1, i.prev_vout);
    assert(s.subrange(p2, p3) =~= cs);
    lemma_parse_enc_compact_size(s, p2, i.script_sig.len() as u64);
    assert(s.subrange(p3, p4) =~= i.script_sig);
    assert(parse_bytes(s, p3, slen) == Some((i.script_sig, p4)));
    assert(s.subrange(p4, p5) =~= enc_u32_le(i.sequence));
    lemma_parse_enc_u32(s, p4, i.sequence);
    assert(p5 == enc_input(i).len());
}

} // verus!
