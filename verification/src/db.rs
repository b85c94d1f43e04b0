//! The index store: an ordered key-value map from fingerprint bytes to
//! serialized index records.
//!
//! Keys are kept in lexicographic byte order with at most one record per
//! key: a put is an upsert, and a prefix scan walks the contiguous run
//! of keys sharing the prefix and stops at its end, without reading the
//! rest of the store.

use vstd::prelude::*;
use vstd::slice::{slice_subrange, slice_to_vec};
use vstd::string::StringExecFns;

use crate::codec::{enc_u32_le, lemma_parse_enc_u32, parse_u32_le, push_u32_le, read_u32_le};
use crate::errors::StoreError;

verus! {

/// One index record: which transaction consumed the fingerprinted
/// input, at which input position, and at which confirmation height
/// (0 means seen only unconfirmed).
#[derive(Clone, Debug)]
pub struct DbItem {
    /// Identifier of the owning transaction, in display byte order.
    pub tx_id: Vec<u8>,
    /// Position of the input within its transaction.
    pub input_index: u32,
    /// Height of the confirming block, or 0 while unconfirmed.
    pub block_height: u32,
}

/// The mathematical value of a `DbItem`.
pub ghost struct DbItemView {
    pub tx_id: Seq<u8>,
    pub input_index: u32,
    pub block_height: u32,
}

impl View for DbItem {
    type V = DbItemView;

    open spec fn view(&self) -> DbItemView {
        DbItemView {
            tx_id: self.tx_id@,
            input_index: self.input_index,
            block_height: self.block_height,
        }
    }
}

/// The views of a sequence of records.
pub open spec fn item_views(s: Seq<DbItem>) -> Seq<DbItemView> {
    s.map_values(|x: DbItem| x@)
}

/// A confirmation-height interval. `end == 0` leaves the interval open
/// above.
#[derive(Clone, Copy, Debug, PartialEq, Eq, Structural)]
pub struct BlockInterval {
    pub start: u32,
    pub end: u32,
}

/// Whether a record at height `h` passes the scan filter: no filter
/// admits only unconfirmed records (height 0); an interval with
/// `end == 0` admits every height from `start` up; otherwise the ends
/// are inclusive.
pub open spec fn height_in(f: Option<BlockInterval>, h: u32) -> bool {
    match f {
        None => h == 0,
        Some(iv) => if iv.end == 0 {
            h >= iv.start
        } else {
            iv.start <= h && h <= iv.end
        },
    }
}

// ------------------------------------------------------------------
// The record's stored form.
// ------------------------------------------------------------------

/// A record's stored bytes: input index and height (4 bytes little
/// endian each), then the transaction identifier.
pub open spec fn enc_db_item(v: DbItemView) -> Seq<u8> {
    enc_u32_le(v.input_index) + enc_u32_le(v.block_height) + v.tx_id
}

/// Reads a stored record back; nothing on fewer than 8 bytes.
pub open spec fn dec_db_item(s: Seq<u8>) -> Option<DbItemView> {
    match (parse_u32_le(s, 0), parse_u32_le(s, 4)) {
        (Some((ii, _)), Some((bh, _))) => Some(
            DbItemView { tx_id: s.skip(8), input_index: ii, block_height: bh },
        ),
        _ => None,
    }
}

/// A record's stored form reads back as the record itself.
pub proof fn lemma_db_item_round_trip(v: DbItemView)
    ensures
        dec_db_item(enc_db_item(v)) == Some(v),
{
    let s = enc_db_item(v);
    assert(s.subrange(0, 4) =~= enc_u32_le(v.input_index));
    assert(s.subrange(4, 8) =~= enc_u32_le(v.block_height));
    lemma_parse_enc_u32(s, 0, v.input_index);
    lemma_parse_enc_u32(s, 4, v.block_height);
    assert(s.skip(8) =~= v.tx_id);
}

/// Serializes a record for storage.
pub fn encode_db_item(item: &DbItem) -> (r: Vec<u8>)
    ensures
        r@ == enc_db_item(item@),
{
    let mut out: Vec<u8> = Vec::new();
    push_u32_le(&mut out, item.input_index);
    push_u32_le(&mut out, item.block_height);
    out.extend_from_slice(item.tx_id.as_slice());
    proof {
        assert(out@ =~= enc_db_item(item@));
    }
    out
}

/// Reads a stored record back; nothing if the bytes are too short.
pub fn decode_db_item(raw: &[u8]) -> (r: Option<DbItem>)
    ensures
        r is Some <==> dec_db_item(raw@) is Some,
        r is Some ==> dec_db_item(raw@) == Some(r->Some_0@),
{
    let mut pos: usize = 0;
    let input_index = match read_u32_le(raw, &mut pos) {
        Ok(v) => v,
        Err(_) => {
            return None;
        },
    };
    let block_height = match read_u32_le(raw, &mut pos) {
        Ok(v) => v,
        Err(_) => {
            return None;
        },
    };
    let tx_id = slice_to_vec(slice_subrange(raw, 8, raw.len()));
    proof {
        assert(pos == 8);
    }
    Some(DbItem { tx_id, input_index, block_height })
}

// ------------------------------------------------------------------
// Lexicographic byte order, and byte prefixes.
// ------------------------------------------------------------------

/// Strict lexicographic order on byte strings; a proper prefix comes
/// before its extensions. This is the store's key order.
pub open spec fn lex_lt(a: Seq<u8>, b: Seq<u8>) -> bool
    decreases a.len(),
{
    if b.len() == 0 {
        false
    } else if a.len() == 0 {
        true
    } else if a[0] < b[0] {
        true
    } else if a[0] > b[0] {
        false
    } else {
        lex_lt(a.drop_first(), b.drop_first())
    }
}

/// Whether `p` is a byte prefix of `k`.
pub open spec fn is_byte_prefix(p: Seq<u8>, k: Seq<u8>) -> bool {
    p.len() <= k.len() && k.take(p.len() as int) == p
}

/// The order is irreflexive.
pub proof fn lemma_lex_irrefl(a: Seq<u8>)
    ensures
        !lex_lt(a, a),
    decreases a.len(),
{
    if a.len() > 0 {
        lemma_lex_irrefl(a.drop_first());
    }
}

/// The order is asymmetric.
pub proof fn lemma_lex_asym(a: Seq<u8>, b: Seq<u8>)
    requires
        lex_lt(a, b),
    ensures
        !lex_lt(b, a),
    decreases a.len(),
{
    if a.len() > 0 && b.len() > 0 && a[0] == b[0] {
        lemma_lex_asym(a.drop_first(), b.drop_first());
    }
}

/// Distinct strings are ordered one way or the other.
pub proof fn lemma_lex_connected(a: Seq<u8>, b: Seq<u8>)
    requires
        a != b,
    ensures
        lex_lt(a, b) || lex_lt(b, a),
    decreases a.len(),
{
    if a.len() == 0 {
        assert(b.len() > 0) by {
            if b.len() == 0 {
                assert(a =~= b);
            }
        }
    } else if b.len() == 0 {
    } else if a[0] == b[0] {
        assert(a.drop_first() != b.drop_first()) by {
            if a.drop_first() == b.drop_first() {
                assert(a.drop_first().len() == b.drop_first().len());
                assert(a.len() == b.len());
                assert forall|j: int| 0 <= j < a.len() implies a[j] == b[j] by {
                    if j >= 1 {
                        assert(a[j] == a.drop_first()[j - 1]);
                        assert(b[j] == b.drop_first()[j - 1]);
                    }
                }
                assert(a =~= b);
            }
        }
        lemma_lex_connected(a.drop_first(), b.drop_first());
    }
}

/// The order is transitive.
pub proof fn lemma_lex_trans(a: Seq<u8>, b: Seq<u8>, c: Seq<u8>)
    requires
        lex_lt(a, b),
        lex_lt(b, c),
    ensures
        lex_lt(a, c),
    decreases a.len(),
{
    if a.len() > 0 && b.len() > 0 && c.len() > 0 && a[0] == b[0] && b[0] == c[0] {
        lemma_lex_trans(a.drop_first(), b.drop_first(), c.drop_first());
    }
}

/// On non-empty strings, a prefix steps down with the head.
proof fn lemma_prefix_drop(p: Seq<u8>, k: Seq<u8>)
    requires
        p.len() > 0,
        k.len() > 0,
    ensures
        is_byte_prefix(p, k) <==> (k[0] == p[0] && is_byte_prefix(p.drop_first(), k.drop_first())),
{
    if is_byte_prefix(p, k) {
        assert(k.take(p.len() as int)[0] == p[0]);
        assert(k.drop_first().take(p.len() - 1) =~= p.drop_first()) by {
            assert(forall|j: int|
                0 <= j < p.len() - 1 ==> #[trigger] k.drop_first().take(p.len() - 1)[j] == k.take(
                    p.len() as int,
                )[j + 1]);
        }
    }
    if k[0] == p[0] && is_byte_prefix(p.drop_first(), k.drop_first()) {
        assert(k.take(p.len() as int) =~= p) by {
            assert(forall|j: int|
                1 <= j < p.len() ==> #[trigger] k.take(p.len() as int)[j] == k.drop_first().take(
                    p.len() - 1,
                )[j - 1]);
        }
    }
}

/// Once the keys have passed the prefix's range, no later key matches:
/// a key at or above the prefix that the prefix does not match shuts
/// the door on everything after it.
pub proof fn lemma_prefix_gone(p: Seq<u8>, a: Seq<u8>, b: Seq<u8>)
    requires
        !is_byte_prefix(p, a),
        !lex_lt(a, p),
        lex_lt(a, b),
    ensures
        !is_byte_prefix(p, b),
    decreases p.len(),
{
    if p.len() == 0 {
        assert(a.take(0) =~= p);
    } else {
        assert(a.len() > 0);
        if a[0] == p[0] {
            if b.len() > 0 && b[0] == a[0] {
                lemma_prefix_drop(p, a);
                lemma_prefix_gone(p.drop_first(), a.drop_first(), b.drop_first());
                if is_byte_prefix(p, b) {
                    lemma_prefix_drop(p, b);
                }
            } else if is_byte_prefix(p, b) {
                assert(b.take(p.len() as int)[0] == p[0]);
            }
        } else {
            assert(a[0] > p[0]);
            if is_byte_prefix(p, b) {
                assert(b.take(p.len() as int)[0] == p[0]);
                assert(b.len() > 0 && b[0] == p[0]);
            }
        }
    }
}


// ------------------------------------------------------------------
// The store's mathematical model: an association sequence sorted by
// key, with at most one entry per key.
// ------------------------------------------------------------------

/// Whether the entries' keys are strictly ascending.
pub open spec fn sorted_keys(m: Seq<(Seq<u8>, DbItemView)>) -> bool {
    forall|i: int, j: int| 0 <= i < j < m.len() ==> #[trigger] lex_lt(m[i].0, m[j].0)
}

/// The record stored under `k`, if any.
pub open spec fn spec_get(m: Seq<(Seq<u8>, DbItemView)>, k: Seq<u8>) -> Option<DbItemView>
    decreases m.len(),
{
    if m.len() == 0 {
        None
    } else if m[0].0 == k {
        Some(m[0].1)
    } else {
        spec_get(m.drop_first(), k)
    }
}

/// The store after an upsert of `v` under `k`: the one entry with key
/// `k` is replaced, or a new entry is placed at its ordered position.
pub open spec fn spec_put(
    m: Seq<(Seq<u8>, DbItemView)>,
    k: Seq<u8>,
    v: DbItemView,
) -> Seq<(Seq<u8>, DbItemView)>
    decreases m.len(),
{
    if m.len() == 0 {
        seq![(k, v)]
    } else if lex_lt(k, m[0].0) {
        seq![(k, v)] + m
    } else if k == m[0].0 {
        seq![(k, v)] + m.drop_first()
    } else {
        seq![m[0]] + spec_put(m.drop_first(), k, v)
    }
}

/// How many entries hold key `k`.
pub open spec fn spec_count_key(m: Seq<(Seq<u8>, DbItemView)>, k: Seq<u8>) -> nat
    decreases m.len(),
{
    if m.len() == 0 {
        0nat
    } else {
        (if m[0].0 == k {
            1nat
        } else {
            0nat
        }) + spec_count_key(m.drop_first(), k)
    }
}

/// Whether a scan for prefix `p` under filter `f` yields this entry.
pub open spec fn scan_match(
    e: (Seq<u8>, DbItemView),
    p: Seq<u8>,
    f: Option<BlockInterval>,
) -> bool {
    is_byte_prefix(p, e.0) && height_in(f, e.1.block_height)
}

/// Every record whose key starts with `p` and whose height passes `f`,
/// in store (key) order.
pub open spec fn spec_scan(
    m: Seq<(Seq<u8>, DbItemView)>,
    p: Seq<u8>,
    f: Option<BlockInterval>,
) -> Seq<DbItemView>
    decreases m.len(),
{
    if m.len() == 0 {
        Seq::empty()
    } else if scan_match(m[0], p, f) {
        seq![m[0].1] + spec_scan(m.drop_first(), p, f)
    } else {
        spec_scan(m.drop_first(), p, f)
    }
}

/// After an upsert of `v` under `k`, a read of `k` finds exactly `v`.
pub proof fn lemma_put_get(m: Seq<(Seq<u8>, DbItemView)>, k: Seq<u8>, v: DbItemView)
    ensures
        spec_get(spec_put(m, k, v), k) == Some(v),
    decreases m.len(),
{
    if m.len() == 0 {
    } else if lex_lt(k, m[0].0) {
        assert((seq![(k, v)] + m)[0] == (k, v));
    } else if k == m[0].0 {
        assert((seq![(k, v)] + m.drop_first())[0] == (k, v));
    } else {
        lemma_lex_connected(k, m[0].0);
        assert(lex_lt(m[0].0, k));
        assert(m[0].0 != k) by {
            lemma_lex_irrefl(k);
        }
        lemma_put_get(m.drop_first(), k, v);
        assert((seq![m[0]] + spec_put(m.drop_first(), k, v)).drop_first() =~= spec_put(
            m.drop_first(),
            k,
            v,
        ));
    }
}

/// An upsert under `k` leaves every other key's record as it was.
pub proof fn lemma_put_get_other(
    m: Seq<(Seq<u8>, DbItemView)>,
    k: Seq<u8>,
    v: DbItemView,
    k2: Seq<u8>,
)
    requires
        k2 != k,
    ensures
        spec_get(spec_put(m, k, v), k2) == spec_get(m, k2),
    decreases m.len(),
{
    reveal_with_fuel(spec_get, 3);
    if m.len() == 0 {
    } else if lex_lt(k, m[0].0) {
        assert((seq![(k, v)] + m)[0] == (k, v));
        assert((seq![(k, v)] + m).drop_first() =~= m);
    } else if k == m[0].0 {
        assert((seq![(k, v)] + m.drop_first())[0] == (k, v));
        assert((seq![(k, v)] + m.drop_first()).drop_first() =~= m.drop_first());
    } else {
        assert((seq![m[0]] + spec_put(m.drop_first(), k, v))[0] == m[0]);
        lemma_put_get_other(m.drop_first(), k, v, k2);
        assert((seq![m[0]] + spec_put(m.drop_first(), k, v)).drop_first() =~= spec_put(
            m.drop_first(),
            k,
            v,
        ));
    }
}

/// Two upserts under one key collapse to the second: the first leaves
/// no second entry and no stale value behind.
pub proof fn lemma_put_collapse(
    m: Seq<(Seq<u8>, DbItemView)>,
    k: Seq<u8>,
    v0: DbItemView,
    v1: DbItemView,
)
    ensures
        spec_put(spec_put(m, k, v0), k, v1) == spec_put(m, k, v1),
    decreases m.len(),
{
    lemma_lex_irrefl(k);
    if m.len() == 0 {
        assert(spec_put(m, k, v0) == seq![(k, v0)]);
        assert(spec_put(seq![(k, v0)], k, v1) =~= seq![(k, v1)]);
        assert(spec_put(m, k, v1) =~= seq![(k, v1)]);
    } else if lex_lt(k, m[0].0) {
        let inner = seq![(k, v0)] + m;
        assert(inner[0] == (k, v0));
        assert(spec_put(inner, k, v1) == seq![(k, v1)] + inner.drop_first());
        assert(seq![(k, v1)] + inner.drop_first() =~= seq![(k, v1)] + m);
    } else if k == m[0].0 {
        let inner = seq![(k, v0)] + m.drop_first();
        assert(inner[0] == (k, v0));
        assert(spec_put(inner, k, v1) == seq![(k, v1)] + inner.drop_first());
        assert(seq![(k, v1)] + inner.drop_first() =~= seq![(k, v1)] + m.drop_first());
    } else {
        let inner = seq![m[0]] + spec_put(m.drop_first(), k, v0);
        assert(inner[0] == m[0]);
        assert(inner.drop_first() =~= spec_put(m.drop_first(), k, v0));
        lemma_put_collapse(m.drop_first(), k, v0, v1);
        assert(spec_put(inner, k, v1) =~= seq![m[0]] + spec_put(m.drop_first(), k, v1));
    }
}

/// Putting the same record twice is the same as putting it once.
pub proof fn lemma_put_idempotent(m: Seq<(Seq<u8>, DbItemView)>, k: Seq<u8>, v: DbItemView)
    ensures
        spec_put(spec_put(m, k, v), k, v) == spec_put(m, k, v),
{
    lemma_put_collapse(m, k, v, v);
}

/// A key found nowhere is counted zero times.
proof fn lemma_count_zero(m: Seq<(Seq<u8>, DbItemView)>, k: Seq<u8>)
    requires
        forall|i: int| 0 <= i < m.len() ==> (#[trigger] m[i]).0 != k,
    ensures
        spec_count_key(m, k) == 0,
    decreases m.len(),
{
    if m.len() > 0 {
        assert(forall|i: int|
            0 <= i < m.drop_first().len() ==> (#[trigger] m.drop_first()[i]) == m[i + 1]);
        lemma_count_zero(m.drop_first(), k);
    }
}

/// After an upsert under `k` into a sorted store, exactly one entry
/// holds key `k`.
pub proof fn lemma_put_count_one(m: Seq<(Seq<u8>, DbItemView)>, k: Seq<u8>, v: DbItemView)
    requires
        sorted_keys(m),
    ensures
        spec_count_key(spec_put(m, k, v), k) == 1,
    decreases m.len(),
{
    lemma_lex_irrefl(k);
    if m.len() == 0 {
        assert(spec_count_key(seq![(k, v)].drop_first(), k) == 0);
    } else if lex_lt(k, m[0].0) {
        let res = seq![(k, v)] + m;
        assert(res.drop_first() =~= m);
        assert forall|i: int| 0 <= i < m.len() implies (#[trigger] m[i]).0 != k by {
            if i > 0 {
                assert(lex_lt(m[0].0, m[i].0));
                lemma_lex_trans(k, m[0].0, m[i].0);
            }
            lemma_lex_asym(k, m[i].0);
            if m[i].0 == k {
                assert(lex_lt(k, k));
            }
        }
        lemma_count_zero(m, k);
    } else if k == m[0].0 {
        let res = seq![(k, v)] + m.drop_first();
        assert(res.drop_first() =~= m.drop_first());
        assert forall|i: int| 0 <= i < m.drop_first().len() implies (#[trigger] m.drop_first()[
            i
        ]).0 != k by {
            assert(m.drop_first()[i] == m[i + 1]);
            assert(lex_lt(m[0].0, m[i + 1].0));
            if m[i + 1].0 == k {
                assert(lex_lt(k, k));
            }
        }
        lemma_count_zero(m.drop_first(), k);
    } else {
        lemma_lex_connected(k, m[0].0);
        assert(lex_lt(m[0].0, k));
        let res = seq![m[0]] + spec_put(m.drop_first(), k, v);
        assert(res.drop_first() =~= spec_put(m.drop_first(), k, v));
        assert(sorted_keys(m.drop_first())) by {
            assert(forall|i: int, j: int|
                0 <= i < j < m.drop_first().len() ==> lex_lt(
                    (#[trigger] m.drop_first()[i]).0,
                    (#[trigger] m.drop_first()[j]).0,
                )) by {
                assert(forall|i: int|
                    0 <= i < m.drop_first().len() ==> (#[trigger] m.drop_first()[i]) == m[i + 1]);
            }
        }
        lemma_put_count_one(m.drop_first(), k, v);
        assert(m[0].0 != k);
    }
}


// ------------------------------------------------------------------
// Executable comparisons.
// ------------------------------------------------------------------

/// Decides the store's key order.
fn lex_less(a: &[u8], b: &[u8]) -> (r: bool)
    ensures
        r == lex_lt(a@, b@),
{
    let n = if a.len() < b.len() {
        a.len()
    } else {
        b.len()
    };
    proof {
        assert(a@.skip(0) =~= a@);
        assert(b@.skip(0) =~= b@);
    }
    for i in 0..n
        invariant
            n <= a@.len(),
            n <= b@.len(),
            n == a@.len() || n == b@.len(),
            lex_lt(a@, b@) == lex_lt(a@.skip(i as int), b@.skip(i as int)),
    {
        proof {
            assert(a@.skip(i as int)[0] == a@[i as int]);
            assert(b@.skip(i as int)[0] == b@[i as int]);
            assert(a@.skip(i as int).drop_first() =~= a@.skip(i + 1));
            assert(b@.skip(i as int).drop_first() =~= b@.skip(i + 1));
        }
        if a[i] < b[i] {
            return true;
        }
        if a[i] > b[i] {
            return false;
        }
    }
    proof {
        assert(a@.skip(n as int).len() == a@.len() - n);
        assert(b@.skip(n as int).len() == b@.len() - n);
    }
    a.len() < b.len()
}

/// Decides byte-string equality.
fn bytes_eq(a: &[u8], b: &[u8]) -> (r: bool)
    ensures
        r == (a@ == b@),
{
    if a.len() != b.len() {
        return false;
    }
    let n = a.len();
    for i in 0..n
        invariant
            n == a@.len(),
            n == b@.len(),
            forall|j: int| 0 <= j < i ==> a@[j] == b@[j],
    {
        if a[i] != b[i] {
            return false;
        }
    }
    proof {
        assert(a@ =~= b@);
    }
    true
}

/// Decides whether `p` is a byte prefix of `k`.
fn has_prefix(p: &[u8], k: &[u8]) -> (r: bool)
    ensures
        r == is_byte_prefix(p@, k@),
{
    if p.len() > k.len() {
        return false;
    }
    let n = p.len();
    for i in 0..n
        invariant
            n == p@.len(),
            p@.len() <= k@.len(),
            forall|j: int| 0 <= j < i ==> k@[j] == p@[j],
    {
        if k[i] != p[i] {
            proof {
                if is_byte_prefix(p@, k@) {
                    assert(k@.take(p@.len() as int)[i as int] == p@[i as int]);
                }
            }
            return false;
        }
    }
    proof {
        assert(k@.take(p@.len() as int) =~= p@);
    }
    true
}

// ------------------------------------------------------------------
// The store.
// ------------------------------------------------------------------

/// The index store: an ordered map from fingerprint bytes to stored
/// records, keyed and iterated in lexicographic key order.
///
/// The handle is safe to share behind the caller's synchronization; the
/// store itself keeps every invariant the contracts state: keys are
/// strictly ascending, and every stored value is a well-formed record
/// encoding.
#[derive(Debug)]
pub struct KeyDB {
    path: String,
    entries: Vec<(Vec<u8>, Vec<u8>)>,
}

impl View for KeyDB {
    type V = Seq<(Seq<u8>, DbItemView)>;

    /// The store's value: its entries in key order, each value decoded.
    closed spec fn view(&self) -> Seq<(Seq<u8>, DbItemView)> {
        self.entries@.map_values(|e: (Vec<u8>, Vec<u8>)| (e.0@, dec_db_item(e.1@)->Some_0))
    }
}

impl KeyDB {
    /// Every stored value is a well-formed record encoding.
    pub closed spec fn values_valid(&self) -> bool {
        forall|i: int|
            0 <= i < self.entries@.len() ==> dec_db_item(
                (#[trigger] self.entries@[i]).1@,
            ) is Some
    }

    /// The store's invariant: keys strictly ascending, values well
    /// formed.
    pub open spec fn wf(&self) -> bool {
        self.values_valid() && sorted_keys(self@)
    }

    /// Opens a fresh, empty store for the given path.
    pub fn try_new(path: &str) -> (r: Result<KeyDB, StoreError>)
        ensures
            r is Ok,
            r->Ok_0.wf(),
            r->Ok_0@.len() == 0,
    {
        Ok(KeyDB { path: String::from_str(path), entries: Vec::new() })
    }

    /// Releases the store handle; no further operation touches it.
    pub fn close(self) {
    }

    /// The first position whose key is not below `key`; all keys before
    /// it are below `key`.
    fn lower_bound(&self, key: &[u8]) -> (i: usize)
        ensures
            i <= self.entries@.len(),
            forall|j: int| 0 <= j < i ==> lex_lt((#[trigger] self.entries@[j]).0@, key@),
            i < self.entries@.len() ==> !lex_lt(self.entries@[i as int].0@, key@),
    {
        let n = self.entries.len();
        for i in 0..n
            invariant
                n == self.entries@.len(),
                forall|j: int| 0 <= j < i ==> lex_lt((#[trigger] self.entries@[j]).0@, key@),
        {
            if !lex_less(self.entries[i].0.as_slice(), key) {
                return i;
            }
        }
        n
    }
}


/// Where an upsert lands: splicing the new entry at the first position
/// whose key is not below `k` realizes `spec_put`.
proof fn lemma_put_at(m: Seq<(Seq<u8>, DbItemView)>, k: Seq<u8>, v: DbItemView, i: int)
    requires
        0 <= i <= m.len(),
        forall|j: int| 0 <= j < i ==> lex_lt((#[trigger] m[j]).0, k),
        i < m.len() ==> !lex_lt(m[i].0, k),
    ensures
        i < m.len() && m[i].0 == k ==> spec_put(m, k, v) == m.take(i) + seq![(k, v)] + m.skip(
            i + 1,
        ),
        !(i < m.len() && m[i].0 == k) ==> spec_put(m, k, v) == m.take(i) + seq![(k, v)] + m.skip(i),
    decreases m.len(),
{
    if i == 0 {
        if m.len() == 0 {
            assert(m.take(0) + seq![(k, v)] + m.skip(0) =~= seq![(k, v)]);
        } else if m[0].0 == k {
            lemma_lex_irrefl(k);
            assert(spec_put(m, k, v) == seq![(k, v)] + m.drop_first());
            assert(m.take(0) + seq![(k, v)] + m.skip(1) =~= seq![(k, v)] + m.drop_first());
        } else {
            lemma_lex_connected(k, m[0].0);
            assert(spec_put(m, k, v) == seq![(k, v)] + m);
            assert(m.take(0) + seq![(k, v)] + m.skip(0) =~= seq![(k, v)] + m);
        }
    } else {
        assert(lex_lt(m[0].0, k));
        lemma_lex_asym(m[0].0, k);
        assert(m[0].0 != k) by {
            lemma_lex_irrefl(k);
        }
        assert(spec_put(m, k, v) == seq![m[0]] + spec_put(m.drop_first(), k, v));
        let md = m.drop_first();
        assert(forall|j: int| 0 <= j < md.len() ==> (#[trigger] md[j]) == m[j + 1]);
        lemma_put_at(md, k, v, i - 1);
        if i < m.len() && m[i].0 == k {
            assert(md[i - 1].0 == k);
            assert(seq![m[0]] + (md.take(i - 1) + seq![(k, v)] + md.skip(i)) =~= m.take(i) + seq![
                (k, v),
            ] + m.skip(i + 1));
        } else {
            assert(seq![m[0]] + (md.take(i - 1) + seq![(k, v)] + md.skip(i - 1)) =~= m.take(i)
                + seq![(k, v)] + m.skip(i));
        }
    }
}

/// A stretch with no matching entry contributes nothing to a scan.
proof fn lemma_scan_none(m: Seq<(Seq<u8>, DbItemView)>, p: Seq<u8>, f: Option<BlockInterval>)
    requires
        forall|i: int| 0 <= i < m.len() ==> !scan_match(#[trigger] m[i], p, f),
    ensures
        spec_scan(m, p, f) == Seq::<DbItemView>::empty(),
    decreases m.len(),
{
    if m.len() > 0 {
        assert(forall|i: int|
            0 <= i < m.drop_first().len() ==> (#[trigger] m.drop_first()[i]) == m[i + 1]);
        lemma_scan_none(m.drop_first(), p, f);
    }
}

impl KeyDB {
    /// Stores `item` under the key `hash`, overwriting whatever record
    /// that key held: an atomic per-key upsert, the store's only write.
    pub fn put(&mut self, hash: &[u8], item: &DbItem) -> (r: Result<(), StoreError>)
        requires
            old(self).wf(),
        ensures
            r is Ok,
            final(self).wf(),
            final(self)@ == spec_put(old(self)@, hash@, item@),
    {
        let ghost m0 = self@;
        let ghost k = hash@;
        let raw = encode_db_item(item);
        let idx = self.lower_bound(hash);
        let replace = idx < self.entries.len() && bytes_eq(
            self.entries[idx].0.as_slice(),
            hash,
        );
        let pair = (slice_to_vec(hash), raw);
        proof {
            lemma_db_item_round_trip(item@);
            assert(forall|j: int|
                0 <= j < m0.len() ==> (#[trigger] m0[j]) == (
                    self.entries@[j].0@,
                    dec_db_item(self.entries@[j].1@)->Some_0,
                ));
            lemma_put_at(m0, k, item@, idx as int);
            if idx < m0.len() && !replace {
                lemma_lex_connected(k, m0[idx as int].0);
            }
            assert forall|a: int, b: int|
                0 <= a < b < spec_put(m0, k, item@).len() implies lex_lt(
                (#[trigger] spec_put(m0, k, item@)[a]).0,
                (#[trigger] spec_put(m0, k, item@)[b]).0,
            ) by {
                let nv = spec_put(m0, k, item@);
                let shift: int = if replace {
                    1
                } else {
                    0
                };
                // nv[a] is m0[a] below idx, the new entry at idx, and
                // m0 shifted above idx.
                if a < idx && b < idx {
                    assert(lex_lt(m0[a].0, m0[b].0));
                } else if a < idx && b == idx {
                    assert(lex_lt(m0[a].0, k));
                } else if a == idx && idx < b {
                    assert(nv[b] == m0[b - 1 + shift]);
                    if replace {
                        assert(lex_lt(m0[idx as int].0, m0[b].0));
                    } else {
                        assert(lex_lt(k, m0[idx as int].0));
                        if b - 1 + shift > idx {
                            assert(lex_lt(m0[idx as int].0, m0[b - 1 + shift].0));
                            lemma_lex_trans(k, m0[idx as int].0, m0[b - 1 + shift].0);
                        }
                    }
                } else if a < idx && idx < b {
                    assert(nv[b] == m0[b - 1 + shift]);
                    assert(lex_lt(m0[a].0, m0[b - 1 + shift].0));
                } else {
                    assert(idx < a < b);
                    assert(nv[a] == m0[a - 1 + shift]);
                    assert(nv[b] == m0[b - 1 + shift]);
                    assert(lex_lt(m0[a - 1 + shift].0, m0[b - 1 + shift].0));
                }
            }
        }
        if replace {
            self.entries.remove(idx);
            self.entries.insert(idx, pair);
        } else {
            self.entries.insert(idx, pair);
        }
        proof {
            assert(self@ =~= spec_put(m0, k, item@));
            assert(self.values_valid()) by {
                assert(forall|j: int|
                    0 <= j < old(self).entries@.len() ==> dec_db_item(
                        (#[trigger] old(self).entries@[j]).1@,
                    ) is Some);
            }
        }
        Ok(())
    }

    /// Every stored record whose key starts with `start_prefix`, in key
    /// order, filtered by `opt_interval` (none: unconfirmed records
    /// only).
    ///
    /// The walk visits the contiguous run of matching keys and stops at
    /// the first key beyond it; the sort order makes that complete.
    pub fn prefix_iter(&self, start_prefix: &[u8], opt_interval: Option<BlockInterval>) -> (r:
        Vec<DbItem>)
        requires
            self.wf(),
        ensures
            item_views(r@) == spec_scan(self@, start_prefix@, opt_interval),
    {
        let ghost m = self@;
        let ghost p = start_prefix@;
        let mut out: Vec<DbItem> = Vec::new();
        let n = self.entries.len();
        proof {
            assert(m.skip(0) =~= m);
            assert(item_views(out@) =~= Seq::<DbItemView>::empty());
        }
        for i in 0..n
            invariant
                self.wf(),
                m == self@,
                p == start_prefix@,
                n == self.entries@.len(),
                n == m.len(),
                item_views(out@) + spec_scan(m.skip(i as int), p, opt_interval) == spec_scan(
                    m,
                    p,
                    opt_interval,
                ),
        {
            let ghost out_before = out@;
            proof {
                assert(m[i as int] == (
                    self.entries@[i as int].0@,
                    dec_db_item(self.entries@[i as int].1@)->Some_0,
                ));
                assert(m.skip(i as int)[0] == m[i as int]);
                assert(m.skip(i as int).drop_first() =~= m.skip(i + 1));
            }
            if has_prefix(start_prefix, self.entries[i].0.as_slice()) {
                let item = match decode_db_item(self.entries[i].1.as_slice()) {
                    Some(it) => it,
                    None => {
                        return vstd::pervasive::unreached();
                    },
                };
                proof {
                    assert(item@ == m[i as int].1);
                }
                let h = item.block_height;
                let pass = match &opt_interval {
                    None => h == 0,
                    Some(iv) => if iv.end == 0 {
                        h >= iv.start
                    } else {
                        iv.start <= h && h <= iv.end
                    },
                };
                proof {
                    assert(pass == height_in(opt_interval, m[i as int].1.block_height));
                }
                if pass {
                    out.push(item);
                    proof {
                        assert(scan_match(m[i as int], p, opt_interval));
                        assert(item_views(out@) =~= item_views(out_before).push(item@));
                        assert(item_views(out_before) + (seq![m[i as int].1] + spec_scan(
                            m.skip(i + 1),
                            p,
                            opt_interval,
                        )) =~= item_views(out@) + spec_scan(m.skip(i + 1), p, opt_interval));
                    }
                } else {
                    proof {
                        assert(!scan_match(m[i as int], p, opt_interval));
                    }
                }
            } else {
                proof {
                    assert(!scan_match(m[i as int], p, opt_interval));
                }
                if !lex_less(self.entries[i].0.as_slice(), start_prefix) {
                    proof {
                        let tail = m.skip(i as int);
                        assert forall|j: int|
                            0 <= j < tail.len() implies !scan_match(
                            #[trigger] tail[j],
                            p,
                            opt_interval,
                        ) by {
                            assert(tail[j] == m[i + j]);
                            if j > 0 {
                                assert(lex_lt(m[i as int].0, m[i + j].0));
                                lemma_prefix_gone(p, m[i as int].0, m[i + j].0);
                            }
                        }
                        lemma_scan_none(tail, p, opt_interval);
                        assert(item_views(out@) + Seq::<DbItemView>::empty() =~= item_views(
                            out@,
                        ));
                    }
                    return out;
                }
            }
        }
        proof {
            assert(m.skip(n as int).len() == 0);
            assert(item_views(out@) + Seq::<DbItemView>::empty() =~= item_views(out@));
        }
        out
    }
}


/// Putting the same (key, record) pair twice leaves the store exactly
/// as one put leaves it: one entry for that key, holding that record.
pub proof fn lemma_idempotent_overwrite(m: Seq<(Seq<u8>, DbItemView)>, k: Seq<u8>, v: DbItemView)
    requires
        sorted_keys(m),
    ensures
        spec_put(spec_put(m, k, v), k, v) == spec_put(m, k, v),
        spec_count_key(spec_put(m, k, v), k) == 1,
        spec_get(spec_put(m, k, v), k) == Some(v),
{
    lemma_put_idempotent(m, k, v);
    lemma_put_count_one(m, k, v);
    lemma_put_get(m, k, v);
}

/// A record first written unconfirmed and then rewritten confirmed is
/// replaced in place: a read finds only the confirmed record, and every
/// other key is untouched.
pub proof fn lemma_confirm_overwrite(
    m: Seq<(Seq<u8>, DbItemView)>,
    k: Seq<u8>,
    v0: DbItemView,
    v1: DbItemView,
)
    requires
        sorted_keys(m),
    ensures
        spec_put(spec_put(m, k, v0), k, v1) == spec_put(m, k, v1),
        spec_get(spec_put(spec_put(m, k, v0), k, v1), k) == Some(v1),
        spec_count_key(spec_put(spec_put(m, k, v0), k, v1), k) == 1,
        forall|k2: Seq<u8>|
            k2 != k ==> #[trigger] spec_get(spec_put(spec_put(m, k, v0), k, v1), k2) == spec_get(
                m,
                k2,
            ),
{
    lemma_put_collapse(m, k, v0, v1);
    lemma_put_get(m, k, v1);
    lemma_put_count_one(m, k, v1);
    assert forall|k2: Seq<u8>| k2 != k implies #[trigger] spec_get(
        spec_put(spec_put(m, k, v0), k, v1),
        k2,
    ) == spec_get(m, k2) by {
        lemma_put_get_other(m, k, v1, k2);
    }
}

} // verus!
