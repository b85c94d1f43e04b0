//! The service layer: the shared handles and the query and backfill
//! entry points, as the transport's handlers call them.
//!
//! The transport itself (routing, streaming, responses) is the caller's
//! concern; these functions decide everything the handlers decide:
//! whether a search is admissible, what it returns, and whether a
//! backfill may start.

use vstd::prelude::*;

use crate::client::BitcoinClient;
use crate::db::{item_views, spec_scan, BlockInterval, DbItem, KeyDB};
use crate::errors::{HexDecodeError, ScrapeError, ServerError};
use crate::scraper::{scrape_begin, Status};
use crate::settings::Settings;

verus! {

/// One prefix-search request: the fingerprint prefix to search for and
/// an optional confirmation-height filter.
#[derive(Clone, Debug)]
pub struct SearchParams {
    /// The fingerprint prefix, as raw bytes.
    pub prefix: Vec<u8>,
    /// The confirmation-height filter; none admits only unconfirmed
    /// records.
    pub interval: Option<BlockInterval>,
}

/// One item of a search's result stream: the full transaction as
/// fetched from the node, and where the matched input sits.
#[derive(Clone, Debug)]
pub struct Item {
    /// The raw transaction, as the node returned it.
    pub raw_tx: Vec<u8>,
    /// Position of the matched input within the transaction.
    pub input_index: u32,
    /// Confirmation height of the record (0: unconfirmed).
    pub block_height: u32,
}

// ------------------------------------------------------------------
// Hex decoding of caller-supplied prefixes.
// ------------------------------------------------------------------

/// Whether `c` is an ASCII hex digit (either case).
pub open spec fn is_hex_digit(c: u8) -> bool {
    (0x30 <= c && c <= 0x39) || (0x41 <= c && c <= 0x46) || (0x61 <= c && c <= 0x66)
}

/// The value of one hex digit.
pub open spec fn hex_val(c: u8) -> u8 {
    if 0x30 <= c && c <= 0x39 {
        (c - 0x30) as u8
    } else if 0x41 <= c && c <= 0x46 {
        (c - 0x41 + 10) as u8
    } else {
        (c - 0x61 + 10) as u8
    }
}

/// The bytes an even-length string of hex digits stands for: one byte
/// per digit pair, high digit first.
pub open spec fn hex_decode_seq(s: Seq<u8>) -> Seq<u8> {
    Seq::new((s.len() / 2) as nat, |i: int| (hex_val(s[2 * i]) * 16 + hex_val(s[2 * i + 1])) as u8)
}

/// Whether every byte of `s` is a hex digit.
pub open spec fn all_hex_digits(s: Seq<u8>) -> bool {
    forall|j: int| 0 <= j < s.len() ==> is_hex_digit(#[trigger] s[j])
}

/// Relies on `hex::decode`: an even-length string of hex digits (either
/// case) decodes to its bytes; an odd length is refused, and so is any
/// other byte.
#[verifier::external_body]
fn hex_decode_bytes(data: &[u8]) -> (r: Result<Vec<u8>, HexDecodeError>)
    ensures
        data@.len() % 2 != 0 ==> r is Err && r->Err_0 == HexDecodeError::OddLength,
        data@.len() % 2 == 0 && !all_hex_digits(data@) ==> r is Err && r->Err_0 == HexDecodeError::InvalidCharacter,
        data@.len() % 2 == 0 && all_hex_digits(data@) ==> r is Ok && r->Ok_0@ == hex_decode_seq(data@),
{
    match hex::decode(data) {
        Ok(v) => Ok(v),
        Err(hex::FromHexError::OddLength) => Err(HexDecodeError::OddLength),
        Err(hex::FromHexError::InvalidHexCharacter { .. }) => Err(HexDecodeError::InvalidCharacter),
        // `hex::decode` never reports this variant; the arm is for
        // totality.
        Err(hex::FromHexError::InvalidStringLength) => Err(HexDecodeError::InvalidCharacter),
    }
}

/// Serves a prefix search given a hex-encoded prefix.
///
/// Fails fast with `PrefixTooShort` below two hex digits per configured
/// minimum byte, before any store access; refuses malformed hex with
/// `InvalidHex`; scans with no height filter (unconfirmed records
/// only); and reports `PrefixNotFound` when nothing matches.
pub fn prefix_search(prefix: Vec<u8>, db: &KeyDB, min_prefix: usize) -> (r: Result<
    Vec<DbItem>,
    ServerError,
>)
    requires
        db.wf(),
    ensures
        prefix@.len() < 2 * (min_prefix as int) ==> r == Err::<Vec<DbItem>, ServerError>(
            ServerError::PrefixTooShort,
        ),
        prefix@.len() >= 2 * (min_prefix as int) && prefix@.len() % 2 != 0 ==> r == Err::<
            Vec<DbItem>,
            ServerError,
        >(ServerError::InvalidHex(HexDecodeError::OddLength)),
        prefix@.len() >= 2 * (min_prefix as int) && prefix@.len() % 2 == 0 && !all_hex_digits(
            prefix@,
        ) ==> r == Err::<Vec<DbItem>, ServerError>(
            ServerError::InvalidHex(HexDecodeError::InvalidCharacter),
        ),
        prefix@.len() >= 2 * (min_prefix as int) && prefix@.len() % 2 == 0 && all_hex_digits(
            prefix@,
        ) ==> {
            let found = spec_scan(db@, hex_decode_seq(prefix@), Option::<BlockInterval>::None);
            if found.len() == 0 {
                r == Err::<Vec<DbItem>, ServerError>(ServerError::PrefixNotFound)
            } else {
                r is Ok && item_views(r->Ok_0@) == found
            }
        },
{
    if prefix.len() / 2 < min_prefix {
        return Err(ServerError::PrefixTooShort);
    }
    let raw_prefix = match hex_decode_bytes(prefix.as_slice()) {
        Ok(ok) => ok,
        Err(e) => {
            return Err(ServerError::from(e));
        },
    };
    let items = db.prefix_iter(raw_prefix.as_slice(), None);
    if items.len() == 0 {
        return Err(ServerError::PrefixNotFound);
    }
    Ok(items)
}

/// Assembles one item of a search's result stream: the transaction body
/// fetched from the node under the record's identifier, joined with the
/// record's input position and confirmation height.
pub fn assemble_item(raw_tx: Vec<u8>, db_item: &DbItem) -> (r: Item)
    ensures
        r.raw_tx@ == raw_tx@,
        r.input_index == db_item.input_index,
        r.block_height == db_item.block_height,
{
    Item { raw_tx, input_index: db_item.input_index, block_height: db_item.block_height }
}

// ------------------------------------------------------------------
// The shared service state.
// ------------------------------------------------------------------

/// The service's shared state: the index store, the node client's
/// parameters, the backfill status, and the configuration. The caller
/// shares it behind its own synchronization.
#[derive(Debug)]
pub struct Public {
    pub key_db: KeyDB,
    pub bitcoin_client: BitcoinClient,
    pub status: Status,
    pub settings: Settings,
}

impl Public {
    /// The service's invariant: the store's and the status's own.
    pub open spec fn wf(&self) -> bool {
        self.key_db.wf() && self.status.wf()
    }

    /// Handles a backfill request over `[interval.start, end)`, where
    /// `interval.end == 0` means the node's current tip height,
    /// snapshotted by the caller at call time.
    ///
    /// Refused while a run is in progress, leaving the running status
    /// untouched; otherwise the status moves to scraping at the range's
    /// start (an empty range completes at once). Nothing else changes.
    pub fn scrape(&mut self, interval: BlockInterval, chain_tip: u32) -> (r: Result<
        (),
        ScrapeError,
    >)
        requires
            old(self).wf(),
        ensures
            final(self).wf(),
            final(self).key_db == old(self).key_db,
            final(self).bitcoin_client == old(self).bitcoin_client,
            final(self).settings == old(self).settings,
            old(self).status is Scraping ==> r == Err::<(), ScrapeError>(
                ScrapeError::AlreadyScraping,
            ) && final(self).status == old(self).status,
            old(self).status is Idle ==> r == Ok::<(), ScrapeError>(()) && final(self).status == ({
                let end: u32 = if interval.end == 0 {
                    chain_tip
                } else {
                    interval.end
                };
                if interval.start < end {
                    Status::Scraping(interval.start, interval.start, end)
                } else {
                    Status::Idle
                }
            }),
    {
        let end = if interval.end == 0 {
            chain_tip
        } else {
            interval.end
        };
        scrape_begin(&mut self.status, interval.start, end)
    }

    /// The backfill coordinator's current status: a pure read, safe at
    /// any time.
    pub fn status(&self) -> (r: Status)
        ensures
            r == self.status,
    {
        self.status
    }

    /// Serves a prefix search over raw prefix bytes.
    ///
    /// Fails fast with `PrefixTooShort` below the configured minimum,
    /// before any store access; scans under the request's height
    /// filter; reports `PrefixNotFound` when nothing matches; otherwise
    /// returns the matched records in key order, for the caller to
    /// enrich with the transactions fetched from the node.
    pub fn prefix_search(&self, params: &SearchParams) -> (r: Result<Vec<DbItem>, ServerError>)
        requires
            self.wf(),
        ensures
            params.prefix@.len() < self.settings.min_prefix ==> r == Err::<
                Vec<DbItem>,
                ServerError,
            >(ServerError::PrefixTooShort),
            params.prefix@.len() >= self.settings.min_prefix ==> {
                let found = spec_scan(self.key_db@, params.prefix@, params.interval);
                if found.len() == 0 {
                    r == Err::<Vec<DbItem>, ServerError>(ServerError::PrefixNotFound)
                } else {
                    r is Ok && item_views(r->Ok_0@) == found
                }
            },
    {
        if params.prefix.len() < self.settings.min_prefix {
            return Err(ServerError::PrefixTooShort);
        }
        let items = self.key_db.prefix_iter(params.prefix.as_slice(), params.interval);
        if items.len() == 0 {
            return Err(ServerError::PrefixNotFound);
        }
        Ok(items)
    }
}

} // verus!
