//! The backfill coordinator's status and its state machine.
//!
//! A backfill run walks a height range `[start, end)`, fetching each
//! block from the node and writing one record per transaction input.
//! The fetching is the caller's concern; the library decides when a run
//! may start, what each fetched block contributes to the store, and how
//! the status moves. At most one run is in progress at a time.

use vstd::prelude::*;

use crate::db::{DbItemView, KeyDB};
use crate::errors::{ScrapeError, StreamError};
use crate::streams::{block_to_items, spec_block_items, spec_put_items};

verus! {

/// The backfill coordinator's state, readable at any time.
#[derive(Clone, Copy, Debug, PartialEq, Eq, Structural)]
pub enum Status {
    /// No backfill run is in progress.
    Idle,
    /// A run is in progress: `Scraping(cursor, start, end)` walks the
    /// heights `[start, end)` and has reached `cursor`.
    Scraping(u32, u32, u32),
}

impl Default for Status {
    /// A process starts idle.
    fn default() -> (r: Status)
        ensures
            r == Status::Idle,
    {
        Status::Idle
    }
}

impl Status {
    /// A scraping status always lies inside its own range.
    pub open spec fn wf(self) -> bool {
        match self {
            Status::Idle => true,
            Status::Scraping(cursor, start, end) => start <= cursor < end,
        }
    }
}

/// Starts a backfill run over `[start, end)`.
///
/// Refused while another run is in progress, without touching its
/// status. An empty range completes at once and stays idle.
pub fn scrape_begin(status: &mut Status, start: u32, end: u32) -> (r: Result<(), ScrapeError>)
    requires
        old(status).wf(),
    ensures
        final(status).wf(),
        *old(status) is Scraping ==> r == Err::<(), ScrapeError>(ScrapeError::AlreadyScraping)
            && *final(status) == *old(status),
        *old(status) is Idle ==> r == Ok::<(), ScrapeError>(()) && *final(status) == (if start < end {
            Status::Scraping(start, start, end)
        } else {
            Status::Idle
        }),
{
    match status {
        Status::Scraping(_, _, _) => Err(ScrapeError::AlreadyScraping),
        Status::Idle => {
            if start < end {
                *status = Status::Scraping(start, start, end);
            }
            Ok(())
        },
    }
}

/// What one backfill step leaves behind: on a good block, the store is
/// extended with the block's records and the cursor moves to the next
/// height (or the run completes); on a bad block, the run aborts with
/// the store unchanged.
pub open spec fn scrape_step_spec(
    st0: Status,
    db0: Seq<(Seq<u8>, DbItemView)>,
    raw_block: Seq<u8>,
    st1: Status,
    db1: Seq<(Seq<u8>, DbItemView)>,
    r: Result<bool, StreamError>,
) -> bool {
    let cursor = st0->Scraping_0;
    let start = st0->Scraping_1;
    let end = st0->Scraping_2;
    match spec_block_items(cursor, raw_block) {
        Some(items) => {
            &&& r == Ok::<bool, StreamError>(cursor + 1 == end)
            &&& db1 == spec_put_items(db0, items)
            &&& st1 == (if cursor + 1 == end {
                Status::Idle
            } else {
                Status::Scraping((cursor + 1) as u32, start, end)
            })
        },
        None => {
            &&& r is Err
            &&& db1 == db0
            &&& st1 == Status::Idle
        },
    }
}

/// Processes the block at the current cursor height of a running
/// backfill.
///
/// Writes one record per input of every transaction of the block, then
/// advances the cursor; the final height of the range completes the run
/// and returns `Ok(true)`. A block that does not decode aborts the run:
/// the status returns to idle and the store keeps only what earlier
/// heights wrote.
pub fn scrape_step(status: &mut Status, db: &mut KeyDB, raw_block: &[u8]) -> (r: Result<
    bool,
    StreamError,
>)
    requires
        old(status).wf(),
        *old(status) is Scraping,
        old(db).wf(),
    ensures
        final(status).wf(),
        final(db).wf(),
        scrape_step_spec(*old(status), old(db)@, raw_block@, *final(status), final(db)@, r),
{
    let (cursor, start, end) = match *status {
        Status::Scraping(cursor, start, end) => (cursor, start, end),
        Status::Idle => {
            proof {
                assert(false);
            }
            (0, 0, 0)
        },
    };
    match block_to_items(cursor, raw_block) {
        Ok(items) => {
            crate::streams::insert_items(db, &items);
            if cursor + 1 == end {
                *status = Status::Idle;
                Ok(true)
            } else {
                *status = Status::Scraping(cursor + 1, start, end);
                Ok(false)
            }
        },
        Err(e) => {
            *status = Status::Idle;
            Err(e)
        },
    }
}

/// Aborts a backfill run after a node fetch failed.
///
/// The status returns to idle; records written by earlier heights stay
/// in place (the store is not touched).
pub fn scrape_abort(status: &mut Status)
    ensures
        *final(status) == Status::Idle,
{
    *status = Status::Idle;
}

} // verus!
