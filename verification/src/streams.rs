//! The two responses that are held open: exports, which page through one
//! snapshot of the store, and live tails, which follow what is admitted.

use vstd::prelude::*;

use crate::filter::TailCursor;
use crate::queries::DEFAULT_TAIL_BACKFILL;
use crate::text::{copy, dec, decimal};

verus! {

// ----------------------------------------------------------------------- export

/// How many rows an export fetches at a time.
pub const EXPORT_PAGE: usize = 4_096;

/// What an export does next.
#[derive(Clone, Copy, Debug, PartialEq, Eq, Structural)]
pub enum ExportStep {
    /// Fetch a page of at most so many rows behind the last one.
    Fetch { page_size: usize },
    /// End the response.
    Finish { complete: bool },
}

/// The size of the next page after `emitted` rows: zero where the limit has
/// been reached.
pub open spec fn page_after(limit: Option<usize>, emitted: nat) -> nat {
    match limit {
        None => EXPORT_PAGE as nat,
        Some(limit) => if emitted >= limit {
            0
        } else if limit - emitted > EXPORT_PAGE {
            EXPORT_PAGE as nat
        } else {
            (limit - emitted) as nat
        },
    }
}

/// What an export does after `emitted` rows.
pub open spec fn step_after(limit: Option<usize>, emitted: nat) -> ExportStep {
    if page_after(limit, emitted) == 0 {
        ExportStep::Finish { complete: true }
    } else {
        ExportStep::Fetch { page_size: page_after(limit, emitted) as usize }
    }
}

/// An export under way.
#[derive(Clone, Copy, Debug, PartialEq, Eq, Structural)]
pub struct Export {
    pub user_limit: Option<usize>,
    pub emitted: usize,
}

impl Export {
    /// An export that has emitted nothing.
    pub fn new(user_limit: Option<usize>) -> (r: Export)
        ensures
            r == (Export { user_limit, emitted: 0 }),
    {
        Export { user_limit, emitted: 0 }
    }

    /// What to do next.
    pub fn step(&self) -> (r: ExportStep)
        ensures
            r == step_after(self.user_limit, self.emitted as nat),
    {
        let page_size = match self.user_limit {
            None => EXPORT_PAGE,
            Some(limit) => {
                if self.emitted >= limit {
                    0
                } else if limit - self.emitted > EXPORT_PAGE {
                    EXPORT_PAGE
                } else {
                    limit - self.emitted
                }
            },
        };
        if page_size == 0 {
            ExportStep::Finish { complete: true }
        } else {
            ExportStep::Fetch { page_size }
        }
    }

    /// Counts a row that was sent.
    pub fn sent(&mut self)
        requires
            old(self).emitted < usize::MAX,
        ensures
            *final(self) == (Export { emitted: (old(self).emitted + 1) as usize, ..*old(self) }),
    {
        self.emitted += 1;
    }

    /// What to do after a page of `fetched` rows has been sent: a short page
    /// was the last.
    pub fn after_page(&self, fetched: usize, page_size: usize) -> (r: ExportStep)
        ensures
            r == (if fetched < page_size {
                ExportStep::Finish { complete: true }
            } else {
                step_after(self.user_limit, self.emitted as nat)
            }),
    {
        if fetched < page_size {
            return ExportStep::Finish { complete: true };
        }
        self.step()
    }

    /// What to do when a page cannot be fetched or a row cannot be written
    /// down.
    pub fn failed(&self) -> (r: ExportStep)
        ensures
            r == (ExportStep::Finish { complete: false }),
    {
        ExportStep::Finish { complete: false }
    }
}

/// How many rows an export of a dataset of `rows` has emitted in the end,
/// where every page holds as many rows as are left, up to its size.
pub open spec fn exported(rows: nat, limit: Option<usize>, emitted: nat) -> nat
    decreases rows - emitted,
{
    let page = page_after(limit, emitted);
    let left = if emitted >= rows {
        0
    } else {
        (rows - emitted) as nat
    };
    if page == 0 || left < page {
        emitted + if page == 0 {
            0
        } else {
            left
        }
    } else {
        exported(rows, limit, emitted + page)
    }
}

/// A complete export is the whole dataset, up to the limit that was asked for.
pub proof fn law_a_complete_export_is_the_dataset(rows: nat, limit: Option<usize>)
    ensures
        exported(rows, limit, 0) == (match limit {
            Some(limit) => if limit < rows {
                limit as nat
            } else {
                rows
            },
            None => rows,
        }),
{
    lemma_exported(rows, limit, 0);
}

proof fn lemma_exported(rows: nat, limit: Option<usize>, emitted: nat)
    requires
        emitted <= rows,
        limit matches Some(limit) ==> emitted <= limit,
    ensures
        exported(rows, limit, emitted) == (match limit {
            Some(limit) => if limit < rows {
                limit as nat
            } else {
                rows
            },
            None => rows,
        }),
    decreases rows - emitted,
{
    let page = page_after(limit, emitted);
    let left = (rows - emitted) as nat;
    if page > 0 && left >= page {
        lemma_exported(rows, limit, emitted + page);
    }
}

// ------------------------------------------------------------------------- tail

/// A live tail under way.
#[derive(Clone, Copy, Debug, PartialEq, Eq, Structural)]
pub struct Tail {
    /// Where the last read stopped.
    pub cursor: Option<TailCursor>,
    /// How much history the next read opens with.
    pub opening_backfill: usize,
    /// How much history the subscriber asked for.
    pub backfill: usize,
}

/// What a tail sends.
#[derive(Clone, Copy, Debug, PartialEq, Eq, Structural)]
pub enum TailFrame {
    /// A comment that keeps the connection alive.
    Tick,
    /// The spans of the batch and where they stopped.
    Spans,
}

/// The most spans of one batch: never none at all.
pub fn tail_limit(limit: Option<usize>) -> (r: usize)
    ensures
        r == (match limit {
            Some(n) => if n == 0 {
                1
            } else {
                n as int
            },
            None => DEFAULT_TAIL_BACKFILL as int,
        }),
{
    match limit {
        Some(n) => {
            if n == 0 {
                1
            } else {
                n
            }
        },
        None => DEFAULT_TAIL_BACKFILL,
    }
}

impl Tail {
    /// A tail that has read nothing.
    pub fn new(cursor: Option<TailCursor>, backfill: usize) -> (r: Tail)
        ensures
            r == (Tail { cursor, opening_backfill: backfill, backfill }),
    {
        Tail { cursor, opening_backfill: backfill, backfill }
    }

    /// Takes in a batch that stopped at `next`. History is delivered once; a
    /// batch that brought nothing and moved nothing is a tick.
    pub fn batch(&mut self, empty: bool, next: TailCursor) -> (r: TailFrame)
        ensures
            *final(self) == (Tail {
                cursor: Some(next),
                opening_backfill: 0,
                backfill: old(self).backfill,
            }),
            r == (if empty && old(self).cursor == Some(next) {
                TailFrame::Tick
            } else {
                TailFrame::Spans
            }),
    {
        let settled = match self.cursor {
            Some(cursor) => cursor.sequence == next.sequence,
            None => false,
        };
        self.cursor = Some(next);
        self.opening_backfill = 0;
        if empty && settled {
            TailFrame::Tick
        } else {
            TailFrame::Spans
        }
    }

    /// Takes in that the subscriber fell behind what is retained: it restarts
    /// at the live edge, with as much history as it asked for.
    pub fn gap(&mut self)
        ensures
            *final(self) == (Tail {
                cursor: None,
                opening_backfill: old(self).backfill,
                backfill: old(self).backfill,
            }),
    {
        self.cursor = None;
        self.opening_backfill = self.backfill;
    }
}

/// A frame that the client ignores.
pub const TICK_FRAME: &'static str = ": tick\n\n";

/// The frame of a batch, around its JSON text.
pub fn spans_frame(payload: &str) -> (r: String)
    ensures
        r@ == "event: spans\ndata: "@ + payload@ + "\n\n"@,
{
    let mut r = copy("event: spans\ndata: ");
    r.push_str(payload);
    r.push_str("\n\n");
    r
}

/// The frame of a gap: how many spans were missed.
pub fn gap_frame(missed: u64) -> (r: String)
    ensures
        r@ == "event: gap\ndata: {\"missed\":"@ + dec(missed as nat) + "}\n\n"@,
{
    let mut r = copy("event: gap\ndata: {\"missed\":");
    let digits = decimal(missed);
    r.push_str(digits.as_str());
    r.push_str("}\n\n");
    r
}

/// An export fetches 4096 spans at a time, or what is left of its limit, and
/// finishes once its limit is reached.
pub proof fn law_pages_of_an_export(limit: Option<usize>, emitted: nat)
    ensures
        limit is None ==> step_after(limit, emitted) == (ExportStep::Fetch { page_size: 4_096 }),
        limit is Some && emitted >= limit->0 ==> step_after(limit, emitted)
            == (ExportStep::Finish { complete: true }),
        limit is Some && emitted + 4_096 <= limit->0 ==> step_after(limit, emitted)
            == (ExportStep::Fetch { page_size: 4_096 }),
        limit is Some && emitted < limit->0 < emitted + 4_096 ==> step_after(limit, emitted)
            == (ExportStep::Fetch { page_size: (limit->0 - emitted) as usize }),
{
}

} // verus!
