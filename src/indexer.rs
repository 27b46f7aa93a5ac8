//! The decisions of the indexer's control loop: where to resume, which range
//! to fetch against the chain tip, when the cursor advances, and how long to
//! pause. The loop itself (RPC, stores, sleeping) runs around these.

use crate::matcher_config::MatcherEvent;
use crate::processor::{heights_within, lemma_range_records_within, range_records, txs_within};
use crate::rpc::Tx;
use crate::IndexerConfig;
use vstd::prelude::*;

verus! {

/// Stream mode fetches one height; batch mode catches up several.
#[derive(Debug, Clone, Copy, PartialEq, Eq, Structural)]
pub enum SyncMode {
    Stream,
    Batch,
}

/// The heights `from..=to` that one iteration fetches and commits.
#[derive(Debug, Clone, Copy, PartialEq, Eq, Structural)]
pub struct RangePlan {
    pub from: u64,
    pub to: u64,
    pub mode: SyncMode,
}

/// The height to resume after: the persisted cursor (0 where none could be
/// read), raised to the configured start height.
pub open spec fn spec_starting_height(persisted: Option<u64>, start_height: u64) -> u64 {
    let p = match persisted {
        Some(h) => h,
        None => 0,
    };
    if p < start_height {
        start_height
    } else {
        p
    }
}

/// The range of one iteration, as `(from, to)`: none while the tip is not
/// past the cursor; one height while the lag is 1; otherwise up to
/// `batch_size` heights, never past the tip.
pub open spec fn spec_plan(last: u64, tip: u64, batch_size: u64) -> Option<(u64, u64)> {
    if tip <= last {
        None
    } else if tip - last > 1 {
        let to = if tip - last <= batch_size {
            tip
        } else {
            (last + batch_size) as u64
        };
        Some(((last + 1) as u64, to))
    } else {
        Some(((last + 1) as u64, (last + 1) as u64))
    }
}

/// The cursor after a commit of `from..=to`: `to`, where the range follows
/// the cursor; else the cursor unchanged.
pub open spec fn spec_commit(last: u64, from: u64, to: u64) -> u64 {
    if from as int == last + 1 && from <= to {
        to
    } else {
        last
    }
}

/// The pause after an iteration: the batch pause where the range spans more
/// than two heights, else the single pause.
pub open spec fn spec_pacing(plan: Option<(u64, u64)>, batch_ms: u64, single_ms: u64) -> u64 {
    match plan {
        Some((from, to)) => if to > from && to - from > 1 {
            batch_ms
        } else {
            single_ms
        },
        None => single_ms,
    }
}

pub open spec fn plan_model(plan: Option<RangePlan>) -> Option<(u64, u64)> {
    match plan {
        Some(p) => Some((p.from, p.to)),
        None => None,
    }
}

/// The in-memory cursor of the loop: the highest height whose events are
/// all stored.
pub struct Indexer {
    pub last_indexed_height: u64,
}

impl Indexer {
    /// Resumes from the persisted cursor, raised to the start height.
    pub fn start(persisted: Option<u64>, config: &IndexerConfig) -> (r: Indexer)
        ensures
            r.last_indexed_height == spec_starting_height(persisted, config.start_height),
    {
        let p = match persisted {
            Some(h) => h,
            None => 0,
        };
        let last = if p < config.start_height {
            config.start_height
        } else {
            p
        };
        Indexer { last_indexed_height: last }
    }

    /// The range to fetch against the tip `tip`, with its mode.
    pub fn plan(&self, tip: u64, config: &IndexerConfig) -> (r: Option<RangePlan>)
        requires
            config.block_lag_batch_size >= 1,
        ensures
            plan_model(r) == spec_plan(self.last_indexed_height, tip, config.block_lag_batch_size),
            r matches Some(p) ==> (p.mode == SyncMode::Batch <==> tip - self.last_indexed_height
                > 1),
    {
        plan_range(self.last_indexed_height, tip, config.block_lag_batch_size)
    }

    /// Advances the cursor to the end of a range whose events are all
    /// stored, and whose cursor write succeeded.
    pub fn commit(&mut self, plan: &RangePlan)
        ensures
            final(self).last_indexed_height == spec_commit(
                old(self).last_indexed_height,
                plan.from,
                plan.to,
            ),
            final(self).last_indexed_height >= old(self).last_indexed_height,
    {
        if self.last_indexed_height < u64::MAX && plan.from == self.last_indexed_height + 1
            && plan.from <= plan.to {
            self.last_indexed_height = plan.to;
        }
    }
}

/// Plans one iteration from the cursor `last`, the tip and the batch size.
pub fn plan_range(last: u64, tip: u64, batch_size: u64) -> (r: Option<RangePlan>)
    requires
        batch_size >= 1,
    ensures
        plan_model(r) == spec_plan(last, tip, batch_size),
        r matches Some(p) ==> (p.mode == SyncMode::Batch <==> tip - last > 1),
{
    if tip <= last {
        return None;
    }
    let from = last + 1;
    let lag = tip - last;
    if lag > 1 {
        let to = if lag <= batch_size {
            tip
        } else {
            last + batch_size
        };
        Some(RangePlan { from, to, mode: SyncMode::Batch })
    } else {
        Some(RangePlan { from, to: from, mode: SyncMode::Stream })
    }
}

/// How long to pause after an iteration, in milliseconds.
pub fn pacing_timeout(plan: &Option<RangePlan>, config: &IndexerConfig) -> (r: u64)
    ensures
        r == spec_pacing(plan_model(*plan), config.fetch_batch_timeout, config.fetch_single_timeout),
{
    match plan {
        Some(p) => if p.to > p.from && p.to - p.from > 1 {
            config.fetch_batch_timeout
        } else {
            config.fetch_single_timeout
        },
        None => config.fetch_single_timeout,
    }
}

/// The cursor never goes back: whatever range an iteration plans, committing
/// it leaves the cursor at least where it was, and committing any range at
/// all does too.
pub proof fn lemma_cursor_monotonic(last: u64, tip: u64, batch_size: u64, from: u64, to: u64)
    ensures
        spec_commit(last, from, to) >= last,
        spec_plan(last, tip, batch_size) matches Some((f, t)) ==> spec_commit(last, f, t) >= last,
{
}

/// A committed range leaves the cursor at its end.
pub proof fn lemma_commit_reaches_range_end(last: u64, tip: u64, batch_size: u64)
    requires
        batch_size >= 1,
    ensures
        spec_plan(last, tip, batch_size) matches Some((from, to)) ==> from <= to && spec_commit(
            last,
            from,
            to,
        ) == to,
{
}

/// No record lies above the cursor after its range commits: where the RPC
/// lists only transactions of the planned heights, every record built from
/// them has a height within the range, hence at most the new cursor.
pub proof fn lemma_records_not_above_cursor(
    last: u64,
    tip: u64,
    batch_size: u64,
    events: Seq<MatcherEvent>,
    chain_id: Seq<char>,
    txs: Seq<Tx>,
)
    requires
        batch_size >= 1,
        spec_plan(last, tip, batch_size) matches Some((from, to)) && txs_within(txs, from, to),
    ensures
        spec_plan(last, tip, batch_size) matches Some((from, to)) && heights_within(
            range_records(events, chain_id, txs),
            from,
            spec_commit(last, from, to),
        ),
{
    let (from, to) = spec_plan(last, tip, batch_size)->0;
    lemma_range_records_within(events, chain_id, txs, from, to);
}

/// On restart, the first range fetched starts above the persisted cursor, so
/// no committed range is fetched again; where the start height is not above
/// the cursor, it starts right after it, so a range that was not committed
/// before the restart is fetched again (its records may then be stored twice).
pub proof fn lemma_resume_after_restart(
    persisted: u64,
    start_height: u64,
    tip: u64,
    batch_size: u64,
)
    requires
        batch_size >= 1,
    ensures
        spec_plan(spec_starting_height(Some(persisted), start_height), tip, batch_size) matches Some(
            (from, to),
        ) ==> from > persisted,
        start_height <= persisted ==> (spec_plan(
            spec_starting_height(Some(persisted), start_height),
            tip,
            batch_size,
        ) matches Some((from, to)) ==> from == persisted + 1),
{
}

/// The start height holds: after the first iteration, committed or not, the
/// cursor is at least the configured start height.
pub proof fn lemma_start_height_respected(
    persisted: Option<u64>,
    start_height: u64,
    tip: u64,
    batch_size: u64,
)
    requires
        batch_size >= 1,
    ensures
        spec_starting_height(persisted, start_height) >= start_height,
        spec_plan(spec_starting_height(persisted, start_height), tip, batch_size) matches Some(
            (from, to),
        ) ==> spec_commit(spec_starting_height(persisted, start_height), from, to) >= start_height,
{
}

/// The mode law: while the tip is past the cursor, the range is one height
/// when the lag is at most 1, and otherwise spans at most `batch_size`
/// heights; with a batch size of at least 2 a lag above 1 gives more than one
/// height.
pub proof fn lemma_mode_law(last: u64, tip: u64, batch_size: u64)
    requires
        batch_size >= 1,
        tip > last,
    ensures
        spec_plan(last, tip, batch_size) matches Some((from, to)) && from == last + 1 && (tip
            - last <= 1 ==> to == from) && (tip - last > 1 ==> to - from + 1 <= batch_size),
        batch_size >= 2 ==> (spec_plan(last, tip, batch_size) matches Some((from, to)) && (to
            == from <==> tip - last <= 1)),
{
}

/// An empty search result still advances the cursor to the end of the range,
/// with no record to store.
pub proof fn lemma_empty_range_advances(
    last: u64,
    tip: u64,
    batch_size: u64,
    events: Seq<MatcherEvent>,
    chain_id: Seq<char>,
)
    requires
        batch_size >= 1,
        tip > last,
    ensures
        range_records(events, chain_id, Seq::<Tx>::empty()).len() == 0,
        spec_plan(last, tip, batch_size) matches Some((from, to)) && spec_commit(last, from, to)
            == to,
{
}

/// With the tip not past the cursor nothing is fetched, the cursor stays, and
/// the single pause applies.
pub proof fn lemma_idle_when_caught_up(
    last: u64,
    tip: u64,
    batch_size: u64,
    batch_ms: u64,
    single_ms: u64,
)
    requires
        tip <= last,
    ensures
        spec_plan(last, tip, batch_size) is None,
        spec_pacing(spec_plan(last, tip, batch_size), batch_ms, single_ms) == single_ms,
{
}

} // verus!
