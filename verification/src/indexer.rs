//! One iteration of the indexing loop: read the two heights, decide
//! skip / reset / scan, decode and apply each contract's logs in order, and
//! advance the checkpoint only after the whole range is applied.
//!
//! The supervisory loop around it (sleeping, backoff, retry) performs I/O
//! and lives with the caller; everything it decides is here.

use crate::events::{decode, decode_model, Event, EventModel, LogModel, RawLog, SelectorTable};
use crate::ledger::{balance_or_zero, Ledger};
use crate::num::Balance;
use vstd::prelude::*;

verus! {

/// What one iteration does after reading the two heights.
#[derive(Clone, Copy)]
pub enum RangeDecision {
    /// The chain height fell below the checkpoint: a development-chain
    /// reset. The checkpoint returns to zero and no logs are processed.
    Reset,
    /// No new blocks: nothing is read and nothing changes.
    Skip,
    /// Scan the inclusive block range and apply what it holds.
    Scan { from: u64, to: u64 },
}

/// The decision owed to a pair of heights.
pub open spec fn decision_model(current_height: u64, last_processed: u64) -> RangeDecision {
    if current_height < last_processed {
        RangeDecision::Reset
    } else if current_height == last_processed {
        RangeDecision::Skip
    } else {
        RangeDecision::Scan { from: (last_processed + 1) as u64, to: current_height }
    }
}

/// The checkpoint after an iteration that read `current_height` against
/// `last_processed` and ran to completion.
pub open spec fn next_checkpoint(current_height: u64, last_processed: u64) -> u64 {
    if current_height < last_processed {
        0
    } else if current_height == last_processed {
        last_processed
    } else {
        current_height
    }
}

/// Decides what an iteration does, from the chain height and the checkpoint.
pub fn plan_iteration(current_height: u64, last_processed: u64) -> (r: RangeDecision)
    ensures
        r == decision_model(current_height, last_processed),
{
    if current_height < last_processed {
        RangeDecision::Reset
    } else if current_height == last_processed {
        RangeDecision::Skip
    } else {
        RangeDecision::Scan { from: last_processed + 1, to: current_height }
    }
}

/// The signed ledger delta an event applies to one wallet: a deposit adds
/// its amount, a withdrawal subtracts its amount (the tax field is decoded
/// but not applied), anything else changes nothing.
pub open spec fn event_delta(ev: EventModel, w: Seq<u8>) -> int {
    match ev {
        EventModel::Deposit { user, pid, amount } => if user == w {
            amount as int
        } else {
            0
        },
        EventModel::Withdraw { user, pid, amount, tax } => if user == w {
            -(amount as int)
        } else {
            0
        },
        EventModel::Unknown => 0,
    }
}

/// The ledger after one decoded event.
pub open spec fn apply_event_model(m: Map<Seq<u8>, int>, ev: EventModel) -> Map<Seq<u8>, int> {
    match ev {
        EventModel::Deposit { user, pid, amount } => m.insert(
            user,
            balance_or_zero(m, user) + amount,
        ),
        EventModel::Withdraw { user, pid, amount, tax } => m.insert(
            user,
            balance_or_zero(m, user) - amount,
        ),
        EventModel::Unknown => m,
    }
}

/// The ledger after one raw log: a decodable log applies its event, a
/// malformed log of a known selector is skipped.
pub open spec fn apply_log_model(dep: Seq<u8>, wdr: Seq<u8>, m: Map<Seq<u8>, int>, log: LogModel)
    -> Map<Seq<u8>, int> {
    match decode_model(dep, wdr, log) {
        Some(ev) => apply_event_model(m, ev),
        None => m,
    }
}

/// The ledger after a batch of raw logs, applied in order.
pub open spec fn apply_logs_model(
    dep: Seq<u8>,
    wdr: Seq<u8>,
    m: Map<Seq<u8>, int>,
    logs: Seq<LogModel>,
) -> Map<Seq<u8>, int>
    decreases logs.len(),
{
    if logs.len() == 0 {
        m
    } else {
        apply_log_model(dep, wdr, apply_logs_model(dep, wdr, m, logs.drop_last()), logs.last())
    }
}

/// The ledger after one batch per contract, contracts in their fixed order.
pub open spec fn apply_batches_model(
    dep: Seq<u8>,
    wdr: Seq<u8>,
    m: Map<Seq<u8>, int>,
    batches: Seq<Seq<LogModel>>,
) -> Map<Seq<u8>, int>
    decreases batches.len(),
{
    if batches.len() == 0 {
        m
    } else {
        apply_logs_model(
            dep,
            wdr,
            apply_batches_model(dep, wdr, m, batches.drop_last()),
            batches.last(),
        )
    }
}

/// The mathematical shape of a sequence of raw logs.
pub open spec fn logs_view(s: Seq<RawLog>) -> Seq<LogModel> {
    s.map_values(|l: RawLog| l@)
}

/// The mathematical shape of one batch of raw logs per contract.
pub open spec fn batches_view(s: Seq<Vec<RawLog>>) -> Seq<Seq<LogModel>> {
    s.map_values(|v: Vec<RawLog>| logs_view(v@))
}

/// Whether an instruction is the one an event owes the ledger: a deposit
/// credits its amount, a withdrawal debits its amount and not its tax, and
/// an unknown event instructs nothing.
pub open spec fn instruction_matches(ev: EventModel, r: Option<(Vec<u8>, Balance)>) -> bool {
    match ev {
        EventModel::Deposit { user, pid, amount } => r matches Some(p) && p.0@ == user && p.1@
            == amount as int,
        EventModel::Withdraw { user, pid, amount, tax } => r matches Some(p) && p.0@ == user
            && p.1@ == -(amount as int),
        EventModel::Unknown => r is None,
    }
}

/// The ledger instruction one decoded event carries: the wallet and the
/// signed delta to upsert for it, or nothing for an unknown event.
pub fn event_instruction(ev: Event) -> (r: Option<(Vec<u8>, Balance)>)
    ensures
        instruction_matches(ev@, r),
{
    match ev {
        Event::Deposit { user, pid: _, amount } => Some((user, Balance::credit(amount))),
        Event::Withdraw { user, pid: _, amount, tax: _ } => Some((user, Balance::debit(amount))),
        Event::Unknown => None,
    }
}

/// Decodes one log and applies its event to the ledger. `Unknown` events
/// and malformed logs leave the ledger untouched and are not errors.
pub fn apply_log(ledger: &mut Ledger, table: &SelectorTable, log: &RawLog)
    requires
        old(ledger).wf(),
    ensures
        final(ledger).wf(),
        final(ledger)@ == apply_log_model(table.deposit@, table.withdraw@, old(ledger)@, log@),
{
    match decode(table, log) {
        Ok(Event::Deposit { user, pid, amount }) => {
            let delta = Balance::credit(amount);
            ledger.apply_delta(user, &delta);
        },
        Ok(Event::Withdraw { user, pid, amount, tax }) => {
            let delta = Balance::debit(amount);
            ledger.apply_delta(user, &delta);
        },
        Ok(Event::Unknown) => {},
        Err(_) => {},
    }
}

/// Applies one contract's log batch to the ledger, in order.
pub fn scan_logs(ledger: &mut Ledger, table: &SelectorTable, logs: &Vec<RawLog>)
    requires
        old(ledger).wf(),
    ensures
        final(ledger).wf(),
        final(ledger)@ == apply_logs_model(
            table.deposit@,
            table.withdraw@,
            old(ledger)@,
            logs_view(logs@),
        ),
{
    let n = logs.len();
    let mut i: usize = 0;
    while i < n
        invariant
            i <= n,
            n == logs@.len(),
            ledger.wf(),
            ledger@ == apply_logs_model(
                table.deposit@,
                table.withdraw@,
                old(ledger)@,
                logs_view(logs@).take(i as int),
            ),
        decreases n - i,
    {
        proof {
            let lv = logs_view(logs@);
            assert(lv.take(i + 1).drop_last() =~= lv.take(i as int));
            assert(lv.take(i + 1).last() == lv[i as int]);
            assert(lv[i as int] == logs@[i as int]@);
        }
        apply_log(ledger, table, &logs[i]);
        i = i + 1;
    }
    proof {
        assert(logs_view(logs@).take(n as int) =~= logs_view(logs@));
    }
}

/// The checkpoint record: the last chain height whose events have been
/// fully applied to the ledger.
pub struct IndexerState {
    pub last_processed_block: u64,
}

impl IndexerState {
    pub fn new(last_processed_block: u64) -> (r: IndexerState)
        ensures
            r.last_processed_block == last_processed_block,
    {
        IndexerState { last_processed_block }
    }

    /// Persists a new height. The caller guarantees the height never moves
    /// down; the one way back down is the explicit reset transition.
    pub fn set(&mut self, height: u64)
        requires
            old(self).last_processed_block <= height,
        ensures
            final(self).last_processed_block == height,
    {
        self.last_processed_block = height;
    }

    /// The reset transition: back to height zero.
    pub fn reset(&mut self)
        ensures
            final(self).last_processed_block == 0,
    {
        self.last_processed_block = 0;
    }
}

/// One complete iteration over already-fetched inputs: decide by the two
/// heights; on `Reset` zero the checkpoint and touch nothing else; on
/// `Skip` change nothing; on `Scan` apply every contract's batch in order
/// and only then advance the checkpoint to the scanned height.
pub fn run_iteration(
    state: &mut IndexerState,
    ledger: &mut Ledger,
    table: &SelectorTable,
    current_height: u64,
    logs_by_contract: &Vec<Vec<RawLog>>,
) -> (r: RangeDecision)
    requires
        old(ledger).wf(),
    ensures
        final(ledger).wf(),
        r == decision_model(current_height, old(state).last_processed_block),
        final(state).last_processed_block == next_checkpoint(
            current_height,
            old(state).last_processed_block,
        ),
        current_height <= old(state).last_processed_block ==> final(ledger)@ == old(ledger)@,
        current_height > old(state).last_processed_block ==> final(ledger)@ == apply_batches_model(
            table.deposit@,
            table.withdraw@,
            old(ledger)@,
            batches_view(logs_by_contract@),
        ),
{
    let decision = plan_iteration(current_height, state.last_processed_block);
    match decision {
        RangeDecision::Reset => {
            state.reset();
        },
        RangeDecision::Skip => {},
        RangeDecision::Scan { from: _, to: _ } => {
            let n = logs_by_contract.len();
            let mut i: usize = 0;
            while i < n
                invariant
                    i <= n,
                    n == logs_by_contract@.len(),
                    ledger.wf(),
                    ledger@ == apply_batches_model(
                        table.deposit@,
                        table.withdraw@,
                        old(ledger)@,
                        batches_view(logs_by_contract@).take(i as int),
                    ),
                decreases n - i,
            {
                proof {
                    let bv = batches_view(logs_by_contract@);
                    assert(bv.take(i + 1).drop_last() =~= bv.take(i as int));
                    assert(bv.take(i + 1).last() == bv[i as int]);
                    assert(bv[i as int] == logs_view(logs_by_contract@[i as int]@));
                }
                scan_logs(ledger, table, &logs_by_contract[i]);
                i = i + 1;
            }
            proof {
                let bv = batches_view(logs_by_contract@);
                assert(bv.take(n as int) =~= bv);
            }
            state.set(current_height);
        },
    }
    decision
}

} // verus!
