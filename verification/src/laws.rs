//! The properties the indexing pipeline is answerable for, proved over the
//! same models its contracts speak of.

use crate::events::{decode_model, EventModel, LogModel};
use crate::indexer::{
    apply_batches_model, apply_event_model, apply_log_model, apply_logs_model, event_delta,
    next_checkpoint,
};
use crate::ledger::balance_or_zero;
use vstd::prelude::*;

verus! {

/// The signed delta one raw log applies to one wallet: its decoded event's
/// delta, or nothing for a log that is skipped.
pub open spec fn log_delta(dep: Seq<u8>, wdr: Seq<u8>, log: LogModel, w: Seq<u8>) -> int {
    match decode_model(dep, wdr, log) {
        Some(ev) => event_delta(ev, w),
        None => 0,
    }
}

/// The signed delta a batch of logs applies to one wallet.
pub open spec fn batch_delta(dep: Seq<u8>, wdr: Seq<u8>, logs: Seq<LogModel>, w: Seq<u8>) -> int
    decreases logs.len(),
{
    if logs.len() == 0 {
        0
    } else {
        batch_delta(dep, wdr, logs.drop_last(), w) + log_delta(dep, wdr, logs.last(), w)
    }
}

/// The signed delta a whole iteration's batches apply to one wallet.
pub open spec fn batches_delta(
    dep: Seq<u8>,
    wdr: Seq<u8>,
    batches: Seq<Seq<LogModel>>,
    w: Seq<u8>,
) -> int
    decreases batches.len(),
{
    if batches.len() == 0 {
        0
    } else {
        batches_delta(dep, wdr, batches.drop_last(), w) + batch_delta(
            dep,
            wdr,
            batches.last(),
            w,
        )
    }
}

/// One decoded event moves one wallet's balance by exactly its signed
/// delta, and no other wallet's balance at all.
pub proof fn lemma_event_balance(m: Map<Seq<u8>, int>, ev: EventModel, w: Seq<u8>)
    ensures
        balance_or_zero(apply_event_model(m, ev), w) == balance_or_zero(m, w) + event_delta(ev, w),
{
}

/// One raw log moves one wallet's balance by exactly its signed delta.
pub proof fn lemma_log_balance(dep: Seq<u8>, wdr: Seq<u8>, m: Map<Seq<u8>, int>, log: LogModel, w: Seq<u8>)
    ensures
        balance_or_zero(apply_log_model(dep, wdr, m, log), w) == balance_or_zero(m, w) + log_delta(
            dep,
            wdr,
            log,
            w,
        ),
{
    match decode_model(dep, wdr, log) {
        Some(ev) => lemma_event_balance(m, ev, w),
        None => {},
    }
}

/// Applying a batch of logs moves each wallet's balance by exactly the sum
/// of the signed deltas of the events decoded for it: every deposit adds
/// exactly its amount and every withdrawal subtracts exactly its amount.
pub proof fn lemma_batch_balance(
    dep: Seq<u8>,
    wdr: Seq<u8>,
    m: Map<Seq<u8>, int>,
    logs: Seq<LogModel>,
    w: Seq<u8>,
)
    ensures
        balance_or_zero(apply_logs_model(dep, wdr, m, logs), w) == balance_or_zero(m, w)
            + batch_delta(dep, wdr, logs, w),
    decreases logs.len(),
{
    if logs.len() > 0 {
        lemma_batch_balance(dep, wdr, m, logs.drop_last(), w);
        lemma_log_balance(dep, wdr, apply_logs_model(dep, wdr, m, logs.drop_last()), logs.last(), w);
    }
}

/// Across a whole iteration's batches, each wallet's post-iteration balance
/// is its pre-iteration balance plus the sum of the signed deltas decoded
/// for it, over all contracts in order.
pub proof fn lemma_batches_balance(
    dep: Seq<u8>,
    wdr: Seq<u8>,
    m: Map<Seq<u8>, int>,
    batches: Seq<Seq<LogModel>>,
    w: Seq<u8>,
)
    ensures
        balance_or_zero(apply_batches_model(dep, wdr, m, batches), w) == balance_or_zero(m, w)
            + batches_delta(dep, wdr, batches, w),
    decreases batches.len(),
{
    if batches.len() > 0 {
        lemma_batches_balance(dep, wdr, m, batches.drop_last(), w);
        lemma_batch_balance(
            dep,
            wdr,
            apply_batches_model(dep, wdr, m, batches.drop_last()),
            batches.last(),
            w,
        );
    }
}

/// A log decoded as `Deposit(user, pid, amount)` raises `user`'s balance by
/// exactly `amount`.
pub proof fn lemma_deposit_credits_exactly(
    dep: Seq<u8>,
    wdr: Seq<u8>,
    m: Map<Seq<u8>, int>,
    log: LogModel,
    user: Seq<u8>,
    pid: Seq<u8>,
    amount: nat,
)
    requires
        decode_model(dep, wdr, log) == Some(EventModel::Deposit { user, pid, amount }),
    ensures
        balance_or_zero(apply_log_model(dep, wdr, m, log), user) == balance_or_zero(m, user)
            + amount,
{
    lemma_log_balance(dep, wdr, m, log, user);
}

/// A log decoded as `Withdraw(user, pid, amount, tax)` lowers `user`'s
/// balance by exactly `amount`: the tax field is decoded but takes no part
/// in the delta.
pub proof fn lemma_withdraw_debits_exactly(
    dep: Seq<u8>,
    wdr: Seq<u8>,
    m: Map<Seq<u8>, int>,
    log: LogModel,
    user: Seq<u8>,
    pid: Seq<u8>,
    amount: nat,
    tax: nat,
)
    requires
        decode_model(dep, wdr, log) == Some(EventModel::Withdraw { user, pid, amount, tax }),
    ensures
        balance_or_zero(apply_log_model(dep, wdr, m, log), user) == balance_or_zero(m, user)
            - amount,
{
    lemma_log_balance(dep, wdr, m, log, user);
}

/// A log whose first topic matches no known selector decodes to `Unknown`
/// and causes no ledger mutation, and is no error.
pub proof fn lemma_unknown_selector_no_mutation(
    dep: Seq<u8>,
    wdr: Seq<u8>,
    m: Map<Seq<u8>, int>,
    log: LogModel,
)
    requires
        log.topics.len() == 0 || (log.topics[0] != dep && log.topics[0] != wdr),
    ensures
        decode_model(dep, wdr, log) == Some(EventModel::Unknown),
        apply_log_model(dep, wdr, m, log) == m,
{
}

/// The checkpoint never moves down across completed iterations, except for
/// the reset transition, which lands exactly at zero.
pub proof fn lemma_checkpoint_transitions(current_height: u64, last_processed: u64)
    ensures
        current_height >= last_processed ==> next_checkpoint(current_height, last_processed)
            >= last_processed,
        current_height > last_processed ==> next_checkpoint(current_height, last_processed)
            == current_height,
        current_height < last_processed ==> next_checkpoint(current_height, last_processed) == 0,
{
}

} // verus!
