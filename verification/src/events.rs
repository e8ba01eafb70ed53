//! Log classification and event decoding.
//!
//! A raw log is classified by its first topic against the table of known
//! event selectors; anything else is `Unknown`. A log that matches a known
//! selector but has the wrong shape is a per-log decode error: the caller
//! skips that log and nothing else.

use crate::bytes::{bytes_eq, sub_bytes};
use crate::num::{be_value, Amount};
use vstd::prelude::*;

verus! {

/// The 32-byte Keccak-256 digest of a signature string.
pub uninterp spec fn keccak_of(s: Seq<char>) -> Seq<u8>;

/// Relies on `alloy::primitives::keccak256`: the Keccak-256 digest of the
/// input bytes, 32 bytes long, a function of the input alone.
#[verifier::external_body]
fn keccak256_bytes(s: &str) -> (r: Vec<u8>)
    ensures
        r@ == keccak_of(s@),
        r@.len() == 32,
{
    alloy::primitives::keccak256(s.as_bytes()).to_vec()
}

/// The signature whose digest selects a deposit event.
pub open spec fn deposit_signature() -> Seq<char> {
    "Deposit(address,uint256,uint256)"@
}

/// The signature whose digest selects a withdraw event.
pub open spec fn withdraw_signature() -> Seq<char> {
    "Withdraw(address,uint256,uint256,uint256)"@
}

/// A raw chain log: the emitting contract, the topic hashes (the first is
/// the event selector), the data words, and the height it was emitted at.
pub struct RawLog {
    pub address: Vec<u8>,
    pub topics: Vec<Vec<u8>>,
    pub data: Vec<u8>,
    pub block_number: u64,
}

/// The mathematical shape of a raw log.
pub struct LogModel {
    pub address: Seq<u8>,
    pub topics: Seq<Seq<u8>>,
    pub data: Seq<u8>,
    pub block_number: u64,
}

impl View for RawLog {
    type V = LogModel;

    open spec fn view(&self) -> LogModel {
        LogModel {
            address: self.address@,
            topics: self.topics@.map_values(|t: Vec<u8>| t@),
            data: self.data@,
            block_number: self.block_number,
        }
    }
}

/// The selectors the indexer recognizes, each a 32-byte topic value.
pub struct SelectorTable {
    pub deposit: Vec<u8>,
    pub withdraw: Vec<u8>,
}

impl SelectorTable {
    /// A table over caller-chosen selector values.
    pub fn new(deposit: Vec<u8>, withdraw: Vec<u8>) -> (r: SelectorTable)
        ensures
            r.deposit@ == deposit@,
            r.withdraw@ == withdraw@,
    {
        SelectorTable { deposit, withdraw }
    }

    /// The table the indexer runs with: the digests of the two known
    /// event signatures.
    pub fn standard() -> (r: SelectorTable)
        ensures
            r.deposit@ == keccak_of(deposit_signature()),
            r.withdraw@ == keccak_of(withdraw_signature()),
            r.deposit@.len() == 32,
            r.withdraw@.len() == 32,
    {
        SelectorTable {
            deposit: keccak256_bytes("Deposit(address,uint256,uint256)"),
            withdraw: keccak256_bytes("Withdraw(address,uint256,uint256,uint256)"),
        }
    }
}

/// A decoded event: the variant the first topic selects, with its fields.
/// `user` is the 20-byte wallet drawn from the first indexed topic, `pid`
/// the raw 32-byte pool id topic, amounts the values of the data words.
pub enum Event {
    Deposit { user: Vec<u8>, pid: Vec<u8>, amount: Amount },
    Withdraw { user: Vec<u8>, pid: Vec<u8>, amount: Amount, tax: Amount },
    Unknown,
}

/// The mathematical shape of a decoded event.
pub enum EventModel {
    Deposit { user: Seq<u8>, pid: Seq<u8>, amount: nat },
    Withdraw { user: Seq<u8>, pid: Seq<u8>, amount: nat, tax: nat },
    Unknown,
}

impl View for Event {
    type V = EventModel;

    open spec fn view(&self) -> EventModel {
        match self {
            Event::Deposit { user, pid, amount } => EventModel::Deposit {
                user: user@,
                pid: pid@,
                amount: amount@,
            },
            Event::Withdraw { user, pid, amount, tax } => EventModel::Withdraw {
                user: user@,
                pid: pid@,
                amount: amount@,
                tax: tax@,
            },
            Event::Unknown => EventModel::Unknown,
        }
    }
}

/// A log matched a known selector but its shape does not fit that event.
pub struct DecodeError;

/// What decoding yields on a given log under given selectors: the decoded
/// event, or `None` for a malformed log of a known selector.
pub open spec fn decode_model(dep: Seq<u8>, wdr: Seq<u8>, log: LogModel) -> Option<EventModel> {
    if log.topics.len() > 0 && log.topics[0] == dep {
        if log.topics.len() == 3 && log.topics[1].len() == 32 && log.topics[2].len() == 32
            && log.data.len() == 32 {
            Some(
                EventModel::Deposit {
                    user: log.topics[1].skip(12),
                    pid: log.topics[2],
                    amount: be_value(log.data),
                },
            )
        } else {
            None
        }
    } else if log.topics.len() > 0 && log.topics[0] == wdr {
        if log.topics.len() == 3 && log.topics[1].len() == 32 && log.topics[2].len() == 32
            && log.data.len() == 64 {
            Some(
                EventModel::Withdraw {
                    user: log.topics[1].skip(12),
                    pid: log.topics[2],
                    amount: be_value(log.data.take(32)),
                    tax: be_value(log.data.skip(32)),
                },
            )
        } else {
            None
        }
    } else {
        Some(EventModel::Unknown)
    }
}

/// Classifies and decodes one raw log against the selector table.
///
/// A first topic matching no known selector yields `Unknown`, never an
/// error; a known selector with the wrong topic or data shape yields the
/// per-log decode error.
pub fn decode(table: &SelectorTable, log: &RawLog) -> (r: Result<Event, DecodeError>)
    ensures
        match r {
            Ok(ev) => decode_model(table.deposit@, table.withdraw@, log@) == Some(ev@),
            Err(_) => decode_model(table.deposit@, table.withdraw@, log@) is None,
        },
{
    if log.topics.len() > 0 && bytes_eq(&log.topics[0], &table.deposit) {
        if log.topics.len() == 3 && log.topics[1].len() == 32 && log.topics[2].len() == 32
            && log.data.len() == 32 {
            let user = sub_bytes(&log.topics[1], 12, 32);
            let pid = sub_bytes(&log.topics[2], 0, 32);
            let amount = Amount::from_be_bytes(log.data.as_slice());
            proof {
                assert(log@.topics[1].skip(12) =~= log.topics@[1]@.subrange(12, 32));
                assert(log@.topics[2] =~= log.topics@[2]@.subrange(0, 32));
            }
            Ok(Event::Deposit { user, pid, amount })
        } else {
            Err(DecodeError)
        }
    } else if log.topics.len() > 0 && bytes_eq(&log.topics[0], &table.withdraw) {
        if log.topics.len() == 3 && log.topics[1].len() == 32 && log.topics[2].len() == 32
            && log.data.len() == 64 {
            let user = sub_bytes(&log.topics[1], 12, 32);
            let pid = sub_bytes(&log.topics[2], 0, 32);
            let amount_bytes = sub_bytes(&log.data, 0, 32);
            let tax_bytes = sub_bytes(&log.data, 32, 64);
            let amount = Amount::from_be_bytes(amount_bytes.as_slice());
            let tax = Amount::from_be_bytes(tax_bytes.as_slice());
            proof {
                assert(log@.topics[1].skip(12) =~= log.topics@[1]@.subrange(12, 32));
                assert(log@.topics[2] =~= log.topics@[2]@.subrange(0, 32));
                assert(log@.data.take(32) =~= log.data@.subrange(0, 32));
                assert(log@.data.skip(32) =~= log.data@.subrange(32, 64));
            }
            Ok(Event::Withdraw { user, pid, amount, tax })
        } else {
            Err(DecodeError)
        }
    } else {
        Ok(Event::Unknown)
    }
}

} // verus!
