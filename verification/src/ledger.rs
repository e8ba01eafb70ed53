//! The balance ledger: one entry per wallet ever observed, with additive
//! upsert semantics. The view is the map from wallet bytes to balance value.
//!
//! Applying a delta is deliberately not idempotent: applying the same delta
//! twice changes the balance twice, exactly as the persisted additive upsert
//! does.

use crate::bytes::bytes_eq;
use crate::num::Balance;
use vstd::prelude::*;

verus! {

/// One ledger row: a wallet and its running balance.
pub struct LedgerEntry {
    pub wallet_address: Vec<u8>,
    pub balance: Balance,
}

/// The map a sequence of ledger rows denotes; a later row for the same
/// wallet would override, but well-formed ledgers hold each wallet once.
pub open spec fn entries_map(s: Seq<LedgerEntry>) -> Map<Seq<u8>, int>
    decreases s.len(),
{
    if s.len() == 0 {
        Map::empty()
    } else {
        entries_map(s.drop_last()).insert(s.last().wallet_address@, s.last().balance@)
    }
}

/// The balance a map holds for a wallet, or zero for a wallet never seen.
pub open spec fn balance_or_zero(m: Map<Seq<u8>, int>, w: Seq<u8>) -> int {
    if m.dom().contains(w) {
        m[w]
    } else {
        0
    }
}

/// The per-wallet balance ledger.
pub struct Ledger {
    entries: Vec<LedgerEntry>,
}

impl View for Ledger {
    type V = Map<Seq<u8>, int>;

    closed spec fn view(&self) -> Map<Seq<u8>, int> {
        entries_map(self.entries@)
    }
}

/// No two rows name the same wallet.
pub open spec fn unique_wallets(s: Seq<LedgerEntry>) -> bool {
    forall|i: int, j: int|
        0 <= i < j < s.len() ==> s[i].wallet_address@ != s[j].wallet_address@
}

proof fn lemma_entries_map_index(s: Seq<LedgerEntry>, i: int)
    requires
        unique_wallets(s),
        0 <= i < s.len(),
    ensures
        entries_map(s).dom().contains(s[i].wallet_address@),
        entries_map(s)[s[i].wallet_address@] == s[i].balance@,
    decreases s.len(),
{
    let dl = s.drop_last();
    if i == s.len() - 1 {
    } else {
        assert(unique_wallets(dl));
        lemma_entries_map_index(dl, i);
        assert(s[i].wallet_address@ != s.last().wallet_address@);
    }
}

proof fn lemma_entries_map_absent(s: Seq<LedgerEntry>, w: Seq<u8>)
    requires
        forall|i: int| 0 <= i < s.len() ==> s[i].wallet_address@ != w,
    ensures
        !entries_map(s).dom().contains(w),
    decreases s.len(),
{
    if s.len() > 0 {
        let dl = s.drop_last();
        assert(forall|i: int| 0 <= i < dl.len() ==> dl[i].wallet_address@ != w);
        lemma_entries_map_absent(dl, w);
    }
}

proof fn lemma_entries_map_update(s: Seq<LedgerEntry>, i: int, e: LedgerEntry)
    requires
        unique_wallets(s),
        0 <= i < s.len(),
        e.wallet_address@ == s[i].wallet_address@,
    ensures
        entries_map(s.update(i, e)) =~= entries_map(s).insert(e.wallet_address@, e.balance@),
    decreases s.len(),
{
    let dl = s.drop_last();
    if i == s.len() - 1 {
        assert(s.update(i, e).drop_last() =~= dl);
        assert(s.update(i, e).last() == e);
    } else {
        assert(unique_wallets(dl));
        lemma_entries_map_update(dl, i, e);
        assert(s.update(i, e).drop_last() =~= dl.update(i, e));
        assert(s.update(i, e).last() == s.last());
        assert(s[i].wallet_address@ != s.last().wallet_address@);
    }
}

impl Ledger {
    /// Whether each wallet holds exactly one row.
    pub closed spec fn wf(&self) -> bool {
        unique_wallets(self.entries@)
    }

    /// An empty ledger: no wallet has ever been observed.
    pub fn new() -> (r: Ledger)
        ensures
            r.wf(),
            r@ == Map::<Seq<u8>, int>::empty(),
    {
        Ledger { entries: Vec::new() }
    }

    /// The balance for a wallet, or `None` for a wallet with no row.
    pub fn balance_of(&self, wallet: &Vec<u8>) -> (r: Option<Balance>)
        requires
            self.wf(),
        ensures
            match r {
                Some(b) => self@.dom().contains(wallet@) && b@ == self@[wallet@],
                None => !self@.dom().contains(wallet@),
            },
    {
        let n = self.entries.len();
        let mut i: usize = 0;
        while i < n
            invariant
                i <= n,
                n == self.entries@.len(),
                self.wf(),
                forall|k: int| 0 <= k < i ==> self.entries@[k].wallet_address@ != wallet@,
            decreases n - i,
        {
            if bytes_eq(&self.entries[i].wallet_address, wallet) {
                proof {
                    lemma_entries_map_index(self.entries@, i as int);
                }
                return Some(self.entries[i].balance.duplicate());
            }
            i = i + 1;
        }
        proof {
            lemma_entries_map_absent(self.entries@, wallet@);
        }
        None
    }

    /// The additive upsert: a first delta creates the row with that balance,
    /// a later delta is added onto it. Not idempotent by design.
    pub fn apply_delta(&mut self, wallet: Vec<u8>, delta: &Balance)
        requires
            old(self).wf(),
        ensures
            final(self).wf(),
            final(self)@ == old(self)@.insert(
                wallet@,
                balance_or_zero(old(self)@, wallet@) + delta@,
            ),
    {
        let n = self.entries.len();
        let mut i: usize = 0;
        while i < n
            invariant
                i <= n,
                *self == *old(self),
                n == self.entries@.len(),
                self.wf(),
                forall|k: int| 0 <= k < i ==> self.entries@[k].wallet_address@ != wallet@,
            decreases n - i,
        {
            if bytes_eq(&self.entries[i].wallet_address, &wallet) {
                proof {
                    lemma_entries_map_index(self.entries@, i as int);
                }
                let ghost s0 = self.entries@;
                let updated = self.entries[i].balance.add(delta);
                let entry = LedgerEntry { wallet_address: wallet, balance: updated };
                proof {
                    lemma_entries_map_update(s0, i as int, entry);
                }
                self.entries[i] = entry;
                proof {
                    assert(self@ =~= old(self)@.insert(
                        wallet@,
                        balance_or_zero(old(self)@, wallet@) + delta@,
                    ));
                }
                return ;
            }
            i = i + 1;
        }
        proof {
            lemma_entries_map_absent(self.entries@, wallet@);
        }
        let entry = LedgerEntry { wallet_address: wallet, balance: delta.duplicate() };
        proof {
            let s = self.entries@;
            assert(s.push(entry).drop_last() =~= s);
            assert(forall|k: int|
                0 <= k < s.len() ==> s[k].wallet_address@ != entry.wallet_address@);
        }
        self.entries.push(entry);
        proof {
            assert(self@ =~= old(self)@.insert(
                wallet@,
                balance_or_zero(old(self)@, wallet@) + delta@,
            ));
        }
    }
}

} // verus!
