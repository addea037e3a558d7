//! The value-transfer facility: the interface the relay's handlers rely
//! on, and a mock backend that keeps balances in memory, in atomic
//! units, so every debit and credit is exact.
use vstd::prelude::*;

use crate::codec::fresh_id;
use crate::money::{format_xmr, parse_xmr, spec_amount_or_zero, spec_format_xmr};

verus! {

/// Lifecycle of a transfer.
#[derive(Debug, Clone, Copy, PartialEq, Eq, Structural)]
pub enum TxState {
    Pending,
    Confirmed,
    Failed,
}

/// What a backend reports about one transfer.
#[derive(Debug)]
pub struct TxStatus {
    pub tx_id: String,
    pub status: TxState,
    pub confirmations: u32,
}

impl Clone for TxStatus {
    fn clone(&self) -> (res: Self)
        ensures
            res == *self,
    {
        TxStatus { tx_id: self.tx_id.clone(), status: self.status, confirmations: self.confirmations }
    }
}

/// Why a wallet operation failed.
#[derive(Debug, Clone, Copy, PartialEq, Eq, Structural)]
pub enum WalletError {
    InsufficientFunds,
}

impl WalletError {
    /// The error text a backend would report.
    pub fn message(&self) -> (r: &'static str)
        ensures
            r@ == "insufficient funds"@,
    {
        match self {
            WalletError::InsufficientFunds => "insufficient funds",
        }
    }
}

/// The interface of a value-transfer backend: balances and transfers
/// are named by textual decimal amounts and opaque account keys. An
/// implementation names its own consistency condition `inv`, which
/// every operation preserves.
pub trait Wallet {
    spec fn inv(&self) -> bool;

    fn get_balance(&self, pubkey: &str) -> Result<String, WalletError>
        requires
            self.inv(),
    ;

    fn send(&mut self, from_pubkey: &str, to_pubkey: &str, amount_xmr: &str, fee_xmr: &str) -> (r:
        Result<String, WalletError>)
        requires
            old(self).inv(),
        ensures
            final(self).inv(),
    ;

    fn get_tx_status(&self, tx_id: &str) -> Result<TxStatus, WalletError>
        requires
            self.inv(),
    ;
}

/// One account's balance, in atomic units.
#[derive(Debug)]
pub struct BalanceEntry {
    pub pubkey: String,
    pub units: u64,
}

/// An in-memory wallet backend.
#[derive(Debug)]
pub struct MockWallet {
    pub balances: Vec<BalanceEntry>,
    pub txs: Vec<TxStatus>,
}

/// No account appears twice.
pub open spec fn balances_unique(s: Seq<BalanceEntry>) -> bool {
    forall|i: int, j: int|
        0 <= i < s.len() && 0 <= j < s.len() && i != j ==> #[trigger] s[i].pubkey@
            != #[trigger] s[j].pubkey@
}

pub open spec fn spec_has_key(s: Seq<BalanceEntry>, k: Seq<char>) -> bool {
    exists|i: int| 0 <= i < s.len() && #[trigger] s[i].pubkey@ == k
}

/// Balance of account `k`: its entry's units, or zero without one.
pub open spec fn spec_balance(s: Seq<BalanceEntry>, k: Seq<char>) -> int {
    if spec_has_key(s, k) {
        s[choose|i: int| 0 <= i < s.len() && #[trigger] s[i].pubkey@ == k].units as int
    } else {
        0
    }
}

/// With unique keys, the balance of `k` is the units at any index that
/// holds `k`.
pub proof fn lemma_balance_at(s: Seq<BalanceEntry>, k: Seq<char>, i: int)
    requires
        balances_unique(s),
        0 <= i < s.len(),
        s[i].pubkey@ == k,
    ensures
        spec_balance(s, k) == s[i].units as int,
{
    assert(spec_has_key(s, k));
    let j = choose|j: int| 0 <= j < s.len() && #[trigger] s[j].pubkey@ == k;
    if i != j {
        assert(s[i].pubkey@ != s[j].pubkey@);
    }
}

/// First transfer record carrying `k`, scanning from the oldest.
pub open spec fn tx_lookup(s: Seq<TxStatus>, k: Seq<char>) -> Option<TxStatus>
    decreases s.len(),
{
    if s.len() == 0 {
        None
    } else if s[0].tx_id@ == k {
        Some(s[0])
    } else {
        tx_lookup(s.skip(1), k)
    }
}

impl MockWallet {
    /// Whether this wallet's bookkeeping is consistent.
    pub open spec fn wf(&self) -> bool {
        balances_unique(self.balances@)
    }

    pub fn new() -> (r: MockWallet)
        ensures
            r.wf(),
            r.balances@.len() == 0,
            r.txs@.len() == 0,
    {
        MockWallet { balances: Vec::new(), txs: Vec::new() }
    }

    fn find_entry(&self, pubkey: &str) -> (r: Option<usize>)
        ensures
            match r {
                Some(i) => i < self.balances@.len() && self.balances@[i as int].pubkey@ == pubkey@,
                None => !spec_has_key(self.balances@, pubkey@),
            },
    {
        let mut i: usize = 0;
        let n = self.balances.len();
        while i < n
            invariant
                i <= n,
                n == self.balances@.len(),
                forall|j: int| 0 <= j < i ==> #[trigger] self.balances@[j].pubkey@ != pubkey@,
            decreases n - i,
        {
            if crate::text::str_eq(self.balances[i].pubkey.as_str(), pubkey) {
                return Some(i);
            }
            i = i + 1;
        }
        None
    }

    /// Set one account's balance, leaving every other account alone.
    fn set_balance(&mut self, pubkey: &str, units: u64)
        requires
            old(self).wf(),
        ensures
            final(self).wf(),
            spec_balance(final(self).balances@, pubkey@) == units as int,
            forall|k: Seq<char>|
                k != pubkey@ ==> #[trigger] spec_balance(final(self).balances@, k) == spec_balance(
                    old(self).balances@,
                    k,
                ),
            final(self).txs@ == old(self).txs@,
    {
        let ghost olds = self.balances@;
        match self.find_entry(pubkey) {
            Some(i) => {
                let entry = BalanceEntry { pubkey: String::from_str(pubkey), units };
                self.balances.set(i, entry);
                proof {
                    let news = self.balances@;
                    assert(balances_unique(news)) by {
                        assert(forall|a: int|
                            0 <= a < news.len() ==> news[a].pubkey@ == olds[a].pubkey@);
                    }
                    lemma_balance_at(news, pubkey@, i as int);
                    assert forall|k: Seq<char>| k != pubkey@ implies #[trigger] spec_balance(
                        news,
                        k,
                    ) == spec_balance(olds, k) by {
                        assert(forall|a: int|
                            0 <= a < news.len() ==> news[a].pubkey@ == olds[a].pubkey@);
                        if spec_has_key(olds, k) {
                            let a = choose|a: int|
                                0 <= a < olds.len() && #[trigger] olds[a].pubkey@ == k;
                            assert(news[a].pubkey@ == k);
                            lemma_balance_at(news, k, a);
                            lemma_balance_at(olds, k, a);
                            assert(a != i as int);
                        } else {
                            assert(!spec_has_key(news, k)) by {
                                if spec_has_key(news, k) {
                                    let a = choose|a: int|
                                        0 <= a < news.len() && #[trigger] news[a].pubkey@ == k;
                                    assert(olds[a].pubkey@ == k || a == i as int);
                                }
                            }
                        }
                    }
                }
            },
            None => {
                let entry = BalanceEntry { pubkey: String::from_str(pubkey), units };
                self.balances.push(entry);
                proof {
                    let news = self.balances@;
                    let n = olds.len() as int;
                    assert(news =~= olds.push(BalanceEntry { pubkey: news[n].pubkey, units }));
                    assert(balances_unique(news)) by {
                        assert(forall|a: int| 0 <= a < n ==> news[a] == olds[a]);
                        assert(news[n].pubkey@ == pubkey@);
                        assert(forall|a: int| 0 <= a < n ==> #[trigger] olds[a].pubkey@ != pubkey@);
                    }
                    lemma_balance_at(news, pubkey@, n);
                    assert forall|k: Seq<char>| k != pubkey@ implies #[trigger] spec_balance(
                        news,
                        k,
                    ) == spec_balance(olds, k) by {
                        assert(forall|a: int| 0 <= a < n ==> news[a] == olds[a]);
                        if spec_has_key(olds, k) {
                            let a = choose|a: int|
                                0 <= a < olds.len() && #[trigger] olds[a].pubkey@ == k;
                            assert(news[a].pubkey@ == k);
                            lemma_balance_at(news, k, a);
                            lemma_balance_at(olds, k, a);
                        } else {
                            assert(!spec_has_key(news, k)) by {
                                if spec_has_key(news, k) {
                                    let a = choose|a: int|
                                        0 <= a < news.len() && #[trigger] news[a].pubkey@ == k;
                                    assert(a == n || olds[a].pubkey@ == k);
                                }
                            }
                        }
                    }
                }
            },
        }
    }

    /// Add `amount_units` to an account, clamping at the unit range.
    pub fn credit(&mut self, pubkey: &str, amount_units: u64)
        requires
            old(self).wf(),
        ensures
            final(self).wf(),
            spec_balance(final(self).balances@, pubkey@) == if spec_balance(
                old(self).balances@,
                pubkey@,
            ) + amount_units <= u64::MAX as int {
                spec_balance(old(self).balances@, pubkey@) + amount_units
            } else {
                u64::MAX as int
            },
            forall|k: Seq<char>|
                k != pubkey@ ==> #[trigger] spec_balance(final(self).balances@, k) == spec_balance(
                    old(self).balances@,
                    k,
                ),
            final(self).txs@ == old(self).txs@,
    {
        let current: u64 = match self.find_entry(pubkey) {
            Some(i) => {
                proof {
                    lemma_balance_at(self.balances@, pubkey@, i as int);
                }
                self.balances[i].units
            },
            None => 0,
        };
        let updated: u64 = match current.checked_add(amount_units) {
            Some(v) => v,
            None => u64::MAX,
        };
        self.set_balance(pubkey, updated);
    }

    /// The account's balance as wire text; the mock never fails here.
    pub fn get_balance(&self, pubkey: &str) -> (r: Result<String, WalletError>)
        requires
            self.wf(),
        ensures
            r matches Ok(t) && t@ == spec_format_xmr(spec_balance(self.balances@, pubkey@)),
    {
        let units: u64 = match self.find_entry(pubkey) {
            Some(i) => {
                proof {
                    lemma_balance_at(self.balances@, pubkey@, i as int);
                }
                self.balances[i].units
            },
            None => 0,
        };
        Ok(format_xmr(units))
    }

    /// Move `amount + fee` out of `from` and `amount` into `to`; fails,
    /// changing nothing, when `from` holds less than the total.
    /// Unreadable amount texts count as zero, as a float parse with a
    /// zero default would have it.
    pub fn send(&mut self, from_pubkey: &str, to_pubkey: &str, amount_xmr: &str, fee_xmr: &str)
        -> (r: Result<String, WalletError>)
        requires
            old(self).wf(),
        ensures
            final(self).wf(),
            ({
                let amt = spec_amount_or_zero(amount_xmr@);
                let fee = spec_amount_or_zero(fee_xmr@);
                let fb = spec_balance(old(self).balances@, from_pubkey@);
                if fb < amt + fee {
                    &&& r matches Err(e) && e == WalletError::InsufficientFunds
                    &&& final(self).balances@ == old(self).balances@
                    &&& final(self).txs@ == old(self).txs@
                } else {
                    &&& r is Ok
                    &&& (if from_pubkey@ == to_pubkey@ {
                        spec_balance(final(self).balances@, from_pubkey@) == fb - fee
                    } else {
                        &&& spec_balance(final(self).balances@, from_pubkey@) == fb - amt - fee
                        &&& spec_balance(final(self).balances@, to_pubkey@) == (
                        if spec_balance(old(self).balances@, to_pubkey@) + amt <= u64::MAX as int {
                            spec_balance(old(self).balances@, to_pubkey@) + amt
                        } else {
                            u64::MAX as int
                        })
                    })
                    &&& forall|k: Seq<char>|
                        k != from_pubkey@ && k != to_pubkey@ ==> #[trigger] spec_balance(
                            final(self).balances@,
                            k,
                        ) == spec_balance(old(self).balances@, k)
                    &&& final(self).txs@.len() == old(self).txs@.len() + 1
                    &&& final(self).txs@.subrange(0, old(self).txs@.len() as int) == old(
                        self,
                    ).txs@
                    &&& final(self).txs@.last().status == TxState::Pending
                    &&& final(self).txs@.last().confirmations == 0
                    &&& (r matches Ok(tx_id) && final(self).txs@.last().tx_id@ == tx_id@)
                }
            }),
    {
        let amt: u64 = match parse_xmr(amount_xmr) {
            Some(v) => v,
            None => 0,
        };
        let fee: u64 = match parse_xmr(fee_xmr) {
            Some(v) => v,
            None => 0,
        };
        let from_balance: u64 = match self.find_entry(from_pubkey) {
            Some(i) => {
                proof {
                    lemma_balance_at(self.balances@, from_pubkey@, i as int);
                }
                self.balances[i].units
            },
            None => 0,
        };
        let total: u64 = match amt.checked_add(fee) {
            Some(v) => v,
            None => {
                return Err(WalletError::InsufficientFunds);
            },
        };
        if from_balance < total {
            return Err(WalletError::InsufficientFunds);
        }
        self.set_balance(from_pubkey, from_balance - total);
        let to_balance: u64 = match self.find_entry(to_pubkey) {
            Some(i) => {
                proof {
                    lemma_balance_at(self.balances@, to_pubkey@, i as int);
                }
                self.balances[i].units
            },
            None => 0,
        };
        proof {
            assert(spec_balance(self.balances@, to_pubkey@) == to_balance as int);
            if from_pubkey@ != to_pubkey@ {
                assert(spec_balance(self.balances@, to_pubkey@) == spec_balance(
                    old(self).balances@,
                    to_pubkey@,
                ));
            }
        }
        let updated: u64 = match to_balance.checked_add(amt) {
            Some(v) => v,
            None => u64::MAX,
        };
        self.set_balance(to_pubkey, updated);
        let tx_id = fresh_id();
        let record = TxStatus { tx_id: tx_id.clone(), status: TxState::Pending, confirmations: 0 };
        let ghost txs_before = self.txs@;
        self.txs.push(record);
        proof {
            assert(self.txs@.subrange(0, txs_before.len() as int) =~= txs_before);
            let amt_s = spec_amount_or_zero(amount_xmr@);
            let fee_s = spec_amount_or_zero(fee_xmr@);
            let fb = spec_balance(old(self).balances@, from_pubkey@);
            assert(amt as int == amt_s);
            assert(fee as int == fee_s);
            assert(fb == from_balance as int);
            assert(fb >= amt_s + fee_s);
            if from_pubkey@ == to_pubkey@ {
                assert(spec_balance(self.balances@, from_pubkey@) == fb - fee_s);
            } else {
                assert(spec_balance(self.balances@, from_pubkey@) == fb - amt_s - fee_s);
                assert(spec_balance(self.balances@, to_pubkey@) == (if spec_balance(
                    old(self).balances@,
                    to_pubkey@,
                ) + amt_s <= u64::MAX as int {
                    spec_balance(old(self).balances@, to_pubkey@) + amt_s
                } else {
                    u64::MAX as int
                }));
            }
            assert(self.txs@.last().status == TxState::Pending);
            assert(self.txs@.last().tx_id@ == tx_id@);
        }
        Ok(tx_id)
    }

    /// What is known of a transfer: its record, or a failed stand-in
    /// for an unknown id.
    pub fn get_tx_status(&self, tx_id: &str) -> (r: Result<TxStatus, WalletError>)
        ensures
            match tx_lookup(self.txs@, tx_id@) {
                Some(t0) => r matches Ok(t) && t == t0,
                None => r matches Ok(t) && t.tx_id@ == tx_id@ && t.status == TxState::Failed
                    && t.confirmations == 0,
            },
    {
        let n = self.txs.len();
        let mut i: usize = 0;
        proof {
            assert(self.txs@.skip(0) =~= self.txs@);
        }
        while i < n
            invariant
                i <= n,
                n == self.txs@.len(),
                tx_lookup(self.txs@, tx_id@) == tx_lookup(self.txs@.skip(i as int), tx_id@),
            decreases n - i,
        {
            proof {
                assert(self.txs@.skip(i as int)[0] == self.txs@[i as int]);
            }
            if crate::text::str_eq(self.txs[i].tx_id.as_str(), tx_id) {
                return Ok(self.txs[i].clone());
            }
            proof {
                assert(self.txs@.skip(i as int).skip(1) =~= self.txs@.skip(i + 1));
            }
            i = i + 1;
        }
        proof {
            assert(self.txs@.skip(n as int).len() == 0);
        }
        Ok(TxStatus { tx_id: tx_id.to_owned(), status: TxState::Failed, confirmations: 0 })
    }
}

impl Wallet for MockWallet {
    open spec fn inv(&self) -> bool {
        self.wf()
    }

    fn get_balance(&self, pubkey: &str) -> Result<String, WalletError> {
        MockWallet::get_balance(self, pubkey)
    }

    fn send(&mut self, from_pubkey: &str, to_pubkey: &str, amount_xmr: &str, fee_xmr: &str)
        -> Result<String, WalletError> {
        MockWallet::send(self, from_pubkey, to_pubkey, amount_xmr, fee_xmr)
    }

    fn get_tx_status(&self, tx_id: &str) -> Result<TxStatus, WalletError> {
        MockWallet::get_tx_status(self, tx_id)
    }
}

} // verus!
