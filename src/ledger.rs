//! The ledger as a mathematical state machine.
//!
//! A `LedgerView` holds the four parts of the ledger state: the accounts in
//! first-touch order, the index from account id to position, the history of
//! accepted transactions in processing order, and the index from transaction
//! id to position in the history. `step` says what applying one transaction
//! does to such a state.
use vstd::prelude::*;

use crate::account::AccountModel;
use crate::transaction::{PureTxn, RefTxn, Transaction};

verus! {

/// Business-rule errors raised when a transaction cannot be applied.
#[derive(Debug, Clone, Copy, PartialEq, Eq, Structural)]
pub enum TxnErrors {
    AccountDoesNotExist,
    AccountFrozen,
    AccountLacksFunds,
    TxnAlreadyDisputed,
    TxnIdAlreadyExists,
    TxnIdDoesNotExist,
    TxnMustBeDisputed,
}

/// Abstract ledger state.
pub struct LedgerView {
    pub accounts: Seq<AccountModel>,
    pub acnt_index: Map<u16, int>,
    pub history: Seq<Transaction>,
    pub txn_index: Map<u32, int>,
}

/// Result of applying one transaction: the next state and the outcome.
pub type Outcome = (LedgerView, Result<(), TxnErrors>);

impl LedgerView {
    /// The state before any transaction was applied.
    pub open spec fn empty() -> LedgerView {
        LedgerView {
            accounts: Seq::empty(),
            acnt_index: Map::empty(),
            history: Seq::empty(),
            txn_index: Map::empty(),
        }
    }

    /// The account index and the transaction index agree with the
    /// collections they point into.
    pub open spec fn wf(self) -> bool {
        &&& forall|id: u16| #[trigger]
            self.acnt_index.contains_key(id) ==> 0 <= self.acnt_index[id] < self.accounts.len()
                && self.accounts[self.acnt_index[id]].id == id
        &&& forall|i: int|
            0 <= i < self.accounts.len() ==> self.acnt_index.contains_key(
                #[trigger] self.accounts[i].id,
            ) && self.acnt_index[self.accounts[i].id] == i
        &&& forall|id: u32| #[trigger]
            self.txn_index.contains_key(id) ==> 0 <= self.txn_index[id] < self.history.len()
                && self.history[self.txn_index[id]].is_pure()
                && self.history[self.txn_index[id]].pure_payload().txn_id == id
        &&& forall|j: int|
            0 <= j < self.history.len() && (#[trigger] self.history[j]).is_pure()
                ==> self.txn_index.contains_key(self.history[j].pure_payload().txn_id)
                && self.txn_index[self.history[j].pure_payload().txn_id] == j
    }

    /// The account with the given id; meaningful when the id is indexed.
    pub open spec fn account_of(self, id: u16) -> AccountModel {
        self.accounts[self.acnt_index[id]]
    }

    /// The deposit or withdrawal with the given id; meaningful when the id
    /// is indexed.
    pub open spec fn pure_txn_of(self, id: u32) -> PureTxn {
        self.history[self.txn_index[id]].pure_payload()
    }
}

/// The same deposit or withdrawal with its disputed flag set to `flag`.
pub open spec fn with_disputed(t: Transaction, flag: bool) -> Transaction {
    match t {
        Transaction::Deposit(p) => Transaction::Deposit(PureTxn { disputed: flag, ..p }),
        Transaction::Withdrawal(p) => Transaction::Withdrawal(PureTxn { disputed: flag, ..p }),
        _ => t,
    }
}

/// Applies a deposit.
pub open spec fn deposit_step(s: LedgerView, p: PureTxn) -> Outcome {
    if s.txn_index.contains_key(p.txn_id) {
        (s, Err(TxnErrors::TxnIdAlreadyExists))
    } else if s.acnt_index.contains_key(p.acnt_id) {
        let i = s.acnt_index[p.acnt_id];
        let a = s.accounts[i];
        if a.frozen {
            (s, Err(TxnErrors::AccountFrozen))
        } else {
            (
                LedgerView {
                    accounts: s.accounts.update(
                        i,
                        AccountModel { available: a.available + p.amount, ..a },
                    ),
                    history: s.history.push(Transaction::Deposit(p)),
                    txn_index: s.txn_index.insert(p.txn_id, s.history.len() as int),
                    ..s
                },
                Ok(()),
            )
        }
    } else {
        (
            LedgerView {
                accounts: s.accounts.push(
                    AccountModel { id: p.acnt_id, available: p.amount as int, held: 0, frozen: false },
                ),
                acnt_index: s.acnt_index.insert(p.acnt_id, s.accounts.len() as int),
                history: s.history.push(Transaction::Deposit(p)),
                txn_index: s.txn_index.insert(p.txn_id, s.history.len() as int),
            },
            Ok(()),
        )
    }
}

/// Applies a withdrawal. Lack of funds is checked before the frozen flag.
pub open spec fn withdrawal_step(s: LedgerView, p: PureTxn) -> Outcome {
    if s.txn_index.contains_key(p.txn_id) {
        (s, Err(TxnErrors::TxnIdAlreadyExists))
    } else if !s.acnt_index.contains_key(p.acnt_id) {
        (s, Err(TxnErrors::AccountDoesNotExist))
    } else {
        let i = s.acnt_index[p.acnt_id];
        let a = s.accounts[i];
        if a.available < p.amount {
            (s, Err(TxnErrors::AccountLacksFunds))
        } else if a.frozen {
            (s, Err(TxnErrors::AccountFrozen))
        } else {
            (
                LedgerView {
                    accounts: s.accounts.update(
                        i,
                        AccountModel { available: a.available - p.amount, ..a },
                    ),
                    history: s.history.push(Transaction::Withdrawal(p)),
                    txn_index: s.txn_index.insert(p.txn_id, s.history.len() as int),
                    ..s
                },
                Ok(()),
            )
        }
    }
}

/// The lookup shared by disputes, resolves and chargebacks: the position of
/// the account and of the referenced transaction, or the first check that
/// fails.
pub open spec fn ref_lookup(s: LedgerView, r: RefTxn) -> Result<(int, int), TxnErrors> {
    if !s.acnt_index.contains_key(r.acnt_id) {
        Err(TxnErrors::AccountDoesNotExist)
    } else if s.account_of(r.acnt_id).frozen {
        Err(TxnErrors::AccountFrozen)
    } else if !s.txn_index.contains_key(r.ref_id) {
        Err(TxnErrors::TxnIdDoesNotExist)
    } else {
        Ok((s.acnt_index[r.acnt_id], s.txn_index[r.ref_id]))
    }
}

/// Applies a dispute: the referenced amount moves from available to held.
pub open spec fn dispute_step(s: LedgerView, r: RefTxn) -> Outcome {
    match ref_lookup(s, r) {
        Err(e) => (s, Err(e)),
        Ok((i, j)) => {
            let p = s.history[j].pure_payload();
            let a = s.accounts[i];
            if p.disputed {
                (s, Err(TxnErrors::TxnAlreadyDisputed))
            } else {
                (
                    LedgerView {
                        accounts: s.accounts.update(
                            i,
                            AccountModel {
                                available: a.available - p.amount,
                                held: a.held + p.amount,
                                ..a
                            },
                        ),
                        history: s.history.update(j, with_disputed(s.history[j], true)).push(
                            Transaction::Dispute(r),
                        ),
                        ..s
                    },
                    Ok(()),
                )
            }
        },
    }
}

/// Applies a resolve: the referenced amount moves from held back to available.
pub open spec fn resolve_step(s: LedgerView, r: RefTxn) -> Outcome {
    match ref_lookup(s, r) {
        Err(e) => (s, Err(e)),
        Ok((i, j)) => {
            let p = s.history[j].pure_payload();
            let a = s.accounts[i];
            if !p.disputed {
                (s, Err(TxnErrors::TxnMustBeDisputed))
            } else {
                (
                    LedgerView {
                        accounts: s.accounts.update(
                            i,
                            AccountModel {
                                available: a.available + p.amount,
                                held: a.held - p.amount,
                                ..a
                            },
                        ),
                        history: s.history.update(j, with_disputed(s.history[j], false)).push(
                            Transaction::Resolve(r),
                        ),
                        ..s
                    },
                    Ok(()),
                )
            }
        },
    }
}

/// Applies a chargeback: the referenced amount leaves held and the account
/// is frozen; available is left as it is.
pub open spec fn chargeback_step(s: LedgerView, r: RefTxn) -> Outcome {
    match ref_lookup(s, r) {
        Err(e) => (s, Err(e)),
        Ok((i, j)) => {
            let p = s.history[j].pure_payload();
            let a = s.accounts[i];
            if !p.disputed {
                (s, Err(TxnErrors::TxnMustBeDisputed))
            } else {
                (
                    LedgerView {
                        accounts: s.accounts.update(
                            i,
                            AccountModel { held: a.held - p.amount, frozen: true, ..a },
                        ),
                        history: s.history.update(j, with_disputed(s.history[j], false)).push(
                            Transaction::Chargeback(r),
                        ),
                        ..s
                    },
                    Ok(()),
                )
            }
        },
    }
}

/// Applies one transaction of any kind.
pub open spec fn step(s: LedgerView, t: Transaction) -> Outcome {
    match t {
        Transaction::Deposit(p) => deposit_step(s, p),
        Transaction::Withdrawal(p) => withdrawal_step(s, p),
        Transaction::Dispute(r) => dispute_step(s, r),
        Transaction::Resolve(r) => resolve_step(s, r),
        Transaction::Chargeback(r) => chargeback_step(s, r),
    }
}

/// Applies the transactions in order, skipping the rejected ones.
pub open spec fn run(s: LedgerView, txns: Seq<Transaction>) -> LedgerView
    decreases txns.len(),
{
    if txns.len() == 0 {
        s
    } else {
        step(run(s, txns.drop_last()), txns.last()).0
    }
}

/// Every step keeps the indices consistent.
pub proof fn lemma_step_wf(s: LedgerView, t: Transaction)
    requires
        s.wf(),
    ensures
        step(s, t).0.wf(),
{
    let n = step(s, t).0;
    match t {
        Transaction::Deposit(p) => {
            if !s.txn_index.contains_key(p.txn_id) && !s.acnt_index.contains_key(p.acnt_id) {
                assert forall|i: int| 0 <= i < n.accounts.len() implies n.acnt_index.contains_key(
                    #[trigger] n.accounts[i].id,
                ) && n.acnt_index[n.accounts[i].id] == i by {
                    if i < s.accounts.len() {
                        assert(s.acnt_index.contains_key(s.accounts[i].id));
                    }
                }
            }
        },
        Transaction::Withdrawal(p) => {},
        Transaction::Dispute(r) => {},
        Transaction::Resolve(r) => {},
        Transaction::Chargeback(r) => {},
    }
}

/// `run` keeps the indices consistent.
pub proof fn lemma_run_wf(s: LedgerView, txns: Seq<Transaction>)
    requires
        s.wf(),
    ensures
        run(s, txns).wf(),
    decreases txns.len(),
{
    if txns.len() > 0 {
        lemma_run_wf(s, txns.drop_last());
        lemma_step_wf(run(s, txns.drop_last()), txns.last());
    }
}

} // verus!
