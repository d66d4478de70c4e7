//! The ledger engine: accounts and transaction history with their indices,
//! and the handlers that apply transactions to them.
use std::collections::HashMap;
use vstd::prelude::*;

use crate::account::{Account, AccountModel};
use crate::ledger::{
    chargeback_step, deposit_step, dispute_step, lemma_step_wf, ref_lookup, resolve_step, run,
    step, withdrawal_step, LedgerView, TxnErrors,
};
use crate::transaction::{PureTxn, RefTxn, Transaction};

verus! {

broadcast use vstd::std_specs::hash::group_hash_axioms;

/// Largest magnitude of an `i64` amount.
pub const AMOUNT_BOUND: i128 = 0x8000_0000_0000_0000;

/// Every balance and every total is at most `AMOUNT_BOUND` times the number
/// of accepted transactions in magnitude: each accepted transaction moves
/// at most one amount in or out of each balance. With at most `usize::MAX`
/// history entries this keeps all balances inside `i128`.
pub open spec fn balances_bounded(s: LedgerView) -> bool {
    forall|i: int|
        0 <= i < s.accounts.len() ==> {
            let a = #[trigger] s.accounts[i];
            let b = AMOUNT_BOUND * s.history.len();
            &&& -b <= a.available <= b
            &&& -b <= a.held <= b
            &&& -b <= a.total() <= b
        }
}

/// Processes transactions against a set of client accounts.
#[derive(Debug)]
pub struct PaymentsEngine {
    /// Accounts in order of their creation.
    accounts: Vec<Account>,
    /// Account id to position in `accounts`.
    acnt_map: HashMap<u16, usize>,
    /// Accepted transactions in processing order.
    processed_txns: Vec<Transaction>,
    /// Deposit or withdrawal id to position in `processed_txns`.
    txn_map: HashMap<u32, usize>,
}

impl View for PaymentsEngine {
    type V = LedgerView;

    closed spec fn view(&self) -> LedgerView {
        LedgerView {
            accounts: self.accounts@.map_values(|a: Account| a@),
            acnt_index: self.acnt_map@.map_values(|i: usize| i as int),
            history: self.processed_txns@,
            txn_index: self.txn_map@.map_values(|i: usize| i as int),
        }
    }
}

impl PaymentsEngine {
    /// The engine's invariant: consistent indices and bounded balances.
    pub open spec fn inv(&self) -> bool {
        self@.wf() && balances_bounded(self@)
    }

    /// An engine with no accounts and no history.
    pub fn new() -> (r: Self)
        ensures
            r.inv(),
            r@ == LedgerView::empty(),
    {
        let r = PaymentsEngine {
            accounts: Vec::new(),
            acnt_map: HashMap::new(),
            processed_txns: Vec::new(),
            txn_map: HashMap::new(),
        };
        assert(r@.accounts =~= Seq::empty());
        assert(r@.acnt_index =~= Map::empty());
        assert(r@.txn_index =~= Map::empty());
        r
    }

    /// Appends an accepted deposit or withdrawal to the history and indexes
    /// it by its id.
    fn record_pure(&mut self, t: Transaction)
        requires
            t.is_pure(),
            !old(self)@.txn_index.contains_key(t.pure_payload().txn_id),
        ensures
            final(self)@ == (LedgerView {
                history: old(self)@.history.push(t),
                txn_index: old(self)@.txn_index.insert(
                    t.pure_payload().txn_id,
                    old(self)@.history.len() as int,
                ),
                ..old(self)@
            }),
            final(self).processed_txns@.len() <= usize::MAX,
    {
        let id = match t {
            Transaction::Deposit(p) => p.txn_id,
            Transaction::Withdrawal(p) => p.txn_id,
            _ => 0,
        };
        let pos = self.processed_txns.len();
        self.processed_txns.push(t);
        // The new length is a `usize`: the bound that keeps balances in range.
        let _ = self.processed_txns.len();
        self.txn_map.insert(id, pos);
        assert(self@.txn_index =~= old(self)@.txn_index.insert(id, pos as int));
        assert(self@.accounts =~= old(self)@.accounts);
        assert(self@.acnt_index =~= old(self)@.acnt_index);
    }

    /// Applies a deposit if it is valid, else returns the reason it is not.
    pub fn process_deposit(&mut self, p_txn: &PureTxn) -> (r: Result<(), TxnErrors>)
        requires
            old(self).inv(),
        ensures
            final(self).inv(),
            final(self)@ == deposit_step(old(self)@, *p_txn).0,
            r == deposit_step(old(self)@, *p_txn).1,
    {
        proof {
            lemma_step_wf(self@, Transaction::Deposit(*p_txn));
        }
        if self.txn_map.get(&p_txn.txn_id).is_some() {
            return Err(TxnErrors::TxnIdAlreadyExists);
        }
        let ghost s = self@;
        match self.acnt_map.get(&p_txn.acnt_id) {
            Some(acnt_indx) => {
                let acnt_indx = *acnt_indx;
                let mut acnt = self.accounts[acnt_indx];
                if acnt.frozen {
                    return Err(TxnErrors::AccountFrozen);
                }
                self.record_pure(Transaction::Deposit(*p_txn));
                acnt.available = acnt.available + p_txn.amount as i128;
                self.accounts.set(acnt_indx, acnt);
                assert(self@.accounts =~= deposit_step(s, *p_txn).0.accounts);
            },
            None => {
                let new_account = Account {
                    id: p_txn.acnt_id,
                    available: p_txn.amount as i128,
                    held: 0,
                    frozen: false,
                };
                self.acnt_map.insert(new_account.id, self.accounts.len());
                self.accounts.push(new_account);
                self.record_pure(Transaction::Deposit(*p_txn));
                assert(self@.accounts =~= deposit_step(s, *p_txn).0.accounts);
                assert(self@.acnt_index =~= deposit_step(s, *p_txn).0.acnt_index);
            },
        }
        Ok(())
    }

    /// Applies a withdrawal if it is valid, else returns the reason it is not.
    pub fn process_withdrawl(&mut self, p_txn: &PureTxn) -> (r: Result<(), TxnErrors>)
        requires
            old(self).inv(),
        ensures
            final(self).inv(),
            final(self)@ == withdrawal_step(old(self)@, *p_txn).0,
            r == withdrawal_step(old(self)@, *p_txn).1,
    {
        proof {
            lemma_step_wf(self@, Transaction::Withdrawal(*p_txn));
        }
        if self.txn_map.get(&p_txn.txn_id).is_some() {
            return Err(TxnErrors::TxnIdAlreadyExists);
        }
        let ghost s = self@;
        match self.acnt_map.get(&p_txn.acnt_id) {
            Some(ii) => {
                let ii = *ii;
                let mut acnt = self.accounts[ii];
                if acnt.available < p_txn.amount as i128 {
                    return Err(TxnErrors::AccountLacksFunds);
                }
                if acnt.frozen {
                    return Err(TxnErrors::AccountFrozen);
                }
                self.record_pure(Transaction::Withdrawal(*p_txn));
                acnt.available = acnt.available - p_txn.amount as i128;
                self.accounts.set(ii, acnt);
                assert(self@.accounts =~= withdrawal_step(s, *p_txn).0.accounts);
            },
            None => {
                return Err(TxnErrors::AccountDoesNotExist);
            },
        }
        Ok(())
    }

    /// Positions of the account and of the referenced deposit or withdrawal
    /// of a dispute, resolve or chargeback, or the first check that fails.
    pub fn get_ref_txn_indicies(&self, ref_txn: &RefTxn) -> (r: Result<(usize, usize), TxnErrors>)
        requires
            self.inv(),
        ensures
            match (r, ref_lookup(self@, *ref_txn)) {
                (Ok((i, j)), Ok((si, sj))) => i == si && j == sj,
                (Err(e), Err(se)) => e == se,
                _ => false,
            },
    {
        let acnt_indx = match self.acnt_map.get(&ref_txn.acnt_id) {
            Some(i) => *i,
            None => {
                return Err(TxnErrors::AccountDoesNotExist);
            },
        };
        if self.accounts[acnt_indx].frozen {
            return Err(TxnErrors::AccountFrozen);
        }
        match self.txn_map.get(&ref_txn.ref_id) {
            Some(j) => Ok((acnt_indx, *j)),
            None => Err(TxnErrors::TxnIdDoesNotExist),
        }
    }

    /// The deposit or withdrawal at `txn_indx` of the history. The
    /// transaction index only points at such entries.
    fn indexed_pure(&self, txn_indx: usize) -> (p: PureTxn)
        requires
            self.inv(),
            txn_indx < self@.history.len(),
            self@.history[txn_indx as int].is_pure(),
        ensures
            p == self@.history[txn_indx as int].pure_payload(),
    {
        match self.processed_txns[txn_indx] {
            Transaction::Deposit(p) => p,
            Transaction::Withdrawal(p) => p,
            _ => {
                proof {
                    assert(false);
                }
                PureTxn { txn_id: 0, acnt_id: 0, amount: 0, disputed: false }
            },
        }
    }

    /// Rewrites the disputed flag of the deposit or withdrawal at `txn_indx`
    /// and appends the reference transaction `t` to the history.
    fn flag_and_record(&mut self, txn_indx: usize, flag: bool, t: Transaction)
        requires
            old(self).inv(),
            txn_indx < old(self)@.history.len(),
            old(self)@.history[txn_indx as int].is_pure(),
            !t.is_pure(),
        ensures
            final(self)@ == (LedgerView {
                history: old(self)@.history.update(
                    txn_indx as int,
                    crate::ledger::with_disputed(old(self)@.history[txn_indx as int], flag),
                ).push(t),
                ..old(self)@
            }),
            final(self).processed_txns@.len() <= usize::MAX,
    {
        let updated = match self.processed_txns[txn_indx] {
            Transaction::Deposit(p) => Transaction::Deposit(PureTxn { disputed: flag, ..p }),
            Transaction::Withdrawal(p) => Transaction::Withdrawal(PureTxn { disputed: flag, ..p }),
            other => other,
        };
        self.processed_txns.set(txn_indx, updated);
        self.processed_txns.push(t);
        // The new length is a `usize`: the bound that keeps balances in range.
        let _ = self.processed_txns.len();
        assert(self@.accounts =~= old(self)@.accounts);
        assert(self@.acnt_index =~= old(self)@.acnt_index);
        assert(self@.txn_index =~= old(self)@.txn_index);
    }

    /// Applies a dispute if it is valid, else returns the reason it is not.
    pub fn process_dispute(&mut self, ref_txn: &RefTxn) -> (r: Result<(), TxnErrors>)
        requires
            old(self).inv(),
        ensures
            final(self).inv(),
            final(self)@ == dispute_step(old(self)@, *ref_txn).0,
            r == dispute_step(old(self)@, *ref_txn).1,
    {
        proof {
            lemma_step_wf(self@, Transaction::Dispute(*ref_txn));
        }
        let ghost s = self@;
        let (acnt_indx, txn_indx) = match self.get_ref_txn_indicies(ref_txn) {
            Ok(ij) => ij,
            Err(e) => {
                return Err(e);
            },
        };
        let disputed_txn = self.indexed_pure(txn_indx);
        if disputed_txn.disputed {
            return Err(TxnErrors::TxnAlreadyDisputed);
        }
        self.flag_and_record(txn_indx, true, Transaction::Dispute(*ref_txn));
        let mut acnt = self.accounts[acnt_indx];
        acnt.available = acnt.available - disputed_txn.amount as i128;
        acnt.held = acnt.held + disputed_txn.amount as i128;
        self.accounts.set(acnt_indx, acnt);
        assert(self@.accounts =~= dispute_step(s, *ref_txn).0.accounts);
        Ok(())
    }

    /// Applies a resolve if it is valid, else returns the reason it is not.
    pub fn process_resolve(&mut self, ref_txn: &RefTxn) -> (r: Result<(), TxnErrors>)
        requires
            old(self).inv(),
        ensures
            final(self).inv(),
            final(self)@ == resolve_step(old(self)@, *ref_txn).0,
            r == resolve_step(old(self)@, *ref_txn).1,
    {
        proof {
            lemma_step_wf(self@, Transaction::Resolve(*ref_txn));
        }
        let ghost s = self@;
        let (acnt_indx, txn_indx) = match self.get_ref_txn_indicies(ref_txn) {
            Ok(ij) => ij,
            Err(e) => {
                return Err(e);
            },
        };
        let disputed_txn = self.indexed_pure(txn_indx);
        if !disputed_txn.disputed {
            return Err(TxnErrors::TxnMustBeDisputed);
        }
        self.flag_and_record(txn_indx, false, Transaction::Resolve(*ref_txn));
        let mut acnt = self.accounts[acnt_indx];
        acnt.held = acnt.held - disputed_txn.amount as i128;
        acnt.available = acnt.available + disputed_txn.amount as i128;
        self.accounts.set(acnt_indx, acnt);
        assert(self@.accounts =~= resolve_step(s, *ref_txn).0.accounts);
        Ok(())
    }

    /// Applies a chargeback if it is valid, else returns the reason it is not.
    pub fn process_chargeback(&mut self, ref_txn: &RefTxn) -> (r: Result<(), TxnErrors>)
        requires
            old(self).inv(),
        ensures
            final(self).inv(),
            final(self)@ == chargeback_step(old(self)@, *ref_txn).0,
            r == chargeback_step(old(self)@, *ref_txn).1,
    {
        proof {
            lemma_step_wf(self@, Transaction::Chargeback(*ref_txn));
        }
        let ghost s = self@;
        let (acnt_indx, txn_indx) = match self.get_ref_txn_indicies(ref_txn) {
            Ok(ij) => ij,
            Err(e) => {
                return Err(e);
            },
        };
        let disputed_txn = self.indexed_pure(txn_indx);
        if !disputed_txn.disputed {
            return Err(TxnErrors::TxnMustBeDisputed);
        }
        self.flag_and_record(txn_indx, false, Transaction::Chargeback(*ref_txn));
        let mut acnt = self.accounts[acnt_indx];
        acnt.held = acnt.held - disputed_txn.amount as i128;
        acnt.frozen = true;
        self.accounts.set(acnt_indx, acnt);
        assert(self@.accounts =~= chargeback_step(s, *ref_txn).0.accounts);
        Ok(())
    }

    /// Applies one transaction: the only place that maps a transaction kind
    /// to its handler.
    pub fn process_txn(&mut self, txn: &Transaction) -> (r: Result<(), TxnErrors>)
        requires
            old(self).inv(),
        ensures
            final(self).inv(),
            final(self)@ == step(old(self)@, *txn).0,
            r == step(old(self)@, *txn).1,
    {
        match txn {
            Transaction::Deposit(p_txn) => self.process_deposit(p_txn),
            Transaction::Withdrawal(p_txn) => self.process_withdrawl(p_txn),
            Transaction::Dispute(ref_txn) => self.process_dispute(ref_txn),
            Transaction::Resolve(ref_txn) => self.process_resolve(ref_txn),
            Transaction::Chargeback(ref_txn) => self.process_chargeback(ref_txn),
        }
    }

    /// Applies the transactions in order; rejected ones leave the state as
    /// it was and processing goes on with the next.
    pub fn process_txns(&mut self, txns: &Vec<Transaction>)
        requires
            old(self).inv(),
        ensures
            final(self).inv(),
            final(self)@ == run(old(self)@, txns@),
    {
        let ghost s = self@;
        let mut i: usize = 0;
        while i < txns.len()
            invariant
                i <= txns.len(),
                self.inv(),
                self@ == run(s, txns@.take(i as int)),
            decreases txns.len() - i,
        {
            let _ = self.process_txn(&txns[i]);
            assert(txns@.take(i + 1).drop_last() =~= txns@.take(i as int));
            i = i + 1;
        }
        assert(txns@.take(i as int) =~= txns@);
    }

    /// The accounts in order of their creation.
    pub fn accounts(&self) -> (r: &Vec<Account>)
        ensures
            r@.map_values(|a: Account| a@) == self@.accounts,
    {
        &self.accounts
    }

    /// The accepted transactions in processing order.
    pub fn transactions(&self) -> (r: &Vec<Transaction>)
        ensures
            r@ == self@.history,
    {
        &self.processed_txns
    }

    /// Number of account ids in the account index.
    pub fn num_indexed_accounts(&self) -> (r: usize)
        ensures
            r == self@.acnt_index.len(),
    {
        assert(self@.acnt_index.dom() =~= self.acnt_map@.dom());
        self.acnt_map.len()
    }

    /// Number of transaction ids in the transaction index.
    pub fn num_indexed_txns(&self) -> (r: usize)
        ensures
            r == self@.txn_index.len(),
    {
        assert(self@.txn_index.dom() =~= self.txn_map@.dom());
        self.txn_map.len()
    }

    /// Sets or clears the frozen flag of the account at position `acnt_indx`.
    pub fn set_account_frozen(&mut self, acnt_indx: usize, frozen: bool)
        requires
            old(self).inv(),
            acnt_indx < old(self)@.accounts.len(),
        ensures
            final(self).inv(),
            final(self)@ == (LedgerView {
                accounts: old(self)@.accounts.update(
                    acnt_indx as int,
                    AccountModel { frozen, ..old(self)@.accounts[acnt_indx as int] },
                ),
                ..old(self)@
            }),
    {
        let mut acnt = self.accounts[acnt_indx];
        acnt.frozen = frozen;
        self.accounts.set(acnt_indx, acnt);
        assert(self@.accounts =~= old(self)@.accounts.update(
            acnt_indx as int,
            AccountModel { frozen, ..old(self)@.accounts[acnt_indx as int] },
        ));
    }
}

} // verus!
