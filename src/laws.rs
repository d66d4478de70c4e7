//! Properties of the ledger that hold for every state and every sequence of
//! transactions.
use vstd::prelude::*;

use crate::ledger::{
    chargeback_step, dispute_step, lemma_run_wf, lemma_step_wf, resolve_step, run,
    step, with_disputed, LedgerView, TxnErrors,
};
use crate::ingest::{record_step, stream_run, InTxn};
use crate::transaction::{PureTxn, RefTxn, Transaction};

verus! {

/// A rejected transaction leaves the state exactly as it was.
pub proof fn lemma_rejection_leaves_state(s: LedgerView, t: Transaction)
    requires
        step(s, t).1 is Err,
    ensures
        step(s, t).0 == s,
{
}

/// Applying a rejected transaction again and again never changes the state:
/// each repetition is rejected with the same error.
pub proof fn lemma_rejection_is_idempotent(s: LedgerView, t: Transaction, n: nat)
    requires
        step(s, t).1 is Err,
    ensures
        run(s, Seq::new(n, |i: int| t)) == s,
        step(run(s, Seq::new(n, |i: int| t)), t) == step(s, t),
    decreases n,
{
    if n > 0 {
        assert(Seq::new(n, |i: int| t).drop_last() =~= Seq::new((n - 1) as nat, |i: int| t));
        lemma_rejection_is_idempotent(s, t, (n - 1) as nat);
    }
}

/// The reference of a dispute, resolve or chargeback.
pub open spec fn ref_of(t: Transaction) -> RefTxn {
    match t {
        Transaction::Dispute(r) => r,
        Transaction::Resolve(r) => r,
        Transaction::Chargeback(r) => r,
        _ => arbitrary(),
    }
}

/// A dispute, resolve or chargeback naming an unknown client, a frozen
/// account or an unknown transaction fails, with the error of the first of
/// these checks, and changes nothing.
pub proof fn lemma_reference_guards(s: LedgerView, t: Transaction)
    requires
        !t.is_pure(),
        !s.acnt_index.contains_key(ref_of(t).acnt_id) || s.account_of(ref_of(t).acnt_id).frozen
            || !s.txn_index.contains_key(ref_of(t).ref_id),
    ensures
        step(s, t).0 == s,
        !s.acnt_index.contains_key(ref_of(t).acnt_id) ==> step(s, t).1 == Err::<(), TxnErrors>(
            TxnErrors::AccountDoesNotExist,
        ),
        s.acnt_index.contains_key(ref_of(t).acnt_id) && s.account_of(ref_of(t).acnt_id).frozen
            ==> step(s, t).1 == Err::<(), TxnErrors>(TxnErrors::AccountFrozen),
        s.acnt_index.contains_key(ref_of(t).acnt_id) && !s.account_of(ref_of(t).acnt_id).frozen
            && !s.txn_index.contains_key(ref_of(t).ref_id) ==> step(s, t).1 == Err::<
            (),
            TxnErrors,
        >(TxnErrors::TxnIdDoesNotExist),
{
}

/// A withdrawal succeeds only from an existing account holding at least
/// the amount; lack of funds is reported before the frozen flag.
pub proof fn lemma_withdrawal_needs_funds(s: LedgerView, p: PureTxn)
    ensures
        step(s, Transaction::Withdrawal(p)).1 is Ok ==> s.acnt_index.contains_key(p.acnt_id)
            && p.amount <= s.account_of(p.acnt_id).available,
        !s.txn_index.contains_key(p.txn_id) && s.acnt_index.contains_key(p.acnt_id)
            && s.account_of(p.acnt_id).available < p.amount ==> step(
            s,
            Transaction::Withdrawal(p),
        ) == (s, Err::<(), TxnErrors>(TxnErrors::AccountLacksFunds)),
{
}

/// A successful dispute moves exactly the referenced amount from available
/// to held on the named account and marks the referenced transaction
/// disputed; nothing else changes but the appended history entry.
pub proof fn lemma_dispute_moves_amount(s: LedgerView, r: RefTxn)
    requires
        s.wf(),
        dispute_step(s, r).1 is Ok,
    ensures
        ({
            let n = dispute_step(s, r).0;
            let i = s.acnt_index[r.acnt_id];
            let j = s.txn_index[r.ref_id];
            let a = s.accounts[i];
            let amount = s.pure_txn_of(r.ref_id).amount;
            &&& !s.pure_txn_of(r.ref_id).disputed
            &&& n.accounts[i].available == a.available - amount
            &&& n.accounts[i].held == a.held + amount
            &&& n.accounts[i].total() == a.total()
            &&& n.accounts[i].frozen == a.frozen && n.accounts[i].id == a.id
            &&& forall|k: int| 0 <= k < s.accounts.len() && k != i ==> n.accounts[k] == s.accounts[k]
            &&& n.history == s.history.update(j, with_disputed(s.history[j], true)).push(
                Transaction::Dispute(r),
            )
            &&& n.pure_txn_of(r.ref_id).disputed
        }),
{
}

/// A successful resolve moves exactly the referenced amount from held back
/// to available and clears the disputed mark.
pub proof fn lemma_resolve_moves_amount_back(s: LedgerView, r: RefTxn)
    requires
        s.wf(),
        resolve_step(s, r).1 is Ok,
    ensures
        ({
            let n = resolve_step(s, r).0;
            let i = s.acnt_index[r.acnt_id];
            let a = s.accounts[i];
            let amount = s.pure_txn_of(r.ref_id).amount;
            &&& s.pure_txn_of(r.ref_id).disputed
            &&& n.accounts[i].available == a.available + amount
            &&& n.accounts[i].held == a.held - amount
            &&& n.accounts[i].frozen == a.frozen && n.accounts[i].id == a.id
            &&& forall|k: int| 0 <= k < s.accounts.len() && k != i ==> n.accounts[k] == s.accounts[k]
            &&& !n.pure_txn_of(r.ref_id).disputed
        }),
{
}

/// A successful chargeback removes exactly the referenced amount from held,
/// leaves available as it was, and freezes the account.
pub proof fn lemma_chargeback_removes_held(s: LedgerView, r: RefTxn)
    requires
        s.wf(),
        chargeback_step(s, r).1 is Ok,
    ensures
        ({
            let n = chargeback_step(s, r).0;
            let i = s.acnt_index[r.acnt_id];
            let a = s.accounts[i];
            let amount = s.pure_txn_of(r.ref_id).amount;
            &&& s.pure_txn_of(r.ref_id).disputed
            &&& n.accounts[i].available == a.available
            &&& n.accounts[i].held == a.held - amount
            &&& n.accounts[i].total() == a.total() - amount
            &&& n.accounts[i].frozen
            &&& n.accounts[i].id == a.id
            &&& forall|k: int| 0 <= k < s.accounts.len() && k != i ==> n.accounts[k] == s.accounts[k]
            &&& !n.pure_txn_of(r.ref_id).disputed
        }),
{
}

/// A resolve right after a successful dispute of the same transaction
/// succeeds and restores every account and every earlier history entry.
pub proof fn lemma_resolve_reverses_dispute(s: LedgerView, r: RefTxn)
    requires
        s.wf(),
        dispute_step(s, r).1 is Ok,
    ensures
        resolve_step(dispute_step(s, r).0, r).1 is Ok,
        resolve_step(dispute_step(s, r).0, r).0.accounts == s.accounts,
        resolve_step(dispute_step(s, r).0, r).0.history == s.history.push(
            Transaction::Dispute(r),
        ).push(Transaction::Resolve(r)),
        resolve_step(dispute_step(s, r).0, r).0.acnt_index == s.acnt_index,
        resolve_step(dispute_step(s, r).0, r).0.txn_index == s.txn_index,
{
    let n1 = dispute_step(s, r).0;
    let n2 = resolve_step(n1, r).0;
    let i = s.acnt_index[r.acnt_id];
    let j = s.txn_index[r.ref_id];
    lemma_step_wf(s, Transaction::Dispute(r));
    assert(n1.history[j] == with_disputed(s.history[j], true));
    assert(n2.accounts =~= s.accounts);
    assert(with_disputed(with_disputed(s.history[j], true), false) == s.history[j]);
    assert(n2.history =~= s.history.push(Transaction::Dispute(r)).push(Transaction::Resolve(r)));
}

/// Keys of the indices are never removed.
pub proof fn lemma_step_keeps_keys(s: LedgerView, t: Transaction)
    requires
        s.wf(),
    ensures
        forall|id: u16| s.acnt_index.contains_key(id) ==> #[trigger] step(s, t).0.acnt_index.contains_key(id)
            && step(s, t).0.acnt_index[id] == s.acnt_index[id],
        forall|id: u32| s.txn_index.contains_key(id) ==> #[trigger] step(s, t).0.txn_index.contains_key(id),
{
}

/// A transaction id, once accepted for a deposit or withdrawal, is refused
/// with `TxnIdAlreadyExists` for any later deposit or withdrawal, whatever
/// was applied in between.
pub proof fn lemma_accepted_id_never_reaccepted(
    s: LedgerView,
    j: int,
    txns: Seq<Transaction>,
    p: PureTxn,
)
    requires
        s.wf(),
        0 <= j < s.history.len(),
        s.history[j].is_pure(),
        p.txn_id == s.history[j].pure_payload().txn_id,
    ensures
        step(run(s, txns), Transaction::Deposit(p)) == (run(s, txns), Err::<(), TxnErrors>(
            TxnErrors::TxnIdAlreadyExists,
        )),
        step(run(s, txns), Transaction::Withdrawal(p)) == (run(s, txns), Err::<(), TxnErrors>(
            TxnErrors::TxnIdAlreadyExists,
        )),
{
    lemma_id_stays_indexed(s, txns, p.txn_id);
}

/// An indexed transaction id stays indexed.
proof fn lemma_id_stays_indexed(s: LedgerView, txns: Seq<Transaction>, id: u32)
    requires
        s.wf(),
        s.txn_index.contains_key(id),
    ensures
        run(s, txns).txn_index.contains_key(id),
    decreases txns.len(),
{
    if txns.len() > 0 {
        lemma_id_stays_indexed(s, txns.drop_last(), id);
        lemma_run_wf(s, txns.drop_last());
        lemma_step_keeps_keys(run(s, txns.drop_last()), txns.last());
    }
}

/// Signed sum of the deposits (plus) and withdrawals (minus) of account `id`
/// in `h`.
pub open spec fn net_amount(h: Seq<Transaction>, id: u16) -> int
    decreases h.len(),
{
    if h.len() == 0 {
        0
    } else {
        net_amount(h.drop_last(), id) + match h.last() {
            Transaction::Deposit(p) => if p.acnt_id == id {
                p.amount as int
            } else {
                0
            },
            Transaction::Withdrawal(p) => if p.acnt_id == id {
                -(p.amount as int)
            } else {
                0
            },
            _ => 0,
        }
    }
}

/// Every transaction of the sequence was accepted when applied in order.
pub open spec fn accepted_all(s: LedgerView, txns: Seq<Transaction>) -> bool
    decreases txns.len(),
{
    txns.len() == 0 || (accepted_all(s, txns.drop_last()) && step(
        run(s, txns.drop_last()),
        txns.last(),
    ).1 is Ok)
}

/// A state reached by deposits and withdrawals alone.
spec fn pure_state(s: LedgerView) -> bool {
    &&& s.wf()
    &&& forall|j: int| 0 <= j < s.history.len() ==> (#[trigger] s.history[j]).is_pure()
        && s.acnt_index.contains_key(s.history[j].pure_payload().acnt_id)
    &&& forall|i: int|
        0 <= i < s.accounts.len() ==> (#[trigger] s.accounts[i]).held == 0
            && s.accounts[i].available == net_amount(s.history, s.accounts[i].id)
}

/// No entry of `h` is a deposit or withdrawal of account `id`.
proof fn lemma_net_amount_untouched(h: Seq<Transaction>, id: u16)
    requires
        forall|j: int| 0 <= j < h.len() ==> (#[trigger] h[j]).is_pure() && h[j].pure_payload().acnt_id != id,
    ensures
        net_amount(h, id) == 0,
    decreases h.len(),
{
    if h.len() > 0 {
        assert forall|j: int| 0 <= j < h.drop_last().len() implies (
        #[trigger] h.drop_last()[j]).is_pure() && h.drop_last()[j].pure_payload().acnt_id != id by {
            assert(h.drop_last()[j] == h[j]);
        }
        lemma_net_amount_untouched(h.drop_last(), id);
        assert(h[h.len() - 1].is_pure());
    }
}

/// One deposit or withdrawal keeps a state reached by deposits and
/// withdrawals alone.
proof fn lemma_pure_step(s: LedgerView, t: Transaction)
    requires
        pure_state(s),
        t.is_pure(),
    ensures
        pure_state(step(s, t).0),
        step(s, t).1 is Ok ==> step(s, t).0.history == s.history.push(t),
{
    lemma_step_wf(s, t);
    let n = step(s, t).0;
    let p = t.pure_payload();
    if step(s, t).1 is Ok {
        assert(n.history == s.history.push(t));
        assert(n.history.drop_last() =~= s.history);
        if !s.acnt_index.contains_key(p.acnt_id) {
            lemma_net_amount_untouched(s.history, p.acnt_id);
        }
        assert forall|i: int| 0 <= i < n.accounts.len() implies (#[trigger] n.accounts[i]).held
            == 0 && n.accounts[i].available == net_amount(n.history, n.accounts[i].id) by {
            if i < s.accounts.len() {
                assert(s.acnt_index[s.accounts[i].id] == i);
            }
        }
        assert forall|j: int| 0 <= j < n.history.len() implies (#[trigger] n.history[j]).is_pure()
            && n.acnt_index.contains_key(n.history[j].pure_payload().acnt_id) by {
            if j < s.history.len() {
                assert(n.history[j] == s.history[j]);
            }
        }
    }
}

/// For any sequence of deposits and withdrawals applied to the empty
/// ledger, every account holds nothing and has available the sum of its
/// accepted deposit amounts minus the sum of its accepted withdrawal
/// amounts; when every transaction was accepted, that is the sum over the
/// whole sequence.
pub proof fn lemma_deposits_and_withdrawals_balance(txns: Seq<Transaction>)
    requires
        forall|k: int| 0 <= k < txns.len() ==> (#[trigger] txns[k]).is_pure(),
    ensures
        ({
            let f = run(LedgerView::empty(), txns);
            &&& forall|i: int|
                0 <= i < f.accounts.len() ==> (#[trigger] f.accounts[i]).held == 0
                    && f.accounts[i].available == net_amount(f.history, f.accounts[i].id)
            &&& accepted_all(LedgerView::empty(), txns) ==> f.history == txns
            &&& accepted_all(LedgerView::empty(), txns) ==> forall|i: int|
                0 <= i < f.accounts.len() ==> (#[trigger] f.accounts[i]).available == net_amount(
                    txns,
                    f.accounts[i].id,
                )
        }),
{
    lemma_pure_run(txns);
}

/// Induction for `lemma_deposits_and_withdrawals_balance`.
proof fn lemma_pure_run(txns: Seq<Transaction>)
    requires
        forall|k: int| 0 <= k < txns.len() ==> (#[trigger] txns[k]).is_pure(),
    ensures
        pure_state(run(LedgerView::empty(), txns)),
        accepted_all(LedgerView::empty(), txns) ==> run(LedgerView::empty(), txns).history
            == txns,
    decreases txns.len(),
{
    if txns.len() == 0 {
        assert(LedgerView::empty().history =~= txns);
    } else {
        let prev = txns.drop_last();
        assert forall|k: int| 0 <= k < prev.len() implies (#[trigger] prev[k]).is_pure() by {
            assert(prev[k] == txns[k]);
        }
        lemma_pure_run(prev);
        assert(txns[txns.len() - 1].is_pure());
        lemma_pure_step(run(LedgerView::empty(), prev), txns.last());
        if accepted_all(LedgerView::empty(), txns) {
            assert(prev.push(txns.last()) =~= txns);
        }
    }
}

/// A frozen account never changes again: deposits to it and references to
/// it fail with `AccountFrozen` (a deposit with a fresh id, any dispute,
/// resolve or chargeback), a withdrawal from it fails, and no other
/// transaction touches it.
pub proof fn lemma_frozen_account_is_final(s: LedgerView, t: Transaction, id: u16)
    requires
        s.wf(),
        s.acnt_index.contains_key(id),
        s.account_of(id).frozen,
    ensures
        step(s, t).0.acnt_index.contains_key(id),
        step(s, t).0.account_of(id) == s.account_of(id),
        t matches Transaction::Deposit(p) && p.acnt_id == id && !s.txn_index.contains_key(p.txn_id)
            ==> step(s, t).1 == Err::<(), TxnErrors>(TxnErrors::AccountFrozen),
        t matches Transaction::Withdrawal(p) && p.acnt_id == id ==> step(s, t).1 is Err,
        !t.is_pure() && ref_of(t).acnt_id == id ==> step(s, t).1 == Err::<(), TxnErrors>(
            TxnErrors::AccountFrozen,
        ),
{
    lemma_step_keeps_keys(s, t);
}

/// A record of a stream that is skipped, because it cannot be read, cannot
/// be converted or is rejected, leaves the state exactly as it was; a
/// record that is applied changes the state as its transaction does.
pub proof fn lemma_skipped_record_leaves_state(s: LedgerView, record: Option<InTxn>)
    ensures
        record_step(s, record).1 is Err ==> record_step(s, record).0 == s,
        record is Some && record->Some_0.converted() is Ok ==> record_step(s, record).0 == step(
            s,
            record->Some_0.converted()->Ok_0,
        ).0,
{
}

/// The transactions of the records that can be read and converted, in
/// order.
pub open spec fn wellformed_txns(records: Seq<Option<InTxn>>) -> Seq<Transaction>
    decreases records.len(),
{
    if records.len() == 0 {
        Seq::empty()
    } else {
        let prev = wellformed_txns(records.drop_last());
        match records.last() {
            Some(r) => match r.converted() {
                Ok(t) => prev.push(t),
                Err(_) => prev,
            },
            None => prev,
        }
    }
}

/// Streaming a sequence of records gives the same state as applying just
/// the transactions of its well-formed records: a record that cannot be
/// read or converted is as if it were not there, wherever it stands.
pub proof fn lemma_stream_skips_malformed_records(s: LedgerView, records: Seq<Option<InTxn>>)
    ensures
        stream_run(s, records) == run(s, wellformed_txns(records)),
    decreases records.len(),
{
    if records.len() > 0 {
        lemma_stream_skips_malformed_records(s, records.drop_last());
        let prev = wellformed_txns(records.drop_last());
        if let Some(r) = records.last() {
            if let Ok(t) = r.converted() {
                assert(prev.push(t).drop_last() =~= prev);
            }
        }
    }
}

} // verus!
