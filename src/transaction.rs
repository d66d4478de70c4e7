use vstd::prelude::*;

verus! {

/// A transaction that adds funds to or removes funds from an account.
///
/// `amount` is a fixed-point value in ten-thousandths of a currency unit.
#[derive(Debug, Clone, Copy, PartialEq, Eq, Structural)]
pub struct PureTxn {
    pub txn_id: u32,
    pub acnt_id: u16,
    pub amount: i64,
    pub disputed: bool,
}

/// A transaction that refers to an earlier deposit or withdrawal.
#[derive(Debug, Clone, Copy, PartialEq, Eq, Structural)]
pub struct RefTxn {
    /// Id of the deposit or withdrawal this transaction refers to.
    pub ref_id: u32,
    /// Account this transaction should affect.
    pub acnt_id: u16,
}

/// Financial transactions that can affect an account's held and available amounts.
#[derive(Debug, Clone, Copy, PartialEq, Eq, Structural)]
pub enum Transaction {
    Deposit(PureTxn),
    Withdrawal(PureTxn),
    Dispute(RefTxn),
    Resolve(RefTxn),
    Chargeback(RefTxn),
}

impl Transaction {
    /// True for the variants that carry their own amount and id.
    pub open spec fn is_pure(self) -> bool {
        self is Deposit || self is Withdrawal
    }

    /// The payload of a deposit or withdrawal.
    pub open spec fn pure_payload(self) -> PureTxn
        recommends
            self.is_pure(),
    {
        match self {
            Transaction::Deposit(p) => p,
            Transaction::Withdrawal(p) => p,
            _ => arbitrary(),
        }
    }
}

} // verus!
