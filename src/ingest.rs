//! Raw transaction records and their conversion into transactions, the
//! run loops over records, and the command-line options.
use vstd::prelude::*;
use vstd::string::{StrSliceExecFns, StringExecFns};

use crate::engine::PaymentsEngine;
use crate::ledger::{run, step, LedgerView, TxnErrors};
use crate::money::{get_specified_precision, truncated, PRECISION};
use crate::transaction::{PureTxn, RefTxn, Transaction};

verus! {

/// One record of the input, as the record source delivers it: fields
/// trimmed of surrounding whitespace, `client` and `tx` already read as
/// integers.
///
/// `amount` is the text of the amount field, or `None` when the field is
/// empty or missing.
pub struct InTxn {
    pub txn_type: String,
    pub acnt_id: u16,
    pub txn_id: u32,
    pub amount: Option<String>,
}

/// Reasons a record cannot become a transaction.
#[derive(Debug, Clone, Copy, PartialEq, Eq, Structural)]
pub enum InputTxnErr {
    MissingAmount,
    UnsupportedType,
    ShouldHaveNoAmount,
}

/// Why a record of a stream was skipped.
#[derive(Debug, Clone, Copy, PartialEq, Eq, Structural)]
pub enum RecordError {
    /// The record source could not read the record.
    Unreadable,
    /// The record could not become a transaction.
    Conversion(InputTxnErr),
    /// The transaction was rejected by the ledger.
    Business(TxnErrors),
}

impl InTxn {
    /// The amount of the record truncated to `PRECISION` digits. An amount
    /// that is not a decimal number, or that does not fit, counts as absent.
    pub open spec fn amount_value(&self) -> Option<i64> {
        match self.amount {
            Some(a) => truncated(a@, PRECISION as nat),
            None => None,
        }
    }

    /// The transaction a record stands for, or why it stands for none.
    pub open spec fn converted(&self) -> Result<Transaction, InputTxnErr> {
        let t = self.txn_type@;
        if t == "deposit"@ || t == "withdrawal"@ {
            match self.amount_value() {
                None => Err(InputTxnErr::MissingAmount),
                Some(amount) => {
                    let p = PureTxn {
                        txn_id: self.txn_id,
                        acnt_id: self.acnt_id,
                        amount,
                        disputed: false,
                    };
                    if t == "deposit"@ {
                        Ok(Transaction::Deposit(p))
                    } else {
                        Ok(Transaction::Withdrawal(p))
                    }
                },
            }
        } else if t == "dispute"@ || t == "resolve"@ || t == "chargeback"@ {
            if self.amount_value() is Some {
                Err(InputTxnErr::ShouldHaveNoAmount)
            } else {
                let r = RefTxn { ref_id: self.txn_id, acnt_id: self.acnt_id };
                if t == "dispute"@ {
                    Ok(Transaction::Dispute(r))
                } else if t == "resolve"@ {
                    Ok(Transaction::Resolve(r))
                } else {
                    Ok(Transaction::Chargeback(r))
                }
            }
        } else {
            Err(InputTxnErr::UnsupportedType)
        }
    }

    /// Converts the record into a transaction. Deposits and withdrawals
    /// need an amount, which is truncated to `PRECISION` digits; disputes,
    /// resolves and chargebacks must have none; other types are refused.
    pub fn to_transaction(&self) -> (r: Result<Transaction, InputTxnErr>)
        ensures
            r == self.converted(),
    {
        let type_str = self.txn_type.as_str();
        let amount = match &self.amount {
            Some(a) => get_specified_precision(a.as_str(), PRECISION),
            None => None,
        };
        if text_eq(type_str, "deposit") || text_eq(type_str, "withdrawal") {
            let amount = match amount {
                Some(x) => x,
                None => {
                    return Err(InputTxnErr::MissingAmount);
                },
            };
            let pure_txn = PureTxn {
                txn_id: self.txn_id,
                acnt_id: self.acnt_id,
                amount,
                disputed: false,
            };
            if text_eq(type_str, "deposit") {
                return Ok(Transaction::Deposit(pure_txn));
            }
            return Ok(Transaction::Withdrawal(pure_txn));
        } else if text_eq(type_str, "dispute") || text_eq(type_str, "resolve") || text_eq(
            type_str,
            "chargeback",
        ) {
            if amount.is_some() {
                return Err(InputTxnErr::ShouldHaveNoAmount);
            }
            let ref_txn = RefTxn { ref_id: self.txn_id, acnt_id: self.acnt_id };
            if text_eq(type_str, "dispute") {
                return Ok(Transaction::Dispute(ref_txn));
            } else if text_eq(type_str, "resolve") {
                return Ok(Transaction::Resolve(ref_txn));
            }
            return Ok(Transaction::Chargeback(ref_txn));
        }
        Err(InputTxnErr::UnsupportedType)
    }
}

/// Whether two texts hold the same characters.
fn text_eq(a: &str, b: &str) -> (r: bool)
    ensures
        r == (a@ == b@),
{
    let n = a.unicode_len();
    if n != b.unicode_len() {
        return false;
    }
    let mut i: usize = 0;
    while i < n
        invariant
            n == a@.len() == b@.len(),
            i <= n,
            forall|j: int| 0 <= j < i ==> a@[j] == b@[j],
        decreases n - i,
    {
        if a.get_char(i) != b.get_char(i) {
            return false;
        }
        i = i + 1;
    }
    assert(a@ =~= b@);
    true
}

/// The transactions that the records stand for, or the error of the first
/// record that stands for none.
pub open spec fn converted_all(records: Seq<InTxn>) -> Result<Seq<Transaction>, InputTxnErr>
    decreases records.len(),
{
    if records.len() == 0 {
        Ok(Seq::empty())
    } else {
        match converted_all(records.drop_last()) {
            Err(e) => Err(e),
            Ok(ts) => match records.last().converted() {
                Err(e) => Err(e),
                Ok(t) => Ok(ts.push(t)),
            },
        }
    }
}

/// Converts every record, failing on the first one that cannot be converted.
pub fn to_transactions(records: &Vec<InTxn>) -> (r: Result<Vec<Transaction>, InputTxnErr>)
    ensures
        match r {
            Ok(v) => converted_all(records@) == Ok::<Seq<Transaction>, InputTxnErr>(v@),
            Err(e) => converted_all(records@) == Err::<Seq<Transaction>, InputTxnErr>(e),
        },
{
    let mut txn_vec: Vec<Transaction> = Vec::new();
    let mut i: usize = 0;
    while i < records.len()
        invariant
            i <= records.len(),
            converted_all(records@.take(i as int)) == Ok::<Seq<Transaction>, InputTxnErr>(
                txn_vec@,
            ),
        decreases records.len() - i,
    {
        assert(records@.take(i + 1).drop_last() =~= records@.take(i as int));
        match records[i].to_transaction() {
            Ok(txn) => txn_vec.push(txn),
            Err(e) => {
                proof {
                    lemma_converted_all_err(records@, i as int + 1);
                }
                return Err(e);
            },
        }
        i = i + 1;
    }
    assert(records@.take(i as int) =~= records@);
    Ok(txn_vec)
}

/// Once a prefix of the records fails to convert, the whole sequence fails
/// with the same error.
proof fn lemma_converted_all_err(records: Seq<InTxn>, n: int)
    requires
        0 <= n <= records.len(),
        converted_all(records.take(n)) is Err,
    ensures
        converted_all(records) == converted_all(records.take(n)),
    decreases records.len() - n,
{
    if n < records.len() {
        assert(records.take(n + 1).drop_last() =~= records.take(n));
        lemma_converted_all_err(records, n + 1);
    } else {
        assert(records.take(n) =~= records);
    }
}

/// Applying one record of a stream: an unreadable record, one that cannot
/// be converted and one that the ledger rejects are all skipped and leave
/// the state as it was.
pub open spec fn record_step(s: LedgerView, record: Option<InTxn>) -> (
    LedgerView,
    Result<(), RecordError>,
) {
    match record {
        None => (s, Err(RecordError::Unreadable)),
        Some(r) => match r.converted() {
            Err(e) => (s, Err(RecordError::Conversion(e))),
            Ok(t) => (
                step(s, t).0,
                match step(s, t).1 {
                    Ok(()) => Ok(()),
                    Err(e) => Err(RecordError::Business(e)),
                },
            ),
        },
    }
}

/// Applies the records of a stream in order, skipping the ones that fail.
pub open spec fn stream_run(s: LedgerView, records: Seq<Option<InTxn>>) -> LedgerView
    decreases records.len(),
{
    if records.len() == 0 {
        s
    } else {
        record_step(stream_run(s, records.drop_last()), records.last()).0
    }
}

impl PaymentsEngine {
    /// Applies one record of a stream; `None` stands for a record that the
    /// source could not read. A record that fails is skipped: the error
    /// says why, and the state is left as it was.
    pub fn process_record(&mut self, record: &Option<InTxn>) -> (r: Result<(), RecordError>)
        requires
            old(self).inv(),
        ensures
            final(self).inv(),
            final(self)@ == record_step(old(self)@, *record).0,
            r == record_step(old(self)@, *record).1,
    {
        match record {
            None => Err(RecordError::Unreadable),
            Some(rec) => match rec.to_transaction() {
                Err(e) => Err(RecordError::Conversion(e)),
                Ok(txn) => match self.process_txn(&txn) {
                    Ok(()) => Ok(()),
                    Err(e) => Err(RecordError::Business(e)),
                },
            },
        }
    }

    /// Applies a stream of records in order. Records that cannot be read,
    /// cannot be converted or are rejected are skipped, and processing goes
    /// on with the next one.
    pub fn stream_process(&mut self, records: &Vec<Option<InTxn>>)
        requires
            old(self).inv(),
        ensures
            final(self).inv(),
            final(self)@ == stream_run(old(self)@, records@),
    {
        let ghost s = self@;
        let mut i: usize = 0;
        while i < records.len()
            invariant
                i <= records.len(),
                self.inv(),
                self@ == stream_run(s, records@.take(i as int)),
            decreases records.len() - i,
        {
            let _ = self.process_record(&records[i]);
            assert(records@.take(i + 1).drop_last() =~= records@.take(i as int));
            i = i + 1;
        }
        assert(records@.take(i as int) =~= records@);
    }

    /// Batch policy: converts every record first and applies nothing if one
    /// of them cannot be converted; else applies all the transactions in
    /// order, skipping the ones the ledger rejects.
    pub fn batch_execute(&mut self, records: &Vec<InTxn>) -> (r: Result<(), InputTxnErr>)
        requires
            old(self).inv(),
        ensures
            final(self).inv(),
            match converted_all(records@) {
                Ok(ts) => r is Ok && final(self)@ == run(old(self)@, ts),
                Err(e) => r == Err::<(), InputTxnErr>(e) && final(self)@ == old(self)@,
            },
    {
        let txns = to_transactions(records)?;
        self.process_txns(&txns);
        Ok(())
    }
}

/// Where the result of a run goes.
pub enum OutputMethod {
    /// A delimited file at the given path.
    Csv(String),
    /// The console.
    StdOutput,
}

/// Options of a run: the input file and where the result goes.
pub struct CliOptions {
    pub input_file: String,
    pub output: OutputMethod,
}

/// Options from the program's arguments: the first argument after the
/// program name is the input file, and results go to the console. `None`
/// when the input file is missing.
pub fn parse_cli_args(args: &Vec<String>) -> (r: Option<CliOptions>)
    ensures
        match r {
            Some(o) => args@.len() >= 2 && o.input_file@ == args@[1]@ && o.output is StdOutput,
            None => args@.len() < 2,
        },
{
    if args.len() < 2 {
        return None;
    }
    let input_file = args[1].clone();
    Some(CliOptions { input_file, output: OutputMethod::StdOutput })
}

/// Path of a test input file, relative to the crate root.
pub fn _get_test_input_file(filename: &str) -> (r: String)
    ensures
        r@ == "src/test/inputs/"@ + filename@,
{
    let mut f = String::from_str("src/test/inputs/");
    f.append(filename);
    f
}

} // verus!
