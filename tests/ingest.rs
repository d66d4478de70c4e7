use payments_engine::ingest::{
    _get_test_input_file, parse_cli_args, to_transactions, InTxn, InputTxnErr, OutputMethod,
};
use payments_engine::money::get_specified_precision;
use payments_engine::transaction::{PureTxn, RefTxn, Transaction};

fn record(txn_type: &str, acnt_id: u16, txn_id: u32, amount: Option<&str>) -> InTxn {
    InTxn {
        txn_type: txn_type.to_string(),
        acnt_id,
        txn_id,
        amount: amount.map(|a| a.to_string()),
    }
}

#[test]
fn tst_get_specified_precision() {
    let val = "0.12345";
    assert_eq!(Some(1234), get_specified_precision(val, 4));
}

#[test]
fn tst_to_transaction() {
    let in_txn = InTxn {
        txn_type: "unsupportedtype".to_string(),
        acnt_id: 1,
        txn_id: 1,
        amount: Some("10.0".to_string()),
    };
    match in_txn.to_transaction() {
        Ok(_) => panic!("Should error"),
        Err(e) => assert_eq!(e, InputTxnErr::UnsupportedType),
    }

    let in_txn = InTxn {
        txn_type: "dispute".to_string(),
        acnt_id: 1,
        txn_id: 1,
        amount: Some("10.0".to_string()),
    };
    match in_txn.to_transaction() {
        Ok(_) => panic!("Should error"),
        Err(e) => assert_eq!(e, InputTxnErr::ShouldHaveNoAmount),
    }

    let in_txn = InTxn {
        txn_type: "deposit".to_string(),
        acnt_id: 1,
        txn_id: 1,
        amount: None,
    };
    match in_txn.to_transaction() {
        Ok(_) => panic!("Should error"),
        Err(e) => assert_eq!(e, InputTxnErr::MissingAmount),
    }

    let in_txn = InTxn {
        txn_type: "dispute".to_string(),
        acnt_id: 1,
        txn_id: 1,
        amount: None,
    };
    match in_txn.to_transaction() {
        Ok(txn) => assert_eq!(
            txn,
            Transaction::Dispute(RefTxn {
                ref_id: 1,
                acnt_id: 1
            })
        ),
        Err(_) => panic!("Should result"),
    }
}

#[test]
fn truncation_rounds_down_never_up() {
    assert_eq!(get_specified_precision("0.12349", 4), Some(1234));
    assert_eq!(get_specified_precision("0.99999", 4), Some(9999));
    assert_eq!(get_specified_precision("-0.12345", 4), Some(-1235));
    assert_eq!(get_specified_precision("-0.12340", 4), Some(-1234));
    assert_eq!(get_specified_precision("-0.1234000001", 4), Some(-1235));
}

#[test]
fn decimal_notation_forms() {
    assert_eq!(get_specified_precision("10", 4), Some(100_000));
    assert_eq!(get_specified_precision("10.0", 4), Some(100_000));
    assert_eq!(get_specified_precision("+2.5", 4), Some(25_000));
    assert_eq!(get_specified_precision("5.", 4), Some(50_000));
    assert_eq!(get_specified_precision(".5", 4), Some(5_000));
    assert_eq!(get_specified_precision("007.25", 4), Some(72_500));
    assert_eq!(get_specified_precision("1.5", 0), Some(1));
    assert_eq!(get_specified_precision("-1.5", 0), Some(-2));
    assert_eq!(get_specified_precision("0.000", 30), Some(0));
}

#[test]
fn malformed_decimals_are_refused() {
    assert_eq!(get_specified_precision("", 4), None);
    assert_eq!(get_specified_precision(".", 4), None);
    assert_eq!(get_specified_precision("-", 4), None);
    assert_eq!(get_specified_precision("abc", 4), None);
    assert_eq!(get_specified_precision("1.2.3", 4), None);
    assert_eq!(get_specified_precision("1e3", 4), None);
    assert_eq!(get_specified_precision(" 1", 4), None);
    assert_eq!(get_specified_precision("--1", 4), None);
}

#[test]
fn amounts_at_the_edge_of_i64() {
    assert_eq!(
        get_specified_precision("922337203685477.5807", 4),
        Some(i64::MAX)
    );
    assert_eq!(get_specified_precision("922337203685477.5808", 4), None);
    assert_eq!(
        get_specified_precision("-922337203685477.5808", 4),
        Some(i64::MIN)
    );
    assert_eq!(
        get_specified_precision("-922337203685477.58079", 4),
        Some(i64::MIN)
    );
    assert_eq!(get_specified_precision("-922337203685477.58081", 4), None);
    assert_eq!(get_specified_precision("99999999999999999999999", 4), None);
    assert_eq!(get_specified_precision("1", 19), None);
}

#[test]
fn conversion_truncates_deposit_amounts() {
    let txn = record("deposit", 1, 1, Some("0.12345")).to_transaction();
    assert_eq!(
        txn,
        Ok(Transaction::Deposit(PureTxn {
            txn_id: 1,
            acnt_id: 1,
            amount: 1234,
            disputed: false,
        }))
    );
    let txn = record("withdrawal", 2, 7, Some("3")).to_transaction();
    assert_eq!(
        txn,
        Ok(Transaction::Withdrawal(PureTxn {
            txn_id: 7,
            acnt_id: 2,
            amount: 30_000,
            disputed: false,
        }))
    );
}

#[test]
fn conversion_of_reference_records() {
    let r = RefTxn { ref_id: 4, acnt_id: 9 };
    assert_eq!(
        record("resolve", 9, 4, None).to_transaction(),
        Ok(Transaction::Resolve(r))
    );
    assert_eq!(
        record("chargeback", 9, 4, None).to_transaction(),
        Ok(Transaction::Chargeback(r))
    );
    assert_eq!(
        record("chargeback", 9, 4, Some("1.0")).to_transaction(),
        Err(InputTxnErr::ShouldHaveNoAmount)
    );
}

#[test]
fn unparsable_amount_counts_as_absent() {
    assert_eq!(
        record("deposit", 1, 1, Some("ten")).to_transaction(),
        Err(InputTxnErr::MissingAmount)
    );
    assert_eq!(
        record("withdrawal", 1, 1, Some("")).to_transaction(),
        Err(InputTxnErr::MissingAmount)
    );
    assert_eq!(
        record("dispute", 1, 1, Some("n/a")).to_transaction(),
        Ok(Transaction::Dispute(RefTxn { ref_id: 1, acnt_id: 1 }))
    );
}

#[test]
fn type_names_are_exact() {
    assert_eq!(
        record("Deposit", 1, 1, Some("1.0")).to_transaction(),
        Err(InputTxnErr::UnsupportedType)
    );
    assert_eq!(
        record("", 1, 1, None).to_transaction(),
        Err(InputTxnErr::UnsupportedType)
    );
}

#[test]
fn to_transactions_converts_all_or_reports_first_error() {
    let records = vec![
        record("deposit", 1, 1, Some("10.0")),
        record("dispute", 1, 1, None),
        record("resolve", 1, 1, None),
    ];
    let deposit = Transaction::Deposit(PureTxn {
        txn_id: 1,
        acnt_id: 1,
        amount: 100_000,
        disputed: false,
    });
    let r = RefTxn { ref_id: 1, acnt_id: 1 };
    assert_eq!(
        to_transactions(&records),
        Ok(vec![deposit, Transaction::Dispute(r), Transaction::Resolve(r)])
    );

    let records = vec![
        record("deposit", 1, 1, Some("10.0")),
        record("dispute", 1, 1, Some("1")),
        record("transfer", 1, 2, None),
    ];
    assert_eq!(
        to_transactions(&records),
        Err(InputTxnErr::ShouldHaveNoAmount)
    );
    assert_eq!(to_transactions(&vec![]), Ok(vec![]));
}

#[test]
fn cli_args_name_the_input_file() {
    let args = vec!["prog".to_string(), "input.csv".to_string()];
    let opts = parse_cli_args(&args).expect("input file given");
    assert_eq!(opts.input_file, "input.csv");
    assert!(matches!(opts.output, OutputMethod::StdOutput));
    assert!(parse_cli_args(&vec!["prog".to_string()]).is_none());
    assert!(parse_cli_args(&vec![]).is_none());
}

#[test]
fn test_input_file_path() {
    assert_eq!(_get_test_input_file("simple.csv"), "src/test/inputs/simple.csv");
}

#[test]
fn tst_parse_txns_csv() {
    // The records of the inputs `deposit,1,1,10.0` (read with or without a
    // header line), then deposit, dispute and resolve, then a deposit of
    // 0.12345.
    let txns = to_transactions(&vec![record("deposit", 1, 1, Some("10.0"))]).unwrap();
    assert_eq!(txns.len(), 1);
    let deposit = Transaction::Deposit(PureTxn {
        txn_id: 1,
        acnt_id: 1,
        amount: 100_000,
        disputed: false,
    });
    assert_eq!(txns[0], deposit);

    let txns = to_transactions(&vec![
        record("deposit", 1, 1, Some("10.0")),
        record("dispute", 1, 1, None),
        record("resolve", 1, 1, None),
    ])
    .unwrap();
    assert_eq!(txns.len(), 3);
    let dispute = Transaction::Dispute(RefTxn {
        ref_id: 1,
        acnt_id: 1,
    });
    let resolve = Transaction::Resolve(RefTxn {
        ref_id: 1,
        acnt_id: 1,
    });
    assert_eq!(txns[0], deposit);
    assert_eq!(txns[1], dispute);
    assert_eq!(txns[2], resolve);

    let deposit = Transaction::Deposit(PureTxn {
        txn_id: 1,
        acnt_id: 1,
        amount: 1234,
        disputed: false,
    });
    let txns = to_transactions(&vec![record("deposit", 1, 1, Some("0.12345"))]).unwrap();
    assert_eq!(txns[0], deposit, "Should have dropped to 4 decimal places");
}
