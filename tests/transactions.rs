use payments_engine::account::Account;
use payments_engine::engine::PaymentsEngine;
use payments_engine::ledger::TxnErrors;
use payments_engine::money::SCALE;
use payments_engine::transaction::{PureTxn, RefTxn, Transaction};

fn init_txn_test_objects() -> (PaymentsEngine, PureTxn) {
    let payments_engine = PaymentsEngine::new();
    let txn = PureTxn {
        txn_id: 1,
        acnt_id: 1,
        amount: units(10),
        disputed: false,
    };
    (payments_engine, txn)
}

fn units(n: i64) -> i64 {
    n * SCALE as i64
}

fn balance_units(n: i128) -> i128 {
    n * SCALE
}

#[test]
fn transactions_tst_process_deposit() {
    let (mut payments_engine, txn) = init_txn_test_objects();
    let res = payments_engine.process_deposit(&txn);
    assert!(res.is_ok(), "Should pass if account doesn't exist");
    assert_eq!(payments_engine.accounts().len(), 1);
    assert_eq!(payments_engine.num_indexed_accounts(), 1);
    assert_eq!(payments_engine.transactions().len(), 1);
    assert_eq!(payments_engine.num_indexed_txns(), 1);
    assert_eq!(
        payments_engine.accounts()[0],
        Account {
            id: 1,
            available: balance_units(10),
            held: 0,
            frozen: false
        },
        "Should get initial values from deposit"
    );

    let res = payments_engine.process_deposit(&txn);
    match res {
        Ok(_) => panic!("Should be invalid deposit due to TxnIdAlreadyExists"),

        Err(e) => assert_eq!(e, TxnErrors::TxnIdAlreadyExists, "Invalid error type"),
    }

    let txn = PureTxn {
        txn_id: 2,
        acnt_id: 1,
        amount: units(10),
        disputed: false,
    };
    let res = payments_engine.process_deposit(&txn);
    assert!(res.is_ok(), "Should pass if account already exists");
    assert_eq!(payments_engine.accounts().len(), 1);
    assert_eq!(payments_engine.num_indexed_accounts(), 1);
    assert_eq!(payments_engine.transactions().len(), 2);
    assert_eq!(payments_engine.num_indexed_txns(), 2);
    assert_eq!(
        payments_engine.accounts()[0],
        Account {
            id: 1,
            available: balance_units(20),
            held: 0,
            frozen: false
        },
        "Should add to account 1"
    );

    payments_engine.set_account_frozen(0, true);
    let txn = PureTxn {
        txn_id: 3,
        acnt_id: 1,
        amount: units(10),
        disputed: true,
    };
    let res = payments_engine.process_deposit(&txn);
    match res {
        Ok(_) => {
            panic!("Should be invalid deposit due to AccountFrozen")
        }
        Err(e) => assert_eq!(e, TxnErrors::AccountFrozen, "Invalid error type"),
    }
}

#[test]
fn transactions_tst_process_withdrawl() {
    let mut payments_engine = PaymentsEngine::new();
    let mut txn = PureTxn {
        txn_id: 1,
        acnt_id: 1,
        amount: units(10),
        disputed: false,
    };
    let res = payments_engine.process_withdrawl(&txn);

    match res {
        Ok(_) => panic!("Should err since account dne"),

        Err(e) => assert_eq!(e, TxnErrors::AccountDoesNotExist, "Invalid error type"),
    }

    let _ = payments_engine.process_deposit(&txn);

    let res = payments_engine.process_withdrawl(&txn);
    match res {
        Ok(_) => panic!("Should err since account TxnIdAlreadyExists"),

        Err(e) => assert_eq!(e, TxnErrors::TxnIdAlreadyExists, "Invalid error type"),
    }

    txn.txn_id = 2;
    txn.amount = units(20);
    let res = payments_engine.process_withdrawl(&txn);
    match res {
        Ok(_) => panic!("Should err since account AccountLacksFunds"),

        Err(e) => assert_eq!(e, TxnErrors::AccountLacksFunds, "Invalid error type"),
    }

    txn.amount = units(5);
    let res = payments_engine.process_withdrawl(&txn);
    assert!(res.is_ok(), "Should be valid withdrawl");
    assert_eq!(
        balance_units(5),
        payments_engine.accounts()[0].get_total(),
        "Should equal 5 'deposit amount - withdrawl' amount"
    );

    payments_engine.set_account_frozen(0, true);
    txn.txn_id = 3;
    txn.amount = units(1);
    let res = payments_engine.process_deposit(&txn);
    match res {
        Ok(_) => panic!("Should err since account AccountFrozen"),
        Err(e) => assert_eq!(e, TxnErrors::AccountFrozen, "Invalid error type"),
    }
}

#[test]
fn transactions_tst_get_ref_txn_indicies() {
    let mut payments_engine = PaymentsEngine::new();
    let txn = PureTxn {
        txn_id: 1,
        acnt_id: 1,
        amount: units(10),
        disputed: false,
    };
    let _ = payments_engine.process_deposit(&txn);

    let mut ref_txn = RefTxn {
        ref_id: 1,
        acnt_id: 2,
    };
    let res = payments_engine.get_ref_txn_indicies(&ref_txn);
    match res {
        Ok(_) => panic!("Should err since account dne"),
        Err(e) => assert_eq!(e, TxnErrors::AccountDoesNotExist, "Invalid error type"),
    }

    ref_txn.acnt_id = 1;
    payments_engine.set_account_frozen(0, true);
    let res = payments_engine.get_ref_txn_indicies(&ref_txn);
    match res {
        Ok(_) => panic!("Should err since AccountFrozen"),
        Err(e) => assert_eq!(e, TxnErrors::AccountFrozen, "Invalid error type"),
    }

    ref_txn.ref_id = 3;
    payments_engine.set_account_frozen(0, false);
    let res = payments_engine.get_ref_txn_indicies(&ref_txn);
    match res {
        Ok(_) => panic!("Should err since TxnIdDoesNotExist"),
        Err(e) => assert_eq!(e, TxnErrors::TxnIdDoesNotExist, "Invalid error type"),
    }

    ref_txn.ref_id = 1;
    let res = payments_engine.get_ref_txn_indicies(&ref_txn);
    assert!(res.is_ok(), "Should be valid RefTxn");
    assert_eq!(
        (0, 0),
        res.unwrap(),
        "Should be point to acnt & txn indices"
    );
}

#[test]
fn transactions_tst_process_dispute_txn() {
    let (mut payments_engine, mut txn) = init_txn_test_objects();
    let _ = payments_engine.process_deposit(&txn);

    let ref_txn = RefTxn {
        ref_id: 1,
        acnt_id: 1,
    };
    let res = payments_engine.process_dispute(&ref_txn);
    assert!(res.is_ok(), "Should be valid RefTxn");
    assert_eq!(
        payments_engine.transactions().len(),
        2,
        "Should add to transactions list"
    );
    assert_eq!(
        payments_engine.num_indexed_txns(),
        1,
        "Should not add to txn lookup"
    );
    txn.disputed = true;
    match payments_engine.transactions()[0].clone() {
        Transaction::Deposit(processed_txn) => {
            assert_eq!(processed_txn, txn, "Transaction should be disputed")
        }
        _ => panic!("Transaction order should not have changed"),
    }
    assert_eq!(
        payments_engine.accounts()[0],
        Account {
            id: 1,
            available: 0,
            held: balance_units(10),
            frozen: false
        },
        "Account should be unfrozen & funds in held"
    );

    let res = payments_engine.process_dispute(&ref_txn);
    match res {
        Ok(_) => panic!("Should err since TxnAlreadyDisputed"),
        Err(e) => assert_eq!(e, TxnErrors::TxnAlreadyDisputed, "Invalid error type"),
    }
}

#[test]
fn transactions_tst_process_resolve_txn() {
    let (mut payments_engine, mut txn) = init_txn_test_objects();

    let _ = payments_engine.process_deposit(&txn);

    let ref_txn = RefTxn {
        ref_id: 1,
        acnt_id: 1,
    };
    let res = payments_engine.process_resolve(&ref_txn);
    match res {
        Ok(_) => panic!("Should err since TxnMustBeDisputed"),
        Err(e) => assert_eq!(e, TxnErrors::TxnMustBeDisputed, "Invalid error type"),
    }

    let _ = payments_engine.process_dispute(&ref_txn);

    // Testing successful run
    let res = payments_engine.process_resolve(&ref_txn);
    assert!(res.is_ok(), "Should be valid RefTxn");
    assert_eq!(
        payments_engine.transactions().len(),
        3,
        "RefTxns should add to transactions list"
    );
    assert_eq!(
        payments_engine.num_indexed_txns(),
        1,
        "RefTxns should not add to txn lookup"
    );
    txn.disputed = false;
    match payments_engine.transactions()[0].clone() {
        Transaction::Deposit(processed_txn) => {
            assert_eq!(processed_txn, txn, "Transaction should be not be disputed")
        }
        _ => panic!("Transaction order should not have changed"),
    }
    assert_eq!(
        payments_engine.accounts()[0],
        Account {
            id: 1,
            available: balance_units(10),
            held: 0,
            frozen: false
        },
        "Account should be undisputed & funds in available"
    );
}

#[test]
fn transactions_tst_process_chargeback_txn() {
    let (mut payments_engine, mut txn) = init_txn_test_objects();

    let _ = payments_engine.process_deposit(&txn);

    let ref_txn = RefTxn {
        ref_id: 1,
        acnt_id: 1,
    };
    let res = payments_engine.process_chargeback(&ref_txn);
    match res {
        Ok(_) => panic!("Should err since TxnMustBeDisputed"),
        Err(e) => assert_eq!(e, TxnErrors::TxnMustBeDisputed, "Invalid error type"),
    }

    let _ = payments_engine.process_dispute(&ref_txn);

    // Testing successful run
    let res = payments_engine.process_chargeback(&ref_txn);
    assert!(res.is_ok(), "Should be valid RefTxn");
    assert_eq!(
        payments_engine.transactions().len(),
        3,
        "RefTxns should add to transactions list"
    );
    assert_eq!(
        payments_engine.num_indexed_txns(),
        1,
        "RefTxns should not add to txn lookup"
    );
    txn.disputed = false;
    match payments_engine.transactions()[0].clone() {
        Transaction::Deposit(processed_txn) => {
            assert_eq!(processed_txn, txn, "Transaction should be not be disputed")
        }
        _ => panic!("Transaction order should not have changed"),
    }
    assert_eq!(
        payments_engine.accounts()[0],
        Account {
            id: 1,
            available: 0,
            held: 0,
            frozen: true
        },
        "Account should be frozen, no longer disputed, & funds charged back"
    )
}
