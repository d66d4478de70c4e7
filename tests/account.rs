use payments_engine::account::Account;
use payments_engine::money::{format_money, SCALE};

fn whole(n: i128) -> i128 {
    n * SCALE
}

#[test]
fn tst_get_total() {
    let accnt = Account {
        id: 1,
        available: whole(10),
        held: whole(5),
        frozen: false,
    };
    assert_eq!(accnt.get_total(), whole(15));
}

#[test]
fn tst_print_std_out() {
    let accnt = Account {
        id: 1,
        available: whole(10),
        held: whole(5),
        frozen: false,
    };
    assert_eq!(accnt.get_display_str(), "1,10.0000,5.0000,15.0000,false");
}

#[test]
fn display_str_of_frozen_account_with_negative_available() {
    let accnt = Account {
        id: 65535,
        available: -55_000,
        held: 1,
        frozen: true,
    };
    assert_eq!(
        accnt.get_display_str(),
        "65535,-5.5000,0.0001,-5.4999,true"
    );
}

#[test]
fn total_of_negative_available() {
    let accnt = Account {
        id: 2,
        available: -whole(3),
        held: whole(10),
        frozen: false,
    };
    assert_eq!(accnt.get_total(), whole(7));
}

#[test]
fn format_money_pads_four_fraction_digits() {
    assert_eq!(format_money(0), "0.0000");
    assert_eq!(format_money(1), "0.0001");
    assert_eq!(format_money(whole(10)), "10.0000");
    assert_eq!(format_money(1_234_567), "123.4567");
    assert_eq!(format_money(-1), "-0.0001");
    assert_eq!(format_money(-55_000), "-5.5000");
}

#[test]
fn format_money_extremes() {
    assert_eq!(
        format_money(i128::MAX),
        "17014118346046923173168730371588410.5727"
    );
    assert_eq!(
        format_money(i128::MIN),
        "-17014118346046923173168730371588410.5728"
    );
}
