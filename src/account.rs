use vstd::prelude::*;
use vstd::string::StringExecFns;

use crate::money::{decimal_digits, money_text, push_decimal, push_money};

verus! {

/// Balance state of one client's account.
///
/// Balances are fixed-point values in ten-thousandths of a currency unit.
#[derive(Debug, Clone, Copy, PartialEq, Eq, Structural)]
pub struct Account {
    /// One account per client.
    pub id: u16,
    /// Funds available for withdrawal by the client.
    pub available: i128,
    /// Funds held because of disputes.
    pub held: i128,
    /// Set once a chargeback has been applied to the account.
    pub frozen: bool,
}

/// Mathematical model of an account: balances are unbounded integers.
pub struct AccountModel {
    pub id: u16,
    pub available: int,
    pub held: int,
    pub frozen: bool,
}

impl AccountModel {
    /// Total funds of the account: available plus held.
    pub open spec fn total(self) -> int {
        self.available + self.held
    }
}

impl View for Account {
    type V = AccountModel;

    open spec fn view(&self) -> AccountModel {
        AccountModel {
            id: self.id,
            available: self.available as int,
            held: self.held as int,
            frozen: self.frozen,
        }
    }
}

/// `true` or `false` as text.
pub open spec fn bool_text(b: bool) -> Seq<char> {
    if b {
        seq!['t', 'r', 'u', 'e']
    } else {
        seq!['f', 'a', 'l', 's', 'e']
    }
}

/// One output line for an account: `client,available,held,total,locked`,
/// amounts with exactly `PRECISION` fractional digits.
pub open spec fn account_text(a: AccountModel) -> Seq<char> {
    decimal_digits(a.id as nat) + seq![','] + money_text(a.available) + seq![','] + money_text(
        a.held,
    ) + seq![','] + money_text(a.total()) + seq![','] + bool_text(a.frozen)
}

impl Account {
    /// The total fits in the balance type.
    pub open spec fn total_fits(&self) -> bool {
        i128::MIN <= self.available + self.held <= i128::MAX
    }

    /// Total funds: available plus held.
    pub fn get_total(&self) -> (r: i128)
        requires
            self.total_fits(),
        ensures
            r == self@.total(),
    {
        self.available + self.held
    }

    /// The account as one line of text: id, available, held, total and the
    /// frozen flag, separated by commas.
    pub fn get_display_str(&self) -> (r: String)
        requires
            self.total_fits(),
        ensures
            r@ == account_text(self@),
    {
        let mut out = String::new();
        proof {
            reveal_strlit(",");
            reveal_strlit("true");
            reveal_strlit("false");
        }
        push_decimal(&mut out, self.id as u128);
        out.append(",");
        push_money(&mut out, self.available);
        out.append(",");
        push_money(&mut out, self.held);
        out.append(",");
        push_money(&mut out, self.get_total());
        out.append(",");
        if self.frozen {
            out.append("true");
        } else {
            out.append("false");
        }
        assert(out@ =~= account_text(self@));
        out
    }
}

} // verus!
