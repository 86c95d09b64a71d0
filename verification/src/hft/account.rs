use vstd::prelude::*;

use crate::domain::portfolio::Portfolio;
use crate::domain::user::User;

verus! {

/// The arbitrage trader: a user with a portfolio, and the cash it started with.
#[derive(Debug)]
pub struct HftUser {
    pub user: User,
    pub portfolio: Portfolio,
    pub initial_cash_paisa: u64,
}

/// The starting capital of the arbitrage trader: one billion rupees, in paisa.
pub open spec fn billion_rupees_paisa() -> u64 {
    100_000_000_000
}

impl HftUser {
    /// A trader with one billion rupees and no shares, trading on account "999".
    pub fn new_with_billion_capital(user_id: String, name: String) -> (h: Self)
        ensures
            h.user.0.id == user_id,
            h.user.0.name == name,
            h.portfolio.user == h.user,
            h.portfolio.acc_no@ == "999"@,
            h.portfolio.balance_paisa == billion_rupees_paisa(),
            h.portfolio.open_orders@.len() == 0,
            h.portfolio.holdings@.len() == 0,
            h.initial_cash_paisa == billion_rupees_paisa(),
    {
        let user = User::new(user_id, name);
        let initial_cash_paisa = 100_000_000_000u64;
        let portfolio = Portfolio::new(user.clone(), String::from_str("999"), initial_cash_paisa);
        Self { user, portfolio, initial_cash_paisa }
    }

    /// A trader with `balance_paisa` paisa of cash, which is also the cash it
    /// starts with, and no shares, trading on account "999".
    pub fn new_with_balance(user_id: String, name: String, balance_paisa: u64) -> (h: Self)
        ensures
            h.user.0.id == user_id,
            h.user.0.name == name,
            h.portfolio.user == h.user,
            h.portfolio.acc_no@ == "999"@,
            h.portfolio.balance_paisa == balance_paisa,
            h.portfolio.open_orders@.len() == 0,
            h.portfolio.holdings@.len() == 0,
            h.initial_cash_paisa == balance_paisa,
    {
        let user = User::new(user_id, name);
        let portfolio = Portfolio::new(user.clone(), String::from_str("999"), balance_paisa);
        Self { user, portfolio, initial_cash_paisa: balance_paisa }
    }

    /// The account the trader's orders are placed on.
    pub fn account_number(&self) -> (r: String)
        ensures
            r == self.portfolio.acc_no,
    {
        self.portfolio.acc_no.clone()
    }

    /// The cash balance, in paisa.
    pub fn cash_balance_paisa(&self) -> (r: u64)
        ensures
            r == self.portfolio.balance_paisa,
    {
        self.portfolio.balance_paisa
    }

    /// Profit so far: the cash balance minus the starting cash, in paisa, each
    /// taken as an `i64`.
    pub fn realized_pnl_paisa(&self) -> (r: i64)
        requires
            i64::MIN <= (self.portfolio.balance_paisa as i64) - (self.initial_cash_paisa as i64) <= i64::MAX,
        ensures
            r == (self.portfolio.balance_paisa as i64) - (self.initial_cash_paisa as i64),
    {
        (self.portfolio.balance_paisa as i64) - (self.initial_cash_paisa as i64)
    }

    /// The shares held of `symbol`, as an `i64`.
    pub fn total_shares(&self, symbol: &str) -> (r: i64)
        requires
            self.portfolio.shares_of(symbol@) <= u64::MAX,
        ensures
            r == (self.portfolio.shares_of(symbol@) as u64) as i64,
    {
        self.portfolio.total_shares(symbol) as i64
    }
}

} // verus!
