//! Player accounts.

use vstd::prelude::*;

verus! {

/// A player's account: wallet addresses and balance.
pub struct Account {
    pub user_id: String,
    pub in_wallet: Option<String>,
    pub out_wallet: Option<String>,
    pub balance: i64,
}

impl Account {
    /// The account of `user_id`; a new one has no wallets and a zero balance.
    pub fn find_or_new(user_id: &str) -> (a: Account)
        ensures
            a.user_id@ == user_id@,
            a.in_wallet is None,
            a.out_wallet is None,
            a.balance == 0,
    {
        Account { user_id: String::from_str(user_id), in_wallet: None, out_wallet: None, balance: 0 }
    }
}

} // verus!
