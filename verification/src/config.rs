//! The configuration store: the user's declared watchlist and portfolio
//! entries. Amounts are fixed-point raw values (millionths of a unit).

use vstd::prelude::*;
use crate::MAX_MONEY;

verus! {

/// Default used when a membership flag is absent from a stored entry.
pub fn default_true() -> (r: bool)
    ensures
        r,
{
    true
}

/// One watchlist/portfolio entry. `owned` and `avg_buy_price` are raw
/// fixed-point values (millionths of a unit), present only for portfolio
/// positions that recorded them.
pub struct TokenConfig {
    pub name: String,
    pub owned: Option<i64>,
    pub avg_buy_price: Option<i64>,
    pub in_watchlist: bool,
    pub in_portfolio: bool,
}

impl TokenConfig {
    /// Amounts, when present, are non-negative and small enough that every
    /// derived product fits in `i128`.
    pub open spec fn wf(self) -> bool {
        &&& (self.owned is Some ==> 0 <= self.owned->0 <= MAX_MONEY)
        &&& (self.avg_buy_price is Some ==> 0 <= self.avg_buy_price->0 <= MAX_MONEY)
    }

    /// An entry belongs to portfolio views when the portfolio flag is set or
    /// a positive owned amount is recorded.
    pub open spec fn spec_is_in_portfolio(self) -> bool {
        self.in_portfolio || (self.owned is Some && self.owned->0 > 0)
    }

    pub fn is_in_portfolio(&self) -> (r: bool)
        ensures
            r == self.spec_is_in_portfolio(),
    {
        self.in_portfolio || (match self.owned {
            Some(v) => v > 0,
            None => false,
        })
    }

    pub open spec fn spec_is_in_watchlist(self) -> bool {
        self.in_watchlist
    }

    pub fn is_in_watchlist(&self) -> (r: bool)
        ensures
            r == self.spec_is_in_watchlist(),
    {
        self.in_watchlist
    }

    /// An entry with neither membership flag set is a zombie: the store-wide
    /// invariant removes it.
    pub open spec fn has_membership(self) -> bool {
        self.in_watchlist || self.in_portfolio
    }
}

/// The persisted configuration: API key, entries, polling interval in
/// seconds, and the history length requested from the fear/greed provider.
pub struct Config {
    pub api_key: String,
    pub tokens: Vec<TokenConfig>,
    pub refresh_interval: u64,
    pub fear_and_greed_limit: String,
}

impl Config {
    pub open spec fn wf(self) -> bool {
        forall|i: int| 0 <= i < self.tokens@.len() ==> (#[trigger] self.tokens@[i]).wf()
    }

    /// The store-wide invariant: no entry has both membership flags clear.
    pub open spec fn no_zombies(self) -> bool {
        forall|i: int| 0 <= i < self.tokens@.len() ==> (#[trigger] self.tokens@[i]).has_membership()
    }
}

} // verus!
