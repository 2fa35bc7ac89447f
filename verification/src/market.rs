//! The market snapshot model: one quote per instrument, raw fixed-point
//! fields, and the validation applied to a provider response before its data
//! replaces the current snapshot.

use vstd::prelude::*;
use crate::{MAX_MONEY, MAX_PCT};

verus! {

/// One instrument's latest quote. All numeric fields are raw fixed-point
/// values (millionths); absent fields stay absent and render as a sentinel.
pub struct Quote {
    pub price: i64,
    pub volume_24h: Option<i64>,
    pub volume_change_24h: Option<i64>,
    pub percent_change_1h: Option<i64>,
    pub percent_change_24h: Option<i64>,
    pub percent_change_7d: Option<i64>,
    pub percent_change_30d: Option<i64>,
    pub percent_change_90d: Option<i64>,
    pub market_cap: Option<i64>,
}

impl Quote {
    /// The fields that enter derived-value arithmetic stay within the ranges
    /// the products are proved for; sort-only fields are unconstrained.
    pub open spec fn wf(self) -> bool {
        &&& 0 <= self.price <= MAX_MONEY
        &&& (self.percent_change_24h is Some ==> -MAX_PCT <= self.percent_change_24h->0
            <= MAX_PCT)
    }
}

/// One snapshot entry: the provider's display name, ticker symbol, and the
/// latest quote in the conversion currency.
pub struct CryptoData {
    pub name: String,
    pub symbol: String,
    pub quote: Quote,
}

impl CryptoData {
    pub open spec fn wf(self) -> bool {
        self.quote.wf()
    }
}

/// A price-provider response status: zero means success.
pub struct Status {
    pub error_code: i32,
    pub error_message: Option<String>,
}

/// A full price-provider response: status plus the fetched snapshot entries.
pub struct CMCResponse {
    pub status: Status,
    pub data: Vec<CryptoData>,
}

/// Checks a provider response: a non-zero status code is an error carrying
/// the provider's message (empty when the provider sent none); on success
/// the snapshot entries are handed through unchanged.
pub fn validate_prices(resp: CMCResponse) -> (r: Result<Vec<CryptoData>, String>)
    ensures
        resp.status.error_code == 0 <==> r is Ok,
        r is Ok ==> r->Ok_0 == resp.data,
        r is Err ==> match resp.status.error_message {
            Some(m) => r->Err_0 == m,
            None => r->Err_0@.len() == 0,
        },
{
    if resp.status.error_code != 0 {
        match resp.status.error_message {
            Some(m) => Err(m),
            None => Err(String::new()),
        }
    } else {
        Ok(resp.data)
    }
}

/// The names of all configured tokens, in store order: the list handed to
/// the price fetcher.
pub fn token_names(config: &crate::config::Config) -> (r: Vec<String>)
    ensures
        r@.len() == config.tokens@.len(),
        forall|i: int| 0 <= i < r@.len() ==> #[trigger] r@[i]@ == config.tokens@[i].name@,
{
    let mut r: Vec<String> = Vec::new();
    let mut i: usize = 0;
    while i < config.tokens.len()
        invariant
            i <= config.tokens@.len(),
            r@.len() == i,
            forall|j: int| 0 <= j < i ==> #[trigger] r@[j]@ == config.tokens@[j].name@,
        decreases config.tokens@.len() - i,
    {
        r.push(config.tokens[i].name.clone());
        i = i + 1;
    }
    r
}

/// The names joined with single commas, in order: the query string the
/// provider expects.
pub open spec fn comma_joined(names: Seq<Seq<char>>) -> Seq<char>
    decreases names.len(),
{
    if names.len() == 0 {
        Seq::empty()
    } else if names.len() == 1 {
        names[0]
    } else {
        comma_joined(names.drop_last()) + seq![','] + names.last()
    }
}

/// Joins token names with commas for the provider's query parameter.
pub fn join_names(names: &Vec<String>) -> (r: String)
    ensures
        r@ == comma_joined(names@.map_values(|s: String| s@)),
{
    let ghost views = names@.map_values(|s: String| s@);
    let mut r = String::new();
    proof {
        reveal_strlit(",");
    }
    let mut i: usize = 0;
    while i < names.len()
        invariant
            i <= names@.len(),
            views == names@.map_values(|s: String| s@),
            ","@ == seq![','],
            r@ == comma_joined(views.take(i as int)),
        decreases names@.len() - i,
    {
        if i > 0 {
            r.append(",");
        }
        r.append(names[i].as_str());
        i = i + 1;
        proof {
            let t = views.take(i as int);
            assert(t.drop_last() =~= views.take(i as int - 1));
            assert(t.last() == views[i as int - 1]);
            if i == 1 {
                assert(r@ =~= comma_joined(t));
            } else {
                assert(r@ =~= comma_joined(t));
            }
        }
    }
    proof {
        assert(views.take(names@.len() as int) =~= views);
    }
    r
}

} // verus!
