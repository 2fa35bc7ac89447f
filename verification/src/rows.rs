//! The row model behind the tables: configuration entries joined with
//! snapshot entries by normalized name, with the portfolio's derived values
//! computed per row.

use vstd::prelude::*;
use crate::config::{Config, TokenConfig};
use crate::market::CryptoData;
use crate::text::join_eq;
use crate::{MAX_MONEY, MAX_PCT, SCALE};

verus! {

/// One table row. Watchlist rows carry a zero position; portfolio rows
/// carry the position and the values derived from it. All amounts are raw
/// fixed-point values (millionths), the derived ones in `i128`.
pub struct Row {
    pub symbol: String,
    pub price: i64,
    pub change_1h: Option<i64>,
    pub change_24h: Option<i64>,
    pub change_7d: Option<i64>,
    pub change_30d: Option<i64>,
    pub change_90d: Option<i64>,
    pub volume_24h: Option<i64>,
    pub volume_change_24h: Option<i64>,
    pub market_cap: Option<i64>,
    pub holdings: i64,
    pub avg_buy: i64,
    pub current_value: i128,
    pub cost_basis: i128,
    pub profit_loss: i128,
    pub profit_loss_pct: i128,
}

/// Integer division rounding toward zero, for a positive divisor.
pub open spec fn div_toward_zero(a: int, b: int) -> int {
    if a >= 0 {
        a / b
    } else {
        -((-a) / b)
    }
}

/// A position's current value: holdings times price, in raw millionths.
pub open spec fn current_value_of(holdings: int, price: int) -> int {
    holdings * price / (SCALE as int)
}

/// Profit or loss in percent (raw millionths of a percent), zero when the
/// cost basis is zero so that no row can divide by zero.
pub open spec fn pl_pct_of(cv: int, cb: int) -> int {
    if cb > 0 {
        div_toward_zero((cv - cb) * 100_000_000, cb)
    } else {
        0
    }
}

impl Row {
    /// Inputs in range and every derived field equal to its defining
    /// formula.
    pub open spec fn wf(self) -> bool {
        &&& 0 <= self.holdings <= MAX_MONEY
        &&& 0 <= self.avg_buy <= MAX_MONEY
        &&& 0 <= self.price <= MAX_MONEY
        &&& (self.change_24h is Some ==> -MAX_PCT <= self.change_24h->0 <= MAX_PCT)
        &&& self.current_value == current_value_of(self.holdings as int, self.price as int)
        &&& self.cost_basis == current_value_of(self.holdings as int, self.avg_buy as int)
        &&& self.profit_loss == self.current_value - self.cost_basis
        &&& self.profit_loss_pct == pl_pct_of(self.current_value as int, self.cost_basis as int)
    }
}

/// Bounds on a well-formed row's derived values, from the input ranges.
pub proof fn lemma_row_bounds(r: Row)
    requires
        r.wf(),
    ensures
        0 <= r.current_value <= 1_000_000_000_000_000_000_000_000int,
        0 <= r.cost_basis <= 1_000_000_000_000_000_000_000_000int,
        -1_000_000_000_000_000_000_000_000int <= r.profit_loss <= 1_000_000_000_000_000_000_000_000int,
{
    lemma_cv_bounds(r.holdings as int, r.price as int);
    lemma_cv_bounds(r.holdings as int, r.avg_buy as int);
}

/// `current_value_of` of in-range inputs lies in `[0, 10^24]`.
pub proof fn lemma_cv_bounds(h: int, p: int)
    requires
        0 <= h <= MAX_MONEY,
        0 <= p <= MAX_MONEY,
    ensures
        0 <= current_value_of(h, p) <= 1_000_000_000_000_000_000_000_000int,
{
    assert(h * p >= 0) by {
        vstd::arithmetic::mul::lemma_mul_nonnegative(h, p);
    }
    assert(h * p <= 1_000_000_000_000_000int * 1_000_000_000_000_000int) by {
        vstd::arithmetic::mul::lemma_mul_upper_bound(
            h,
            1_000_000_000_000_000int,
            p,
            1_000_000_000_000_000int,
        );
    }
    vstd::arithmetic::div_mod::lemma_div_pos_is_pos(h * p, SCALE as int);
    vstd::arithmetic::div_mod::lemma_div_is_ordered(
        h * p,
        1_000_000_000_000_000int * 1_000_000_000_000_000int,
        SCALE as int,
    );
}

/// Computes `a * b / SCALE` for non-negative in-range factors.
fn mul_div_scale(a: i64, b: i64) -> (r: i128)
    requires
        0 <= a <= MAX_MONEY,
        0 <= b <= MAX_MONEY,
    ensures
        r as int == current_value_of(a as int, b as int),
{
    proof {
        lemma_cv_bounds(a as int, b as int);
        assert(a as u128 * b as u128 <= 1_000_000_000_000_000u128 * 1_000_000_000_000_000u128)
            by {
            vstd::arithmetic::mul::lemma_mul_upper_bound(
                a as int,
                1_000_000_000_000_000int,
                b as int,
                1_000_000_000_000_000int,
            );
        }
    }
    let prod: u128 = (a as u128) * (b as u128);
    let q: u128 = prod / 1_000_000u128;
    proof {
        vstd::arithmetic::div_mod::lemma_div_is_ordered(
            prod as int,
            1_000_000_000_000_000int * 1_000_000_000_000_000int,
            1_000_000int,
        );
        vstd::arithmetic::div_mod::lemma_div_pos_is_pos(prod as int, 1_000_000int);
    }
    q as i128
}

/// Computes `pl_pct_of(cv, cb)` on derived values of a well-formed row.
fn pl_pct_exec(cv: i128, cb: i128) -> (r: i128)
    requires
        0 <= cv <= 1_000_000_000_000_000_000_000_000,
        0 <= cb <= 1_000_000_000_000_000_000_000_000,
    ensures
        r as int == pl_pct_of(cv as int, cb as int),
{
    if cb > 0 {
        let pl = cv - cb;
        let neg = pl < 0;
        let mag: u128 = if neg {
            (-pl) as u128
        } else {
            pl as u128
        };
        let num: u128 = mag * 100_000_000u128;
        proof {
            assert(mag <= 1_000_000_000_000_000_000_000_000u128);
            assert(num == mag * 100_000_000) by {
                vstd::arithmetic::mul::lemma_mul_upper_bound(
                    mag as int,
                    1_000_000_000_000_000_000_000_000int,
                    100_000_000int,
                    100_000_000int,
                );
            }
        }
        let q: u128 = num / (cb as u128);
        proof {
            vstd::arithmetic::div_mod::lemma_div_is_ordered(q as int, num as int, 1int);
            vstd::arithmetic::div_mod::lemma_div_nonincreasing(num as int, cb as int);
            vstd::arithmetic::div_mod::lemma_div_pos_is_pos(num as int, cb as int);
        }
        if neg {
            -(q as i128)
        } else {
            q as i128
        }
    } else {
        0
    }
}

/// The row a snapshot entry makes in the watchlist table: quote fields
/// only, an empty position.
pub open spec fn watch_row(c: CryptoData) -> Row {
    Row {
        symbol: c.symbol,
        price: c.quote.price,
        change_1h: c.quote.percent_change_1h,
        change_24h: c.quote.percent_change_24h,
        change_7d: c.quote.percent_change_7d,
        change_30d: c.quote.percent_change_30d,
        change_90d: c.quote.percent_change_90d,
        volume_24h: c.quote.volume_24h,
        volume_change_24h: c.quote.volume_change_24h,
        market_cap: c.quote.market_cap,
        holdings: 0,
        avg_buy: 0,
        current_value: 0,
        cost_basis: 0,
        profit_loss: 0,
        profit_loss_pct: 0,
    }
}

/// The row a configuration entry joined with a snapshot entry makes in the
/// portfolio table: an absent owned amount or buy price counts as zero.
pub open spec fn portfolio_row(t: TokenConfig, c: CryptoData) -> Row {
    let h: int = if t.owned is Some {
        t.owned->0 as int
    } else {
        0
    };
    let ab: int = if t.avg_buy_price is Some {
        t.avg_buy_price->0 as int
    } else {
        0
    };
    let cv = current_value_of(h, c.quote.price as int);
    let cb = current_value_of(h, ab);
    Row {
        symbol: c.symbol,
        price: c.quote.price,
        change_1h: c.quote.percent_change_1h,
        change_24h: c.quote.percent_change_24h,
        change_7d: c.quote.percent_change_7d,
        change_30d: c.quote.percent_change_30d,
        change_90d: c.quote.percent_change_90d,
        volume_24h: c.quote.volume_24h,
        volume_change_24h: c.quote.volume_change_24h,
        market_cap: c.quote.market_cap,
        holdings: h as i64,
        avg_buy: ab as i64,
        current_value: cv as i128,
        cost_basis: cb as i128,
        profit_loss: (cv - cb) as i128,
        profit_loss_pct: pl_pct_of(cv, cb) as i128,
    }
}

fn make_watch_row(c: &CryptoData) -> (r: Row)
    requires
        c.wf(),
    ensures
        r == watch_row(*c),
        r.wf(),
{
    Row {
        symbol: c.symbol.clone(),
        price: c.quote.price,
        change_1h: c.quote.percent_change_1h,
        change_24h: c.quote.percent_change_24h,
        change_7d: c.quote.percent_change_7d,
        change_30d: c.quote.percent_change_30d,
        change_90d: c.quote.percent_change_90d,
        volume_24h: c.quote.volume_24h,
        volume_change_24h: c.quote.volume_change_24h,
        market_cap: c.quote.market_cap,
        holdings: 0,
        avg_buy: 0,
        current_value: 0,
        cost_basis: 0,
        profit_loss: 0,
        profit_loss_pct: 0,
    }
}

fn make_portfolio_row(t: &TokenConfig, c: &CryptoData) -> (r: Row)
    requires
        t.wf(),
        c.wf(),
    ensures
        r == portfolio_row(*t, *c),
        r.wf(),
{
    let h: i64 = match t.owned {
        Some(v) => v,
        None => 0,
    };
    let ab: i64 = match t.avg_buy_price {
        Some(v) => v,
        None => 0,
    };
    let cv = mul_div_scale(h, c.quote.price);
    let cb = mul_div_scale(h, ab);
    proof {
        lemma_cv_bounds(h as int, c.quote.price as int);
        lemma_cv_bounds(h as int, ab as int);
    }
    let pl = cv - cb;
    let pl_pct = pl_pct_exec(cv, cb);
    Row {
        symbol: c.symbol.clone(),
        price: c.quote.price,
        change_1h: c.quote.percent_change_1h,
        change_24h: c.quote.percent_change_24h,
        change_7d: c.quote.percent_change_7d,
        change_30d: c.quote.percent_change_30d,
        change_90d: c.quote.percent_change_90d,
        volume_24h: c.quote.volume_24h,
        volume_change_24h: c.quote.volume_change_24h,
        market_cap: c.quote.market_cap,
        holdings: h,
        avg_buy: ab,
        current_value: cv,
        cost_basis: cb,
        profit_loss: pl,
        profit_loss_pct: pl_pct,
    }
}

/// Whether some watchlist entry matches a snapshot entry under the join.
pub open spec fn watch_match(tokens: Seq<TokenConfig>, c: CryptoData) -> bool {
    exists|i: int|
        0 <= i < tokens.len() && (#[trigger] tokens[i]).spec_is_in_watchlist() && join_eq(
            tokens[i].name@,
            c.name@,
        )
}

fn watch_match_exec(tokens: &Vec<TokenConfig>, c: &CryptoData) -> (r: bool)
    ensures
        r == watch_match(tokens@, *c),
{
    let mut i: usize = 0;
    while i < tokens.len()
        invariant
            i <= tokens@.len(),
            forall|j: int|
                0 <= j < i ==> !((#[trigger] tokens@[j]).spec_is_in_watchlist() && join_eq(
                    tokens@[j].name@,
                    c.name@,
                )),
        decreases tokens@.len() - i,
    {
        if tokens[i].is_in_watchlist() && crate::text::join_matches(
            tokens[i].name.as_str(),
            c.name.as_str(),
        ) {
            return true;
        }
        i = i + 1;
    }
    false
}

/// The watchlist rows a snapshot yields: every entry that some watchlist
/// token matches, in snapshot order.
pub open spec fn watch_rows_spec(tokens: Seq<TokenConfig>, data: Seq<CryptoData>) -> Seq<Row>
    decreases data.len(),
{
    if data.len() == 0 {
        Seq::empty()
    } else {
        let rest = watch_rows_spec(tokens, data.drop_last());
        if watch_match(tokens, data.last()) {
            rest.push(watch_row(data.last()))
        } else {
            rest
        }
    }
}

/// Builds the watchlist rows from the configuration and the snapshot.
pub fn watchlist_rows(config: &Config, data: &Vec<CryptoData>) -> (r: Vec<Row>)
    requires
        forall|i: int| 0 <= i < data@.len() ==> (#[trigger] data@[i]).wf(),
    ensures
        r@ == watch_rows_spec(config.tokens@, data@),
        forall|i: int| 0 <= i < r@.len() ==> (#[trigger] r@[i]).wf(),
{
    let mut r: Vec<Row> = Vec::new();
    let mut i: usize = 0;
    while i < data.len()
        invariant
            i <= data@.len(),
            forall|j: int| 0 <= j < data@.len() ==> (#[trigger] data@[j]).wf(),
            r@ == watch_rows_spec(config.tokens@, data@.take(i as int)),
            forall|j: int| 0 <= j < r@.len() ==> (#[trigger] r@[j]).wf(),
        decreases data@.len() - i,
    {
        proof {
            assert(data@.take(i as int + 1).drop_last() =~= data@.take(i as int));
            assert(data@.take(i as int + 1).last() == data@[i as int]);
        }
        if watch_match_exec(&config.tokens, &data[i]) {
            let row = make_watch_row(&data[i]);
            r.push(row);
        }
        i = i + 1;
    }
    proof {
        assert(data@.take(data@.len() as int) =~= data@);
    }
    r
}

/// First snapshot entry whose name matches under the join, or -1.
pub open spec fn find_match(data: Seq<CryptoData>, name: Seq<char>) -> int
    decreases data.len(),
{
    if data.len() == 0 {
        -1
    } else if join_eq(name, data[0].name@) {
        0
    } else {
        let r = find_match(data.drop_first(), name);
        if r < 0 {
            -1
        } else {
            r + 1
        }
    }
}

pub proof fn lemma_find_match(data: Seq<CryptoData>, name: Seq<char>)
    ensures
        find_match(data, name) >= 0 ==> find_match(data, name) < data.len() && join_eq(
            name,
            data[find_match(data, name)].name@,
        ),
        find_match(data, name) >= 0 ==> forall|i: int|
            0 <= i < find_match(data, name) ==> !join_eq(name, (#[trigger] data[i]).name@),
        find_match(data, name) < 0 ==> forall|i: int|
            0 <= i < data.len() ==> !join_eq(name, (#[trigger] data[i]).name@),
    decreases data.len(),
{
    if data.len() > 0 && !join_eq(name, data[0].name@) {
        lemma_find_match(data.drop_first(), name);
        let r = find_match(data.drop_first(), name);
        if r >= 0 {
            assert forall|i: int|
                0 <= i < r + 1 implies !join_eq(name, (#[trigger] data[i]).name@) by {
                if i > 0 {
                    assert(data.drop_first()[i - 1] == data[i]);
                }
            }
        } else {
            assert forall|i: int|
                0 <= i < data.len() implies !join_eq(name, (#[trigger] data[i]).name@) by {
                if i > 0 {
                    assert(data.drop_first()[i - 1] == data[i]);
                }
            }
        }
    }
}

fn find_match_exec(data: &Vec<CryptoData>, name: &str) -> (r: Option<usize>)
    ensures
        r is Some ==> r->0 as int == find_match(data@, name@),
        r is None ==> find_match(data@, name@) < 0,
{
    proof {
        lemma_find_match(data@, name@);
    }
    let mut i: usize = 0;
    while i < data.len()
        invariant
            i <= data@.len(),
            forall|j: int| 0 <= j < i ==> !join_eq(name@, (#[trigger] data@[j]).name@),
        decreases data@.len() - i,
    {
        if crate::text::join_matches(name, data[i].name.as_str()) {
            proof {
                lemma_find_match(data@, name@);
            }
            return Some(i);
        }
        i = i + 1;
    }
    None
}

/// The portfolio rows the store and a snapshot yield: every portfolio entry
/// whose name the join matches to a snapshot entry, in store order, each
/// joined with the first match.
pub open spec fn portfolio_rows_spec(tokens: Seq<TokenConfig>, data: Seq<CryptoData>) -> Seq<
    Row,
>
    decreases tokens.len(),
{
    if tokens.len() == 0 {
        Seq::empty()
    } else {
        let rest = portfolio_rows_spec(tokens.drop_last(), data);
        let t = tokens.last();
        if t.spec_is_in_portfolio() && find_match(data, t.name@) >= 0 {
            rest.push(portfolio_row(t, data[find_match(data, t.name@)]))
        } else {
            rest
        }
    }
}

/// Builds the portfolio rows from the configuration and the snapshot.
pub fn portfolio_rows(config: &Config, data: &Vec<CryptoData>) -> (r: Vec<Row>)
    requires
        config.wf(),
        forall|i: int| 0 <= i < data@.len() ==> (#[trigger] data@[i]).wf(),
    ensures
        r@ == portfolio_rows_spec(config.tokens@, data@),
        forall|i: int| 0 <= i < r@.len() ==> (#[trigger] r@[i]).wf(),
{
    let tokens = &config.tokens;
    let mut r: Vec<Row> = Vec::new();
    let mut i: usize = 0;
    while i < tokens.len()
        invariant
            i <= tokens@.len(),
            config.wf(),
            tokens@ == config.tokens@,
            forall|j: int| 0 <= j < data@.len() ==> (#[trigger] data@[j]).wf(),
            r@ == portfolio_rows_spec(tokens@.take(i as int), data@),
            forall|j: int| 0 <= j < r@.len() ==> (#[trigger] r@[j]).wf(),
        decreases tokens@.len() - i,
    {
        proof {
            assert(tokens@.take(i as int + 1).drop_last() =~= tokens@.take(i as int));
            assert(tokens@.take(i as int + 1).last() == tokens@[i as int]);
            assert(config.tokens@[i as int].wf());
        }
        if tokens[i].is_in_portfolio() {
            match find_match_exec(data, tokens[i].name.as_str()) {
                Some(k) => {
                    proof {
                        lemma_find_match(data@, tokens@[i as int].name@);
                    }
                    let row = make_portfolio_row(&tokens[i], &data[k]);
                    r.push(row);
                },
                None => {},
            }
        }
        i = i + 1;
    }
    proof {
        assert(tokens@.take(tokens@.len() as int) =~= tokens@);
    }
    r
}

} // verus!
