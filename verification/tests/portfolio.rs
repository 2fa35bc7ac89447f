use crypto_tracker::config::{Config, TokenConfig};
use crypto_tracker::market::{CryptoData, Quote};
use crypto_tracker::metrics::{allocations, compute_totals, sort_allocations};
use crypto_tracker::state::App;

fn quote(price: i64, change_24h: Option<i64>) -> Quote {
    Quote {
        price,
        volume_24h: None,
        volume_change_24h: None,
        percent_change_1h: None,
        percent_change_24h: change_24h,
        percent_change_7d: None,
        percent_change_30d: None,
        percent_change_90d: None,
        market_cap: None,
    }
}

fn position(name: &str, owned: i64, avg: i64) -> TokenConfig {
    TokenConfig {
        name: String::from(name),
        owned: Some(owned),
        avg_buy_price: Some(avg),
        in_watchlist: false,
        in_portfolio: true,
    }
}

fn portfolio_app(tokens: Vec<TokenConfig>, data: Vec<CryptoData>) -> App {
    let config = Config {
        api_key: String::new(),
        tokens,
        refresh_interval: 60,
        fear_and_greed_limit: String::from("30"),
    };
    let mut app = App::new(config);
    app.crypto_data = data;
    app
}

#[test]
fn derived_values_follow_their_formulas() {
    // 3 tokens at $150 each, bought at $100: value 450, cost 300, P/L 150
    let app = portfolio_app(
        vec![position("x", 3_000_000, 100_000_000)],
        vec![CryptoData {
            name: String::from("x"),
            symbol: String::from("X"),
            quote: quote(150_000_000, None),
        }],
    );
    let rows = app.portfolio_table();
    assert_eq!(rows.len(), 1);
    let r = &rows[0];
    assert_eq!(r.current_value, 450_000_000);
    assert_eq!(r.cost_basis, 300_000_000);
    assert_eq!(r.profit_loss, 150_000_000);
    // 50% profit at the raw percent scale
    assert_eq!(r.profit_loss_pct, 50_000_000);
}

#[test]
fn profit_loss_percent_is_zero_on_zero_cost_basis() {
    let app = portfolio_app(
        vec![position("x", 2_000_000, 0)],
        vec![CryptoData {
            name: String::from("x"),
            symbol: String::from("X"),
            quote: quote(10_000_000, None),
        }],
    );
    let rows = app.portfolio_table();
    assert_eq!(rows[0].profit_loss_pct, 0);
}

#[test]
fn totals_difference_equals_direct_profit_sum() {
    let app = portfolio_app(
        vec![
            position("x", 3_000_000, 100_000_000),
            position("y", 1_000_000, 40_000_000),
        ],
        vec![
            CryptoData {
                name: String::from("x"),
                symbol: String::from("X"),
                quote: quote(150_000_000, None),
            },
            CryptoData {
                name: String::from("y"),
                symbol: String::from("Y"),
                quote: quote(30_000_000, None),
            },
        ],
    );
    let rows = app.portfolio_table();
    let t = compute_totals(&rows);
    assert_eq!(t.total_value - t.total_cost, t.total_pl);
    assert_eq!(t.total_value, 480_000_000);
    assert_eq!(t.total_cost, 340_000_000);
    assert_eq!(t.total_pl, 140_000_000);
    assert_eq!(t.asset_count, 2);
}

#[test]
fn totals_of_no_rows_are_all_zero() {
    let app = portfolio_app(Vec::new(), Vec::new());
    let rows = app.portfolio_table();
    let t = compute_totals(&rows);
    assert_eq!(t.total_value, 0);
    assert_eq!(t.total_cost, 0);
    assert_eq!(t.total_pl, 0);
    assert_eq!(t.total_pl_pct, 0);
    assert_eq!(t.change_24h, 0);
    assert_eq!(t.change_24h_pct, 0);
    assert_eq!(t.asset_count, 0);
}

#[test]
fn weighted_24h_change_uses_current_values() {
    // value 100 with +10%, value 300 with -2%: change 10 - 6 = 4 dollars
    let app = portfolio_app(
        vec![position("x", 1_000_000, 0), position("y", 3_000_000, 0)],
        vec![
            CryptoData {
                name: String::from("x"),
                symbol: String::from("X"),
                quote: quote(100_000_000, Some(10_000_000)),
            },
            CryptoData {
                name: String::from("y"),
                symbol: String::from("Y"),
                quote: quote(100_000_000, Some(-2_000_000)),
            },
        ],
    );
    let rows = app.portfolio_table();
    let t = compute_totals(&rows);
    assert_eq!(t.change_24h, 4_000_000);
    // 4 of 400 dollars: one percent
    assert_eq!(t.change_24h_pct, 1_000_000);
}

#[test]
fn allocations_are_shares_of_total_sorted_descending() {
    let app = portfolio_app(
        vec![position("x", 1_000_000, 0), position("y", 3_000_000, 0)],
        vec![
            CryptoData {
                name: String::from("x"),
                symbol: String::from("X"),
                quote: quote(100_000_000, None),
            },
            CryptoData {
                name: String::from("y"),
                symbol: String::from("Y"),
                quote: quote(100_000_000, None),
            },
        ],
    );
    let rows = app.portfolio_table();
    let t = compute_totals(&rows);
    let lines = sort_allocations(allocations(&rows, t.total_value));
    assert_eq!(lines.len(), 2);
    assert_eq!(lines[0].symbol, "Y");
    assert_eq!(lines[0].pct, 75_000_000);
    assert_eq!(lines[1].symbol, "X");
    assert_eq!(lines[1].pct, 25_000_000);
}

#[test]
fn positive_owned_amount_joins_portfolio_without_flag() {
    let mut entry = position("x", 1_000_000, 0);
    entry.in_portfolio = false;
    let app = portfolio_app(
        vec![entry],
        vec![CryptoData {
            name: String::from("x"),
            symbol: String::from("X"),
            quote: quote(100_000_000, None),
        }],
    );
    let rows = app.portfolio_table();
    assert_eq!(rows.len(), 1);
}

#[test]
fn portfolio_excludes_entries_without_snapshot_match() {
    let app = portfolio_app(vec![position("missing", 1_000_000, 0)], Vec::new());
    let rows = app.portfolio_table();
    assert_eq!(rows.len(), 0);
}
