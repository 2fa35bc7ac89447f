use crypto_tracker::config::{Config, TokenConfig};
use crypto_tracker::market::{CryptoData, Quote};
use crypto_tracker::state::{App, SortColumn};

fn quote_with_price(price: i64) -> Quote {
    Quote {
        price,
        volume_24h: None,
        volume_change_24h: None,
        percent_change_1h: None,
        percent_change_24h: None,
        percent_change_7d: None,
        percent_change_30d: None,
        percent_change_90d: None,
        market_cap: None,
    }
}

fn crypto(name: &str, symbol: &str, price: i64) -> CryptoData {
    CryptoData {
        name: String::from(name),
        symbol: String::from(symbol),
        quote: quote_with_price(price),
    }
}

fn watch_entry(name: &str) -> TokenConfig {
    TokenConfig {
        name: String::from(name),
        owned: None,
        avg_buy_price: None,
        in_watchlist: true,
        in_portfolio: false,
    }
}

fn watch_app(data: Vec<CryptoData>, names: &[&str]) -> App {
    let config = Config {
        api_key: String::new(),
        tokens: names.iter().map(|n| watch_entry(n)).collect(),
        refresh_interval: 60,
        fear_and_greed_limit: String::from("30"),
    };
    let mut app = App::new(config);
    app.crypto_data = data;
    app
}

#[test]
fn ascending_price_sort_orders_numerically() {
    let data = vec![
        crypto("bravo", "B", 2_000_000),
        crypto("charlie", "C", 3_000_000),
        crypto("alpha", "A", 1_000_000),
    ];
    let mut app = watch_app(data, &["alpha", "bravo", "charlie"]);
    app.sort_column = SortColumn::Price;
    app.sort_ascending = true;
    let rows = app.watch_table();
    let symbols: Vec<&str> = rows.iter().map(|r| r.symbol.as_str()).collect();
    assert_eq!(symbols, vec!["A", "B", "C"]);
}

#[test]
fn toggling_direction_exactly_reverses_distinct_rows() {
    let data = vec![
        crypto("bravo", "B", 2_000_000),
        crypto("charlie", "C", 3_000_000),
        crypto("alpha", "A", 1_000_000),
    ];
    let mut app = watch_app(data, &["alpha", "bravo", "charlie"]);
    app.sort_column = SortColumn::Price;
    app.sort_ascending = true;
    let ascending: Vec<String> = app.watch_table().iter().map(|r| r.symbol.clone()).collect();
    app.toggle_sort_direction();
    let descending: Vec<String> = app.watch_table().iter().map(|r| r.symbol.clone()).collect();
    let mut reversed = ascending.clone();
    reversed.reverse();
    assert_eq!(descending, reversed);
}

#[test]
fn missing_fields_compare_equal_in_both_directions() {
    // neither row has a market cap: both orders are sorted, and the sort
    // must keep both rows whichever direction is chosen
    let data = vec![crypto("alpha", "A", 1_000_000), crypto("bravo", "B", 2_000_000)];
    let mut app = watch_app(data, &["alpha", "bravo"]);
    app.sort_column = SortColumn::MarketCap;
    app.sort_ascending = true;
    let up: Vec<String> = app.watch_table().iter().map(|r| r.symbol.clone()).collect();
    app.toggle_sort_direction();
    let down: Vec<String> = app.watch_table().iter().map(|r| r.symbol.clone()).collect();
    let mut up_sorted = up.clone();
    up_sorted.sort();
    let mut down_sorted = down.clone();
    down_sorted.sort();
    assert_eq!(up_sorted, vec!["A", "B"]);
    assert_eq!(down_sorted, vec!["A", "B"]);
}

#[test]
fn symbol_sort_is_lexical() {
    let data = vec![
        crypto("bravo", "BBB", 1_000_000),
        crypto("alpha", "AA", 2_000_000),
        crypto("charlie", "AB", 3_000_000),
    ];
    let mut app = watch_app(data, &["alpha", "bravo", "charlie"]);
    app.sort_column = SortColumn::Symbol;
    app.sort_ascending = true;
    let symbols: Vec<String> = app.watch_table().iter().map(|r| r.symbol.clone()).collect();
    assert_eq!(symbols, vec!["AA", "AB", "BBB"]);
}

#[test]
fn absent_values_rank_below_present_ones_ascending() {
    let mut with_cap = crypto("alpha", "A", 1_000_000);
    with_cap.quote.market_cap = Some(5_000_000);
    let data = vec![with_cap, crypto("bravo", "B", 2_000_000)];
    let mut app = watch_app(data, &["alpha", "bravo"]);
    app.sort_column = SortColumn::MarketCap;
    app.sort_ascending = true;
    let symbols: Vec<String> = app.watch_table().iter().map(|r| r.symbol.clone()).collect();
    assert_eq!(symbols, vec!["B", "A"]);
}

#[test]
fn watchlist_rows_join_names_case_insensitively_with_separators() {
    let data = vec![crypto("Wrapped-Bitcoin", "WBTC", 1_000_000)];
    let app = watch_app(data, &["wrapped_bitcoin"]);
    let rows = app.watch_table();
    assert_eq!(rows.len(), 1);
    assert_eq!(rows[0].symbol, "WBTC");
}

#[test]
fn unmatched_snapshot_entries_are_excluded() {
    let data = vec![crypto("alpha", "A", 1_000_000), crypto("other", "O", 2_000_000)];
    let app = watch_app(data, &["alpha"]);
    let rows = app.watch_table();
    assert_eq!(rows.len(), 1);
    assert_eq!(rows[0].symbol, "A");
}
