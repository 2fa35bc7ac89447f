use crypto_tracker::config::{Config, TokenConfig};
use crypto_tracker::market::{CryptoData, Quote};
use crypto_tracker::pipeline::ChannelModel;
use crypto_tracker::state::{App, InputMode, KeyInput, SortColumn, Tab, UiAction};

fn plain_quote(price: i64) -> Quote {
    Quote {
        price,
        volume_24h: None,
        volume_change_24h: None,
        percent_change_1h: None,
        percent_change_24h: None,
        percent_change_7d: None,
        percent_change_30d: None,
        percent_change_90d: None,
        market_cap: None,
    }
}

fn snapshot_entry(name: &str, symbol: &str) -> CryptoData {
    CryptoData {
        name: String::from(name),
        symbol: String::from(symbol),
        quote: plain_quote(1_000_000),
    }
}

fn watch_config(names: &[&str]) -> Config {
    Config {
        api_key: String::new(),
        tokens: names
            .iter()
            .map(|n| TokenConfig {
                name: String::from(*n),
                owned: None,
                avg_buy_price: None,
                in_watchlist: true,
                in_portfolio: false,
            })
            .collect(),
        refresh_interval: 60,
        fear_and_greed_limit: String::from("30"),
    }
}

#[test]
fn selection_is_dropped_when_rows_shrink_to_zero() {
    let mut app = App::new(watch_config(&["a", "b"]));
    app.apply_snapshot(vec![snapshot_entry("a", "A"), snapshot_entry("b", "B")], 100);
    app.selected = Some(1);
    app.apply_snapshot(Vec::new(), 200);
    assert_eq!(app.selected, None);
}

#[test]
fn selection_is_clamped_when_rows_shrink() {
    let mut app = App::new(watch_config(&["a", "b", "c"]));
    app.apply_snapshot(
        vec![snapshot_entry("a", "A"), snapshot_entry("b", "B"), snapshot_entry("c", "C")],
        100,
    );
    app.selected = Some(2);
    app.apply_snapshot(vec![snapshot_entry("a", "A")], 200);
    assert_eq!(app.selected, Some(0));
}

#[test]
fn navigation_wraps_in_both_directions() {
    let mut app = App::new(watch_config(&["a", "b"]));
    app.apply_snapshot(vec![snapshot_entry("a", "A"), snapshot_entry("b", "B")], 100);
    assert_eq!(app.selected, None);
    app.next();
    assert_eq!(app.selected, Some(0));
    app.next();
    assert_eq!(app.selected, Some(1));
    app.next();
    assert_eq!(app.selected, Some(0));
    app.previous();
    assert_eq!(app.selected, Some(1));
}

#[test]
fn navigation_on_empty_table_selects_nothing() {
    let mut app = App::new(watch_config(&[]));
    app.next();
    assert_eq!(app.selected, None);
    app.previous();
    assert_eq!(app.selected, None);
}

#[test]
fn tabs_cycle_through_all_three_views() {
    let mut app = App::new(watch_config(&[]));
    assert_eq!(app.tab, Tab::Watchlist);
    app.next_tab();
    assert_eq!(app.tab, Tab::Portfolio);
    app.next_tab();
    assert_eq!(app.tab, Tab::Market);
    app.next_tab();
    assert_eq!(app.tab, Tab::Watchlist);
}

#[test]
fn watchlist_sort_columns_cycle_and_wrap() {
    let mut app = App::new(watch_config(&[]));
    app.sort_column = SortColumn::MarketCap;
    app.cycle_sort_column();
    assert_eq!(app.sort_column, SortColumn::Symbol);
    app.cycle_sort_column();
    assert_eq!(app.sort_column, SortColumn::Price);
    // the portfolio column is untouched on the watchlist tab
    assert_eq!(app.portfolio_sort_column, SortColumn::CurrentValue);
}

#[test]
fn portfolio_sort_columns_cycle_and_wrap() {
    let mut app = App::new(watch_config(&[]));
    app.tab = Tab::Portfolio;
    app.cycle_sort_column();
    assert_eq!(app.portfolio_sort_column, SortColumn::CostBasis);
    app.portfolio_sort_column = SortColumn::Change24h;
    app.cycle_sort_column();
    assert_eq!(app.portfolio_sort_column, SortColumn::Symbol);
}

#[test]
fn market_tab_has_no_sort_cycle() {
    let mut app = App::new(watch_config(&[]));
    app.tab = Tab::Market;
    let before = app.sort_column;
    app.cycle_sort_column();
    assert_eq!(app.sort_column, before);
}

#[test]
fn failed_refresh_keeps_stale_snapshot() {
    let mut app = App::new(watch_config(&["a"]));
    app.apply_snapshot(vec![snapshot_entry("a", "A")], 100);
    app.apply_fetch_error(String::from("network down"));
    assert_eq!(app.crypto_data.len(), 1);
    assert_eq!(app.last_update, Some(100));
    assert_eq!(app.last_error.as_deref(), Some("network down"));
}

#[test]
fn successful_refresh_supersedes_sticky_error() {
    let mut app = App::new(watch_config(&["a"]));
    app.apply_fetch_error(String::from("boom"));
    app.apply_snapshot(vec![snapshot_entry("a", "A")], 300);
    assert_eq!(app.last_error, None);
    assert_eq!(app.last_update, Some(300));
}

#[test]
fn edit_mode_collects_and_erases_characters() {
    let mut app = App::new(watch_config(&[]));
    assert_eq!(app.handle_key(KeyInput::Char('e')), UiAction::Continue);
    assert_eq!(app.input_mode, InputMode::Editing);
    app.handle_key(KeyInput::Char('a'));
    app.handle_key(KeyInput::Char('d'));
    app.handle_key(KeyInput::Char('x'));
    assert_eq!(app.input, "adx");
    app.handle_key(KeyInput::Backspace);
    assert_eq!(app.input, "ad");
    app.handle_key(KeyInput::Char('d'));
    assert_eq!(app.input, "add");
}

#[test]
fn escape_discards_the_buffer_unexecuted() {
    let mut app = App::new(watch_config(&[]));
    app.handle_key(KeyInput::Char('e'));
    app.handle_key(KeyInput::Char('a'));
    assert_eq!(app.handle_key(KeyInput::Esc), UiAction::Continue);
    assert_eq!(app.input_mode, InputMode::Normal);
    assert_eq!(app.input, "");
    assert_eq!(app.config.tokens.len(), 0);
}

#[test]
fn submitting_a_command_mutates_and_owes_persistence() {
    let mut app = App::new(watch_config(&[]));
    app.handle_key(KeyInput::Char('e'));
    for c in "add btc".chars() {
        app.handle_key(KeyInput::Char(c));
    }
    let act = app.handle_key(KeyInput::Enter);
    assert_eq!(act, UiAction::PersistAndRefresh);
    assert_eq!(app.input_mode, InputMode::Normal);
    assert_eq!(app.input, "");
    assert_eq!(app.config.tokens.len(), 1);
    assert_eq!(app.config.tokens[0].name, "btc");
}

#[test]
fn submitting_a_rejected_command_owes_nothing() {
    let mut app = App::new(watch_config(&[]));
    app.handle_key(KeyInput::Char('e'));
    for c in "add x -z".chars() {
        app.handle_key(KeyInput::Char(c));
    }
    let act = app.handle_key(KeyInput::Enter);
    assert_eq!(act, UiAction::Continue);
    assert_eq!(app.last_error.as_deref(), Some("Invalid flag"));
}

#[test]
fn normal_mode_bindings_map_to_their_operations() {
    let mut app = App::new(watch_config(&[]));
    assert_eq!(app.handle_key(KeyInput::Char('q')), UiAction::Quit);
    assert_eq!(app.handle_key(KeyInput::Char('r')), UiAction::Refresh);
    let asc = app.sort_ascending;
    app.handle_key(KeyInput::Char('d'));
    assert_eq!(app.sort_ascending, !asc);
    app.handle_key(KeyInput::TabKey);
    assert_eq!(app.tab, Tab::Portfolio);
    // navigation keys are ignored while editing
    app.handle_key(KeyInput::Char('e'));
    app.handle_key(KeyInput::Char('q'));
    assert_eq!(app.input, "q");
}

#[test]
fn hand_off_applies_the_newest_snapshot_only() {
    let mut chan = ChannelModel::new();
    assert_eq!(chan.try_recv(), None);
    chan.send();
    // a full slot blocks the sender until the foreground drains it
    assert!(!chan.can_send());
    assert_eq!(chan.try_recv(), Some(0));
    assert!(chan.can_send());
    chan.send();
    assert_eq!(chan.try_recv(), Some(1));
    assert_eq!(chan.try_recv(), None);
    assert_eq!(chan.applied, Some(1));
    assert_eq!(chan.produced, 2);
}

#[test]
fn hand_off_applied_snapshots_never_go_backward() {
    let mut chan = ChannelModel::new();
    let mut last_applied: Option<u64> = None;
    for _ in 0..5 {
        chan.send();
        let got = chan.try_recv();
        assert!(got.is_some());
        if let (Some(prev), Some(now)) = (last_applied, got) {
            assert!(now > prev);
        }
        last_applied = got;
    }
    assert_eq!(chan.applied, Some(4));
}
