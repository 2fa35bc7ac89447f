use crypto_tracker::command::{parse_command, Command};
use crypto_tracker::config::{Config, TokenConfig};
use crypto_tracker::state::App;

fn empty_config() -> Config {
    Config {
        api_key: String::new(),
        tokens: Vec::new(),
        refresh_interval: 60,
        fear_and_greed_limit: String::from("30"),
    }
}

fn app_with_tokens(tokens: Vec<TokenConfig>) -> App {
    let mut config = empty_config();
    config.tokens = tokens;
    App::new(config)
}

fn run(app: &mut App, line: &str) -> bool {
    app.input = String::from(line);
    app.process_command()
}

#[test]
fn add_with_position_sets_amounts_and_portfolio_only() {
    let mut app = app_with_tokens(Vec::new());
    let persist = run(&mut app, "add X -p 3 150");
    assert!(persist);
    assert_eq!(app.config.tokens.len(), 1);
    let t = &app.config.tokens[0];
    assert_eq!(t.name, "X");
    assert_eq!(t.owned, Some(3_000_000));
    assert_eq!(t.avg_buy_price, Some(150_000_000));
    assert!(t.in_portfolio);
    assert!(!t.in_watchlist);
}

#[test]
fn add_position_flag_without_amounts_is_accepted() {
    let mut app = app_with_tokens(Vec::new());
    let persist = run(&mut app, "add X -p");
    assert!(persist);
    assert_eq!(app.config.tokens.len(), 1);
    let t = &app.config.tokens[0];
    assert!(t.in_portfolio);
    assert_eq!(t.owned, None);
    assert_eq!(t.avg_buy_price, None);
    assert!(app.last_error.is_none());
}

#[test]
fn add_unknown_flag_rejects_whole_command() {
    let mut app = app_with_tokens(vec![TokenConfig {
        name: String::from("keep"),
        owned: None,
        avg_buy_price: None,
        in_watchlist: true,
        in_portfolio: false,
    }]);
    let before: Vec<(String, Option<i64>, Option<i64>, bool, bool)> = app
        .config
        .tokens
        .iter()
        .map(|t| (t.name.clone(), t.owned, t.avg_buy_price, t.in_watchlist, t.in_portfolio))
        .collect();
    let persist = run(&mut app, "add X -z");
    assert!(!persist);
    let after: Vec<(String, Option<i64>, Option<i64>, bool, bool)> = app
        .config
        .tokens
        .iter()
        .map(|t| (t.name.clone(), t.owned, t.avg_buy_price, t.in_watchlist, t.in_portfolio))
        .collect();
    assert_eq!(before, after);
    assert_eq!(app.last_error.as_deref(), Some("Invalid flag"));
}

#[test]
fn add_defaults_to_watchlist() {
    let mut app = app_with_tokens(Vec::new());
    run(&mut app, "add bitcoin");
    let t = &app.config.tokens[0];
    assert!(t.in_watchlist);
    assert!(!t.in_portfolio);
}

#[test]
fn add_position_flag_with_one_amount_is_an_invalid_flag() {
    // the lone numeric token is not consumed and reads as a flag
    let mut app = app_with_tokens(Vec::new());
    let persist = run(&mut app, "add X -p 3");
    assert!(!persist);
    assert_eq!(app.config.tokens.len(), 0);
    assert_eq!(app.last_error.as_deref(), Some("Invalid flag"));
}

#[test]
fn add_combined_flag_sets_both_memberships() {
    let mut app = app_with_tokens(Vec::new());
    run(&mut app, "add X -wp 2 50");
    let t = &app.config.tokens[0];
    assert!(t.in_watchlist);
    assert!(t.in_portfolio);
    assert_eq!(t.owned, Some(2_000_000));
    assert_eq!(t.avg_buy_price, Some(50_000_000));
}

#[test]
fn add_matches_existing_name_case_insensitively() {
    let mut app = app_with_tokens(vec![TokenConfig {
        name: String::from("Bitcoin"),
        owned: None,
        avg_buy_price: None,
        in_watchlist: true,
        in_portfolio: false,
    }]);
    run(&mut app, "add BITCOIN -p 1 10");
    assert_eq!(app.config.tokens.len(), 1);
    let t = &app.config.tokens[0];
    assert_eq!(t.name, "Bitcoin");
    assert!(t.in_watchlist);
    assert!(t.in_portfolio);
    assert_eq!(t.owned, Some(1_000_000));
}

#[test]
fn rm_without_flags_removes_entry_entirely() {
    let mut app = app_with_tokens(vec![
        TokenConfig {
            name: String::from("a"),
            owned: Some(1_000_000),
            avg_buy_price: None,
            in_watchlist: true,
            in_portfolio: true,
        },
        TokenConfig {
            name: String::from("b"),
            owned: None,
            avg_buy_price: None,
            in_watchlist: true,
            in_portfolio: false,
        },
    ]);
    run(&mut app, "rm A");
    assert_eq!(app.config.tokens.len(), 1);
    assert_eq!(app.config.tokens[0].name, "b");
}

#[test]
fn rm_absent_name_is_a_no_op() {
    let mut app = app_with_tokens(vec![TokenConfig {
        name: String::from("a"),
        owned: None,
        avg_buy_price: None,
        in_watchlist: true,
        in_portfolio: false,
    }]);
    let persist = run(&mut app, "rm missing");
    assert!(persist);
    assert_eq!(app.config.tokens.len(), 1);
    assert_eq!(app.config.tokens[0].name, "a");
}

#[test]
fn rm_watchlist_flag_keeps_portfolio_membership() {
    let mut app = app_with_tokens(vec![TokenConfig {
        name: String::from("a"),
        owned: Some(2_000_000),
        avg_buy_price: Some(3_000_000),
        in_watchlist: true,
        in_portfolio: true,
    }]);
    run(&mut app, "rm a -w");
    assert_eq!(app.config.tokens.len(), 1);
    let t = &app.config.tokens[0];
    assert!(!t.in_watchlist);
    assert!(t.in_portfolio);
    assert_eq!(t.owned, Some(2_000_000));
}

#[test]
fn rm_portfolio_flag_clears_amounts() {
    let mut app = app_with_tokens(vec![TokenConfig {
        name: String::from("a"),
        owned: Some(2_000_000),
        avg_buy_price: Some(3_000_000),
        in_watchlist: true,
        in_portfolio: true,
    }]);
    run(&mut app, "rm a -p");
    let t = &app.config.tokens[0];
    assert!(t.in_watchlist);
    assert!(!t.in_portfolio);
    assert_eq!(t.owned, None);
    assert_eq!(t.avg_buy_price, None);
}

#[test]
fn no_zombie_entries_after_any_command_sequence() {
    let mut app = app_with_tokens(Vec::new());
    let lines = [
        "add one",
        "add two -p 1 2",
        "add three -wp",
        "rm one",
        "rm two -p",
        "add four",
        "rm three",
        "rm four -w",
        "add five -w",
        "rm five -wp",
    ];
    for line in lines.iter() {
        run(&mut app, line);
        for t in app.config.tokens.iter() {
            assert!(t.in_watchlist || t.in_portfolio);
        }
    }
}

#[test]
fn empty_command_sets_error_only() {
    let mut app = app_with_tokens(Vec::new());
    let persist = run(&mut app, "   ");
    assert!(!persist);
    assert_eq!(app.last_error.as_deref(), Some("Empty command"));
    assert_eq!(app.config.tokens.len(), 0);
}

#[test]
fn unknown_verb_is_rejected() {
    let mut app = app_with_tokens(Vec::new());
    run(&mut app, "frobnicate x");
    assert_eq!(
        app.last_error.as_deref(),
        Some("Unknown command. Available commands: add, rm")
    );
}

#[test]
fn add_without_name_shows_usage() {
    let mut app = app_with_tokens(Vec::new());
    run(&mut app, "add");
    assert_eq!(
        app.last_error.as_deref(),
        Some("Usage: add <name> [-w|-p] [amount] [price]")
    );
}

#[test]
fn rm_without_name_shows_usage() {
    let mut app = app_with_tokens(Vec::new());
    run(&mut app, "rm");
    assert_eq!(app.last_error.as_deref(), Some("Usage: rm <name> [-w|-p|-wp]"));
}

#[test]
fn parse_accepts_unparseable_amount_tokens_as_absent() {
    match parse_command("add X -p abc 150") {
        Command::Add { owned, avg_buy_price, portfolio, .. } => {
            assert!(portfolio);
            assert_eq!(owned, None);
            assert_eq!(avg_buy_price, Some(150_000_000));
        }
        _ => panic!("expected an add command"),
    }
}

#[test]
fn parse_tokenizes_repeated_whitespace() {
    match parse_command("  add \t name  -w ") {
        Command::Add { name, watchlist, portfolio, .. } => {
            assert_eq!(name, "name");
            assert!(watchlist);
            assert!(!portfolio);
        }
        _ => panic!("expected an add command"),
    }
}
