use crypto_tracker::decimal::parse_amount;
use crypto_tracker::fear_greed::{
    fear_greed_summary, parse_timestamp, validate_fear_greed, FearGreedData,
    FearGreedResponse, FearGreedStatus, Trend,
};
use crypto_tracker::formatters::{format_market_cap, format_price, format_volume};
use crypto_tracker::logger::{log_error, log_info};
use crypto_tracker::market::{join_names, token_names, validate_prices, CMCResponse, Status};
use crypto_tracker::text::{eq_ci, join_matches};

fn chars(s: &str) -> Vec<char> {
    s.chars().collect()
}

#[test]
fn amounts_parse_to_millionths() {
    assert_eq!(parse_amount(&chars("3")), Some(3_000_000));
    assert_eq!(parse_amount(&chars("150")), Some(150_000_000));
    assert_eq!(parse_amount(&chars("3.5")), Some(3_500_000));
    assert_eq!(parse_amount(&chars("0.000001")), Some(1));
    assert_eq!(parse_amount(&chars(".5")), Some(500_000));
    assert_eq!(parse_amount(&chars("5.")), Some(5_000_000));
    assert_eq!(parse_amount(&chars("999999999")), Some(999_999_999_000_000));
}

#[test]
fn amounts_out_of_grammar_are_rejected() {
    assert_eq!(parse_amount(&chars("")), None);
    assert_eq!(parse_amount(&chars(".")), None);
    assert_eq!(parse_amount(&chars("-1")), None);
    assert_eq!(parse_amount(&chars("1e3")), None);
    assert_eq!(parse_amount(&chars("1.2.3")), None);
    assert_eq!(parse_amount(&chars("abc")), None);
    // ten integer digits exceed the proved fixed-point range
    assert_eq!(parse_amount(&chars("1234567890")), None);
}

#[test]
fn fraction_digits_beyond_the_scale_are_truncated() {
    assert_eq!(parse_amount(&chars("0.12345678")), Some(123_456));
}

#[test]
fn prices_render_with_magnitude_dependent_decimals() {
    assert_eq!(format_price(1_234_500_000), "$1234.50");
    assert_eq!(format_price(1_500_000), "$1.500");
    assert_eq!(format_price(500_000), "$0.500000");
    assert_eq!(format_price(-5_000_000), "$-5.000000");
    assert_eq!(format_price(0), "$0.000000");
    assert_eq!(format_price(1_999_999), "$2.000");
}

#[test]
fn volumes_render_abbreviated_with_one_decimal() {
    assert_eq!(format_volume(None), "N/A");
    assert_eq!(format_volume(Some(1_500_000_000_000_000)), "$1.5B");
    assert_eq!(format_volume(Some(2_500_000_000_000)), "$2.5M");
    assert_eq!(format_volume(Some(-5_000_000_000_000)), "$-5.0M");
    assert_eq!(format_market_cap(None), "N/A");
    assert_eq!(format_market_cap(Some(2_400_000_000_000_000_000)), "$2400.0B");
}

#[test]
fn log_lines_carry_level_category_and_message() {
    assert_eq!(
        log_error("API Error", "boom", "2024-01-01 00:00:00"),
        "[2024-01-01 00:00:00] ERROR - API Error: boom"
    );
    assert_eq!(log_info("Fetch", "done", "t"), "[t] INFO - Fetch: done");
}

#[test]
fn name_matching_folds_case_through_lowercasing() {
    assert!(eq_ci("ABC", "abc"));
    assert!(eq_ci("BitCoin", "bitcoin"));
    assert!(!eq_ci("abc", "abd"));
}

#[test]
fn join_matching_normalizes_separators() {
    assert!(join_matches("Wrapped-Bitcoin", "wrapped_bitcoin"));
    assert!(join_matches("a b", "A_B"));
    assert!(!join_matches("ab", "a b"));
}

#[test]
fn token_names_join_with_commas() {
    let config = crypto_tracker::config::Config {
        api_key: String::new(),
        tokens: vec![
            crypto_tracker::config::TokenConfig {
                name: String::from("bitcoin"),
                owned: None,
                avg_buy_price: None,
                in_watchlist: true,
                in_portfolio: false,
            },
            crypto_tracker::config::TokenConfig {
                name: String::from("ethereum"),
                owned: None,
                avg_buy_price: None,
                in_watchlist: true,
                in_portfolio: false,
            },
        ],
        refresh_interval: 60,
        fear_and_greed_limit: String::from("30"),
    };
    let names = token_names(&config);
    assert_eq!(join_names(&names), "bitcoin,ethereum");
    assert_eq!(join_names(&Vec::new()), "");
}

#[test]
fn price_response_status_decides_success() {
    let ok = CMCResponse {
        status: Status { error_code: 0, error_message: None },
        data: Vec::new(),
    };
    assert!(validate_prices(ok).is_ok());
    let err = CMCResponse {
        status: Status { error_code: 1002, error_message: Some(String::from("bad key")) },
        data: Vec::new(),
    };
    assert_eq!(validate_prices(err).err().as_deref(), Some("bad key"));
    let err_blank = CMCResponse {
        status: Status { error_code: 5, error_message: None },
        data: Vec::new(),
    };
    assert_eq!(validate_prices(err_blank).err().as_deref(), Some(""));
}

#[test]
fn fear_greed_status_is_textual_zero() {
    let point = FearGreedData {
        timestamp: String::from("1700000000"),
        value: 44,
        value_classification: String::from("Fear"),
    };
    let ok = FearGreedResponse {
        data: vec![point],
        status: FearGreedStatus {
            error_code_str: String::from("0"),
            error_message: String::new(),
        },
    };
    let got = validate_fear_greed(ok).unwrap();
    assert_eq!(got.len(), 1);
    assert_eq!(got[0].value, 44);
    let bad = FearGreedResponse {
        data: Vec::new(),
        status: FearGreedStatus {
            error_code_str: String::from("1"),
            error_message: String::from("nope"),
        },
    };
    assert_eq!(validate_fear_greed(bad).err().as_deref(), Some("nope"));
}

#[test]
fn timestamps_parse_as_digits_or_read_zero() {
    assert_eq!(parse_timestamp("1700000000"), 1_700_000_000);
    assert_eq!(parse_timestamp("0"), 0);
    assert_eq!(parse_timestamp(""), 0);
    assert_eq!(parse_timestamp("12a4"), 0);
    assert_eq!(parse_timestamp("-5"), 0);
}

#[test]
fn fear_greed_summary_tracks_trend_and_extremes() {
    let mk = |v: u64| FearGreedData {
        timestamp: String::from("0"),
        value: v,
        value_classification: String::from("x"),
    };
    let s = fear_greed_summary(&vec![mk(70), mk(50), mk(90)]);
    assert_eq!(s.current, 70);
    assert_eq!(s.previous, 50);
    assert_eq!(s.trend, Trend::Rising);
    assert_eq!(s.min, 50);
    assert_eq!(s.max, 90);
    let empty = fear_greed_summary(&Vec::new());
    assert_eq!(empty.current, 0);
    assert_eq!(empty.max, 0);
    assert_eq!(empty.trend, Trend::Flat);
    let single = fear_greed_summary(&vec![mk(33)]);
    assert_eq!(single.previous, 33);
    assert_eq!(single.trend, Trend::Flat);
}
