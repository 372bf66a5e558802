use stock_sim::money::{format_cents, parse_price};
use stock_sim::text::{format_u64, str_eq, to_ascii_upper, trim_spaces, parse_u64};

#[test]
fn parse_price_accepts_well_formed_texts() {
    assert_eq!(parse_price("50.00"), Some(5000));
    assert_eq!(parse_price("50"), Some(5000));
    assert_eq!(parse_price("50.5"), Some(5050));
    assert_eq!(parse_price("0.01"), Some(1));
    assert_eq!(parse_price("0"), Some(0));
    assert_eq!(parse_price("123.45"), Some(12345));
}

#[test]
fn parse_price_rejects_malformed_texts() {
    assert_eq!(parse_price(""), None);
    assert_eq!(parse_price("abc"), None);
    assert_eq!(parse_price("1.2.3"), None);
    assert_eq!(parse_price("1.234"), None); // more than two fraction digits
    assert_eq!(parse_price(".5"), None);
    assert_eq!(parse_price("5."), None);
    assert_eq!(parse_price("-5"), None);
    assert_eq!(parse_price("5,00"), None);
}

#[test]
fn format_cents_always_shows_two_fraction_digits() {
    assert_eq!(format_cents(5000).as_str(), "50.00");
    assert_eq!(format_cents(5050).as_str(), "50.50");
    assert_eq!(format_cents(1).as_str(), "0.01");
    assert_eq!(format_cents(0).as_str(), "0.00");
    assert_eq!(format_cents(12345).as_str(), "123.45");
}

#[test]
fn price_text_round_trip() {
    for &c in &[0u64, 1, 99, 100, 101, 5000, 123456789, u64::MAX] {
        assert_eq!(parse_price(format_cents(c).as_str()), Some(c));
    }
}

#[test]
fn format_and_parse_u64() {
    assert_eq!(format_u64(0).as_str(), "0");
    assert_eq!(format_u64(7).as_str(), "7");
    assert_eq!(format_u64(1234567890).as_str(), "1234567890");
    assert_eq!(parse_u64("0"), Some(0));
    assert_eq!(parse_u64("18446744073709551615"), Some(u64::MAX));
    assert_eq!(parse_u64("18446744073709551616"), None); // one past the range
    assert_eq!(parse_u64("12x"), None);
    assert_eq!(parse_u64(""), None);
}

#[test]
fn uppercasing_and_trimming() {
    assert_eq!(to_ascii_upper("aapl").as_str(), "AAPL");
    assert_eq!(to_ascii_upper("BrK7b").as_str(), "BRK7B");
    assert_eq!(trim_spaces("  TICK \t"), "TICK");
    assert_eq!(trim_spaces("TICK"), "TICK");
    assert_eq!(trim_spaces("   "), "");
    assert!(str_eq("abc", "abc"));
    assert!(!str_eq("abc", "abd"));
    assert!(!str_eq("abc", "ab"));
}
