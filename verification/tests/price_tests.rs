use price_tracker::error::PriceError;
use price_tracker::price::Price;
use price_tracker::price::format_price;
use price_tracker::price::parse_price;

#[test]
fn parse_equity_quote_string() {
    let r = parse_price("5123.45").unwrap();
    assert_eq!(r.cents, 512345);
}

#[test]
fn parse_one_fraction_digit() {
    let r = parse_price("43250.7").unwrap();
    assert_eq!(r.cents, 4325070);
}

#[test]
fn parse_whole_number() {
    let r = parse_price("43250").unwrap();
    assert_eq!(r.cents, 4325000);
}

#[test]
fn parse_zero() {
    let r = parse_price("0").unwrap();
    assert_eq!(r.cents, 0);
}

#[test]
fn parse_rounds_half_up_on_third_digit() {
    assert_eq!(parse_price("1.239").unwrap().cents, 124);
    assert_eq!(parse_price("1.235").unwrap().cents, 124);
    assert_eq!(parse_price("1.2349999").unwrap().cents, 123);
    assert_eq!(parse_price("0.005").unwrap().cents, 1);
}

#[test]
fn parse_rejects_malformed_text() {
    assert!(matches!(parse_price(""), Err(PriceError::ParseError(_))));
    assert!(matches!(parse_price("abc"), Err(PriceError::ParseError(_))));
    assert!(matches!(parse_price("1.2.3"), Err(PriceError::ParseError(_))));
    assert!(matches!(parse_price(".5"), Err(PriceError::ParseError(_))));
    assert!(matches!(parse_price("5."), Err(PriceError::ParseError(_))));
    assert!(matches!(parse_price("-1"), Err(PriceError::ParseError(_))));
    assert!(matches!(parse_price("1e3"), Err(PriceError::ParseError(_))));
    assert!(matches!(parse_price("12 3"), Err(PriceError::ParseError(_))));
}

#[test]
fn parse_rejects_out_of_range() {
    let r = parse_price("999999999999999999999999999999");
    assert!(matches!(r, Err(PriceError::ParseError(_))));
}

#[test]
fn parse_accepts_largest_cents() {
    // u64::MAX cents, written as dollars and two fraction digits
    let r = parse_price("184467440737095516.15").unwrap();
    assert_eq!(r.cents, u64::MAX);
    assert!(matches!(parse_price("184467440737095516.16"), Err(PriceError::ParseError(_))));
}

#[test]
fn format_shows_two_decimals() {
    assert_eq!(format_price(Price { cents: 4325070 }), "43250.70");
    assert_eq!(format_price(Price { cents: 512345 }), "5123.45");
}

#[test]
fn format_small_values_zero_padded() {
    assert_eq!(format_price(Price { cents: 0 }), "0.00");
    assert_eq!(format_price(Price { cents: 5 }), "0.05");
    assert_eq!(format_price(Price { cents: 50 }), "0.50");
    assert_eq!(format_price(Price { cents: 100 }), "1.00");
}

#[test]
fn format_then_parse_round_trips() {
    for cents in [0u64, 1, 99, 100, 123456789, u64::MAX] {
        let text = format_price(Price { cents });
        let back = parse_price(&text).unwrap();
        assert_eq!(back.cents, cents);
    }
}

#[test]
fn error_messages_name_their_kind() {
    let e = PriceError::NetworkError("no route".to_string());
    assert_eq!(e.message(), "Network Error: no route");
    let e = PriceError::ParseError("bad body".to_string());
    assert_eq!(e.message(), "Parse Error: bad body");
    let e = PriceError::FileError("disk full".to_string());
    assert_eq!(e.message(), "File Error: disk full");
    assert_eq!(e.detail(), "disk full");
}
