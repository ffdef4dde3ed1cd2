use price_tracker::error::PriceError;
use price_tracker::instrument::Instrument;
use price_tracker::instrument::price_from_quote_text;

#[test]
fn instrument_names() {
    assert_eq!(Instrument::Bitcoin.name(), "Bitcoin");
    assert_eq!(Instrument::Ethereum.name(), "Ethereum");
    assert_eq!(Instrument::SP500.name(), "S&P 500");
}

#[test]
fn instrument_log_filenames() {
    assert_eq!(Instrument::Bitcoin.log_filename(), "bitcoin_prices.csv");
    assert_eq!(Instrument::Ethereum.log_filename(), "ethereum_prices.csv");
    assert_eq!(Instrument::SP500.log_filename(), "sp500_prices.csv");
}

#[test]
fn instrument_endpoints_are_fixed() {
    assert!(Instrument::Bitcoin.endpoint_url().contains("ids=bitcoin"));
    assert!(Instrument::Ethereum.endpoint_url().contains("ids=ethereum"));
    assert!(Instrument::SP500.endpoint_url().contains("GLOBAL_QUOTE"));
}

#[test]
fn bitcoin_price_extracted_from_nested_usd() {
    let body = "{\"bitcoin\":{\"usd\":43250.7}}";
    let p = Instrument::Bitcoin.price_from_response(body).unwrap();
    assert_eq!(p.cents, 4325070);
}

#[test]
fn ethereum_price_extracted_from_nested_usd() {
    let body = "{\"ethereum\":{\"usd\":2000}}";
    let p = Instrument::Ethereum.price_from_response(body).unwrap();
    assert_eq!(p.cents, 200000);
}

#[test]
fn equity_price_parsed_from_string_field() {
    let body = "{\"Global Quote\":{\"05. price\":\"5123.45\"}}";
    let p = Instrument::SP500.price_from_response(body).unwrap();
    assert_eq!(p.cents, 512345);
}

#[test]
fn missing_usd_key_is_parse_error() {
    let body = "{\"bitcoin\":{\"eur\":43250.7}}";
    let r = Instrument::Bitcoin.price_from_response(body);
    assert!(matches!(r, Err(PriceError::ParseError(_))));
}

#[test]
fn missing_asset_key_is_parse_error() {
    let body = "{\"dogecoin\":{\"usd\":0.1}}";
    let r = Instrument::Bitcoin.price_from_response(body);
    assert!(matches!(r, Err(PriceError::ParseError(_))));
}

#[test]
fn unparseable_body_is_parse_error() {
    let r = Instrument::Bitcoin.price_from_response("not json at all");
    assert!(matches!(r, Err(PriceError::ParseError(_))));
    let r = Instrument::SP500.price_from_response("<html>rate limited</html>");
    assert!(matches!(r, Err(PriceError::ParseError(_))));
}

#[test]
fn wrong_field_type_is_parse_error() {
    // the crypto schema wants a number, not a string
    let body = "{\"bitcoin\":{\"usd\":\"43250.7\"}}";
    let r = Instrument::Bitcoin.price_from_response(body);
    assert!(matches!(r, Err(PriceError::ParseError(_))));
    // the equity schema wants a string, not a number
    let body = "{\"Global Quote\":{\"05. price\":5123.45}}";
    let r = Instrument::SP500.price_from_response(body);
    assert!(matches!(r, Err(PriceError::ParseError(_))));
}

#[test]
fn equity_string_not_a_number_is_parse_error() {
    let body = "{\"Global Quote\":{\"05. price\":\"n/a\"}}";
    let r = Instrument::SP500.price_from_response(body);
    assert!(matches!(r, Err(PriceError::ParseError(_))));
}

#[test]
fn absent_quote_text_is_parse_error() {
    let r = price_from_quote_text(None);
    assert!(matches!(r, Err(PriceError::ParseError(_))));
    let p = price_from_quote_text(Some("19.99".to_string())).unwrap();
    assert_eq!(p.cents, 1999);
}
