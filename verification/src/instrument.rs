//! The tracked instruments: their names, endpoints, log files, and how
//! each one's quote is extracted from its provider's response body.

use vstd::prelude::*;
use crate::error::PriceError;
use crate::json::nested_number_text;
use crate::json::nested_string;
use crate::json::lookup_number_text;
use crate::json::lookup_string;
use crate::price::Price;
use crate::price::parse_price;
use crate::price::valid_price_text;
use crate::price::price_cents_of;

verus! {

/// One tracked financial instrument. The set is closed: Bitcoin, Ethereum,
/// and the S&P 500 equity index.
#[derive(Debug, Clone, Copy, PartialEq, Eq, Structural)]
pub enum Instrument {
    Bitcoin,
    Ethereum,
    SP500,
}

impl Instrument {
    /// The display name of the instrument.
    pub open spec fn spec_name(self) -> Seq<char> {
        match self {
            Instrument::Bitcoin => "Bitcoin"@,
            Instrument::Ethereum => "Ethereum"@,
            Instrument::SP500 => "S&P 500"@,
        }
    }

    /// The display name of the instrument.
    pub fn name(&self) -> (r: &'static str)
        ensures
            r@ == self.spec_name(),
    {
        match self {
            Instrument::Bitcoin => "Bitcoin",
            Instrument::Ethereum => "Ethereum",
            Instrument::SP500 => "S&P 500",
        }
    }

    /// The log file name owned by this instrument; it is looked up here,
    /// never re-derived from the display name.
    pub open spec fn spec_log_filename(self) -> Seq<char> {
        match self {
            Instrument::Bitcoin => "bitcoin_prices.csv"@,
            Instrument::Ethereum => "ethereum_prices.csv"@,
            Instrument::SP500 => "sp500_prices.csv"@,
        }
    }

    /// The log file name owned by this instrument.
    pub fn log_filename(&self) -> (r: &'static str)
        ensures
            r@ == self.spec_log_filename(),
    {
        match self {
            Instrument::Bitcoin => "bitcoin_prices.csv",
            Instrument::Ethereum => "ethereum_prices.csv",
            Instrument::SP500 => "sp500_prices.csv",
        }
    }

    /// The fixed quote endpoint for this instrument. The equity index uses
    /// the provider whose response shape `price_from_response` expects.
    pub open spec fn spec_endpoint_url(self) -> Seq<char> {
        match self {
            Instrument::Bitcoin => "https://api.coingecko.com/api/v3/simple/price?ids=bitcoin&vs_currencies=usd"@,
            Instrument::Ethereum => "https://api.coingecko.com/api/v3/simple/price?ids=ethereum&vs_currencies=usd"@,
            Instrument::SP500 => "https://www.alphavantage.co/query?function=GLOBAL_QUOTE&symbol=SPY&apikey=demo"@,
        }
    }

    /// The fixed quote endpoint for this instrument.
    pub fn endpoint_url(&self) -> (r: &'static str)
        ensures
            r@ == self.spec_endpoint_url(),
    {
        match self {
            Instrument::Bitcoin => "https://api.coingecko.com/api/v3/simple/price?ids=bitcoin&vs_currencies=usd",
            Instrument::Ethereum => "https://api.coingecko.com/api/v3/simple/price?ids=ethereum&vs_currencies=usd",
            Instrument::SP500 => "https://www.alphavantage.co/query?function=GLOBAL_QUOTE&symbol=SPY&apikey=demo",
        }
    }

    /// The quote text carried by a response body for this instrument, when
    /// the body has the provider's shape: the crypto providers nest a
    /// number under `<asset>.usd`, the equity provider a string under
    /// `Global Quote."05. price"`.
    pub open spec fn spec_quote_text(self, body: Seq<char>) -> Option<Seq<char>> {
        match self {
            Instrument::Bitcoin => nested_number_text(body, "bitcoin"@, "usd"@),
            Instrument::Ethereum => nested_number_text(body, "ethereum"@, "usd"@),
            Instrument::SP500 => nested_string(body, "Global Quote"@, "05. price"@),
        }
    }

    /// Extract this instrument's price from a fetched response body.
    ///
    /// Succeeds exactly when the body carries the quote field in the
    /// provider's shape and its text is a representable decimal price;
    /// every rejection is a `ParseError`.
    pub fn price_from_response(&self, body: &str) -> (r: Result<Price, PriceError>)
        ensures
            r is Ok <==> (self.spec_quote_text(body@) matches Some(t) && valid_price_text(t)
                && price_cents_of(t) <= u64::MAX),
            r matches Ok(p) ==> (self.spec_quote_text(body@) matches Some(t) && p.cents
                == price_cents_of(t)),
            r matches Err(e) ==> e is ParseError,
    {
        let quote: Option<String> = match self {
            Instrument::Bitcoin => lookup_number_text(body, "bitcoin", "usd"),
            Instrument::Ethereum => lookup_number_text(body, "ethereum", "usd"),
            Instrument::SP500 => lookup_string(body, "Global Quote", "05. price"),
        };
        price_from_quote_text(quote)
    }
}

/// Turn an extracted quote text into a price: an absent or malformed field
/// is a `ParseError`, and the text is parsed as decimal price text.
pub fn price_from_quote_text(quote: Option<String>) -> (r: Result<Price, PriceError>)
    ensures
        r is Ok <==> (quote matches Some(t) && valid_price_text(t@) && price_cents_of(t@)
            <= u64::MAX),
        r matches Ok(p) ==> (quote matches Some(t) && p.cents == price_cents_of(t@)),
        r matches Err(e) ==> e is ParseError,
{
    match quote {
        Some(t) => parse_price(t.as_str()),
        None => Err(
            PriceError::ParseError("expected quote field is absent or malformed".to_owned()),
        ),
    }
}

} // verus!
