//! The error taxonomy: network, parse, and file failures.

use vstd::prelude::*;
use vstd::string::StringExecFns;

verus! {

/// A failure while fetching, parsing, or persisting a quote.
///
/// Every error carries a human-readable detail message.
#[derive(Debug, Clone)]
pub enum PriceError {
    /// The request could not be sent or the transport failed.
    NetworkError(String),
    /// The response body does not conform to the expected schema or
    /// cannot be coerced to a price.
    ParseError(String),
    /// The log file cannot be opened, created, or written.
    FileError(String),
}

impl PriceError {
    /// The detail message carried by this error.
    pub fn detail(&self) -> (r: &str)
        ensures
            r@ == self.spec_detail(),
    {
        match self {
            PriceError::NetworkError(m) => m.as_str(),
            PriceError::ParseError(m) => m.as_str(),
            PriceError::FileError(m) => m.as_str(),
        }
    }

    /// The detail message, as a sequence of characters.
    pub open spec fn spec_detail(&self) -> Seq<char> {
        match self {
            PriceError::NetworkError(m) => m@,
            PriceError::ParseError(m) => m@,
            PriceError::FileError(m) => m@,
        }
    }

    /// A display line for the error: a fixed prefix naming the kind,
    /// followed by the detail message.
    pub fn message(&self) -> (r: String)
        ensures
            r@ == self.spec_message(),
    {
        let prefix = match self {
            PriceError::NetworkError(_) => "Network Error: ",
            PriceError::ParseError(_) => "Parse Error: ",
            PriceError::FileError(_) => "File Error: ",
        };
        let mut out = prefix.to_owned();
        out.append(self.detail());
        out
    }

    /// What `message` returns.
    pub open spec fn spec_message(&self) -> Seq<char> {
        match self {
            PriceError::NetworkError(m) => "Network Error: "@ + m@,
            PriceError::ParseError(m) => "Parse Error: "@ + m@,
            PriceError::FileError(m) => "File Error: "@ + m@,
        }
    }
}

} // verus!
