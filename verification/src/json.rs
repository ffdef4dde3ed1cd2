//! Extraction of quote fields from JSON response bodies, done by
//! serde_json behind trusted wrappers.
//!
//! What a whole JSON document denotes takes pages to state, but it is a
//! function of the body text alone, so each lookup's result is given a
//! name that the callers' contracts build on.

use vstd::prelude::*;

verus! {

/// The decimal text of the number field at `outer.inner` of `body`, when
/// `body` parses as JSON, key `outer` holds an object whose key `inner`
/// holds a number; `None` otherwise. A function of the three texts alone,
/// computed by serde_json.
pub uninterp spec fn nested_number_text(
    body: Seq<char>,
    outer: Seq<char>,
    inner: Seq<char>,
) -> Option<Seq<char>>;

/// The string field at `outer.inner` of `body`, when `body` parses as
/// JSON, key `outer` holds an object whose key `inner` holds a string;
/// `None` otherwise. A function of the three texts alone, computed by
/// serde_json.
pub uninterp spec fn nested_string(
    body: Seq<char>,
    outer: Seq<char>,
    inner: Seq<char>,
) -> Option<Seq<char>>;

/// Relies on `serde_json::from_str`, `Value::get`, `Value::as_number` and
/// `serde_json::Number`'s `Display` form: parses `body` as JSON, walks the
/// keys `outer` then `inner`, and renders the number found there as its
/// decimal text. Deterministic in its arguments.
#[verifier::external_body]
pub(crate) fn lookup_number_text(body: &str, outer: &str, inner: &str) -> (r: Option<String>)
    ensures
        r is Some <==> nested_number_text(body@, outer@, inner@) is Some,
        r matches Some(t) ==> nested_number_text(body@, outer@, inner@) == Some(t@),
{
    let v: serde_json::Value = match serde_json::from_str(body) {
        Ok(v) => v,
        Err(_) => return None,
    };
    let n = v.get(outer)?.get(inner)?.as_number()?;
    Some(n.to_string())
}

/// Relies on `serde_json::from_str`, `Value::get` and `Value::as_str`:
/// parses `body` as JSON, walks the keys `outer` then `inner`, and hands
/// back the string found there. Deterministic in its arguments.
#[verifier::external_body]
pub(crate) fn lookup_string(body: &str, outer: &str, inner: &str) -> (r: Option<String>)
    ensures
        r is Some <==> nested_string(body@, outer@, inner@) is Some,
        r matches Some(t) ==> nested_string(body@, outer@, inner@) == Some(t@),
{
    let v: serde_json::Value = match serde_json::from_str(body) {
        Ok(v) => v,
        Err(_) => return None,
    };
    let s = v.get(outer)?.get(inner)?.as_str()?;
    Some(s.to_owned())
}

} // verus!
