//! Validity checks delegated to the `http` crate.
//!
//! The proxy never builds its own grammar for URIs or header values: it
//! asks `http` whether a candidate string parses, and records the verdict
//! under an uninterpreted name. Acceptance depends on the characters of
//! the string alone.

use vstd::prelude::*;

verus! {

/// Whether `http::uri::PathAndQuery` accepts the string.
pub uninterp spec fn path_and_query_accepted(s: Seq<char>) -> bool;

/// Whether `http::header::HeaderValue` accepts the string.
pub uninterp spec fn header_value_accepted(s: Seq<char>) -> bool;

/// Whether `http::Uri` accepts the string.
pub uninterp spec fn uri_accepted(s: Seq<char>) -> bool;

/// Relies on `http::uri::PathAndQuery::try_from(&str)`: it checks the
/// characters of the path and the query, and its verdict is a function of
/// them alone.
#[verifier::external_body]
pub(crate) fn path_and_query_ok(s: &str) -> (r: bool)
    ensures
        r == path_and_query_accepted(s@),
{
    http::uri::PathAndQuery::try_from(s).is_ok()
}

/// Relies on `http::header::HeaderValue::from_str`: it accepts exactly the
/// strings whose bytes are legal in a header value, a function of the
/// characters alone.
#[verifier::external_body]
pub(crate) fn header_value_ok(s: &str) -> (r: bool)
    ensures
        r == header_value_accepted(s@),
{
    http::header::HeaderValue::from_str(s).is_ok()
}

/// Relies on `http::Uri::try_from(&str)`: it parses the string as a URI,
/// and its verdict is a function of the characters alone.
#[verifier::external_body]
pub(crate) fn uri_ok(s: &str) -> (r: bool)
    ensures
        r == uri_accepted(s@),
{
    http::Uri::try_from(s).is_ok()
}

} // verus!
