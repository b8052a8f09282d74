//! Types of the outside crates that the library holds and passes on without looking inside.
use vstd::prelude::*;

use reqwest::blocking::Client as HttpClient;
use reqwest::Error as RequestError;

verus! {

/// A JSON value, as Radarr returns it for images and movie files.
#[verifier::external_type_specification]
#[verifier::external_body]
pub struct ExJsonValue(serde_json::Value);

/// Why a URL could not be parsed.
#[verifier::external_type_specification]
#[verifier::external_body]
pub struct ExUrlParseError(url::ParseError);

/// A failure of an HTTP request or of building an HTTP client.
#[verifier::external_type_specification]
#[verifier::external_body]
pub struct ExRequestError(RequestError);

/// An HTTP status code.
#[verifier::external_type_specification]
#[verifier::external_body]
pub struct ExStatusCode(reqwest::StatusCode);

/// A validated HTTP header value.
#[verifier::external_type_specification]
#[verifier::external_body]
pub struct ExHeaderValue(reqwest::header::HeaderValue);

/// The rejection of a string that cannot be an HTTP header value.
#[verifier::external_type_specification]
#[verifier::external_body]
pub struct ExInvalidHeaderValue(reqwest::header::InvalidHeaderValue);

/// A blocking HTTP client.
#[verifier::external_type_specification]
#[verifier::external_body]
pub struct ExHttpClient(HttpClient);

/// `impl From<&str> for String`: the new `String` holds the characters of the `&str`
/// (std documents it as converting a `&str` into a `String`).
pub assume_specification<'_0>[ <String as core::convert::From<&str>>::from ](s: &str) -> (r: String)
    ensures
        r@ == s@,
;

/// `impl<T> From<T> for T`: std documents it as returning the argument unchanged.
pub assume_specification<T>[ <T as core::convert::From<T>>::from ](t: T) -> (r: T)
    ensures
        r == t,
;

} // verus!

verus! {

/// `Clone` of `reqwest::blocking::Client`: the clone shares the original's connection pool
/// (reqwest's `Client` holds it behind an `Arc`); nothing is stated of it.
pub assume_specification[ <HttpClient as core::clone::Clone>::clone ](c: &HttpClient) -> HttpClient;

/// `Clone` of `http::HeaderValue`, a derived clone of its bytes; nothing is stated of it.
pub assume_specification[ <reqwest::header::HeaderValue as core::clone::Clone>::clone ](
    v: &reqwest::header::HeaderValue,
) -> reqwest::header::HeaderValue;

/// `Clone` of `std::time::Duration`, which is `Copy`: the clone is the same duration.
pub assume_specification[ <std::time::Duration as core::clone::Clone>::clone ](
    d: &std::time::Duration,
) -> (r: std::time::Duration)
    ensures
        r == *d,
;

} // verus!
