//! URL computations, made by the `url` crate on serialized URLs.
//!
//! A URL is held as its serialization; the `url` crate parses a serialization back into the
//! same serialization. The `url` crate indexes a serialization with `u32` and panics when a
//! path or path segments that are set make it pass [`URL_MAX_BYTES`] bytes, so such an edit is
//! made only where an upper bound on the new serialization stays within that limit.
use vstd::prelude::*;

use url::{ParseError, Url};

verus! {

/// The most bytes that the `url` crate lets a URL serialization have (`u32::MAX`).
pub const URL_MAX_BYTES: u64 = 0xffff_ffff;

/// The number of bytes of the UTF-8 encoding of `s`.
pub open spec fn byte_len(s: Seq<char>) -> int {
    vstd::utf8::encode_utf8(s).len() as int
}

/// An upper bound on the bytes of the serialization `url` once its path is set to `path`:
/// `set_path` writes each byte of `path` as at most three bytes (percent-encoded), and adds at
/// most three bytes of its own (a leading `/`, or `/.`, or `%2F`).
pub open spec fn path_set_bytes(url: Seq<char>, path: Seq<char>) -> int {
    byte_len(url) + 3 * byte_len(path) + 3
}

/// An upper bound on the bytes that pushing `segments` adds to a path: each segment is
/// written after a `/`, each of its bytes as at most three bytes (percent-encoded).
pub open spec fn segments_bytes(segments: Seq<Seq<char>>) -> int
    decreases segments.len(),
{
    if segments.len() == 0 {
        0
    } else {
        segments_bytes(segments.drop_last()) + 3 * byte_len(segments.last()) + 1
    }
}

/// An upper bound on the bytes of the serialization `url` once `segments` are pushed onto it.
pub open spec fn segments_push_bytes(url: Seq<char>, segments: Seq<Seq<char>>) -> int {
    byte_len(url) + segments_bytes(segments)
}

/// Whether a serialization of `n` bytes would pass the `url` crate's limit.
pub open spec fn past_url_limit(n: int) -> bool {
    n > URL_MAX_BYTES
}

/// Why a URL could not be computed.
#[derive(Debug)]
pub enum UrlError {
    /// The `url` crate refused a URL.
    Parse(ParseError),
    /// The edited URL could pass the `url` crate's limit of [`URL_MAX_BYTES`] bytes.
    TooLong,
}

/// The kind of failure of a URL computation, without the `url` crate's details.
#[derive(Clone, Copy, Debug, PartialEq, Eq, Structural)]
pub enum UrlFailure {
    /// The `url` crate refused a URL.
    Invalid,
    /// The edited URL could pass the `url` crate's limit of [`URL_MAX_BYTES`] bytes.
    TooLong,
}

/// The kind of a URL failure.
pub open spec fn failure_of(e: UrlError) -> UrlFailure {
    match e {
        UrlError::Parse(_) => UrlFailure::Invalid,
        UrlError::TooLong => UrlFailure::TooLong,
    }
}

/// The serialization of the absolute URL that `url::Url::parse` reads from `input`,
/// or `None` where it reports an error.
pub uninterp spec fn parsed_url(input: Seq<char>) -> Option<Seq<char>>;

/// The path of the URL serialized as `url` (`url::Url::path`), or `None` where `url` does not parse.
pub uninterp spec fn url_path_of(url: Seq<char>) -> Option<Seq<char>>;

/// The serialization of the URL `url` after `url::Url::set_path(path)`,
/// or `None` where `url` does not parse.
pub uninterp spec fn url_with_path(url: Seq<char>, path: Seq<char>) -> Option<Seq<char>>;

/// The serialization of `input` resolved against the URL `base` (`url::Url::join`),
/// or `None` where either does not parse.
pub uninterp spec fn joined_url(base: Seq<char>, input: Seq<char>) -> Option<Seq<char>>;

/// The serialization of the URL `url` after its trailing empty path segment is popped and
/// `segments` are pushed, each percent-encoded (`url::PathSegmentsMut`), or `None` where `url`
/// does not parse or cannot be a base.
pub uninterp spec fn url_with_segments(url: Seq<char>, segments: Seq<Seq<char>>) -> Option<
    Seq<char>,
>;

/// The serialization of the URL `url` after the pair `key=value` is appended to its query,
/// form-urlencoded (`url::Url::query_pairs_mut` and `append_pair`), or `None` where `url`
/// does not parse.
pub uninterp spec fn url_with_query_pair(url: Seq<char>, key: Seq<char>, value: Seq<char>) -> Option<
    Seq<char>,
>;

/// An upper bound on the bytes of the serialization `url` once the pair `key=value` is
/// appended to its query: each byte of `key` and `value` is written as at most three bytes
/// (form-urlencoded), and `?` or `&`, and `=`, are added.
pub open spec fn query_pair_bytes(url: Seq<char>, key: Seq<char>, value: Seq<char>) -> int {
    byte_len(url) + 3 * byte_len(key) + 3 * byte_len(value) + 2
}

/// Parses `input` as an absolute URL with `url::Url::parse` and returns its serialization.
///
/// A serialization parses back into itself: `Url::check_invariants` asserts this of every URL.
#[verifier::external_body]
pub(crate) fn parse_url(input: &str) -> (r: Result<String, ParseError>)
    ensures
        r is Ok <==> parsed_url(input@) is Some,
        r matches Ok(u) ==> parsed_url(input@) == Some(u@),
        r matches Ok(u) ==> parsed_url(u@) == Some(u@),
{
    match Url::parse(input) {
        Ok(u) => Ok(u.into()),
        Err(e) => Err(e),
    }
}

/// The path of the URL serialized as `url`, by `url::Url::path`.
#[verifier::external_body]
pub(crate) fn url_path(url: &str) -> (r: Result<String, ParseError>)
    ensures
        r is Ok <==> url_path_of(url@) is Some,
        r is Ok <==> parsed_url(url@) is Some,
        r matches Ok(p) ==> url_path_of(url@) == Some(p@),
{
    match Url::parse(url) {
        Ok(u) => Ok(u.path().to_string()),
        Err(e) => Err(e),
    }
}

/// Replaces the path of the URL serialized as `url` with `url::Url::set_path`.
///
/// `set_path` panics where the new serialization would pass `u32::MAX` bytes, which
/// [`path_set_bytes`] of the parsed URL bounds.
#[verifier::external_body]
pub(crate) fn set_url_path(url: &str, path: &str) -> (r: Result<String, ParseError>)
    requires
        parsed_url(url@) matches Some(u) ==> !past_url_limit(path_set_bytes(u, path@)),
    ensures
        r is Ok <==> url_with_path(url@, path@) is Some,
        r is Ok <==> parsed_url(url@) is Some,
        r matches Ok(u) ==> url_with_path(url@, path@) == Some(u@),
{
    match Url::parse(url) {
        Ok(mut u) => {
            u.set_path(path);
            Ok(u.into())
        },
        Err(e) => Err(e),
    }
}

/// Appends the pair `key=value` to the query of the URL serialized as `url`, with
/// `url::Url::query_pairs_mut` and `append_pair`.
///
/// When the serializer is finished, a fragment of the URL is put back after the query, which
/// panics where the new serialization would pass `u32::MAX` bytes; [`query_pair_bytes`] of the
/// parsed URL bounds it.
#[verifier::external_body]
pub(crate) fn append_query_pair(url: &str, key: &str, value: &str) -> (r: Result<
    String,
    ParseError,
>)
    requires
        parsed_url(url@) matches Some(u) ==> !past_url_limit(query_pair_bytes(u, key@, value@)),
    ensures
        r is Ok <==> parsed_url(url@) is Some,
        r is Ok <==> url_with_query_pair(url@, key@, value@) is Some,
        r matches Ok(v) ==> url_with_query_pair(url@, key@, value@) == Some(v@),
{
    match Url::parse(url) {
        Ok(mut u) => {
            u.query_pairs_mut().append_pair(key, value);
            Ok(u.into())
        },
        Err(e) => Err(e),
    }
}

/// Resolves `input` against the URL serialized as `base` with `url::Url::join`.
///
/// A serialization parses back into itself: `Url::check_invariants` asserts this of every URL.
#[verifier::external_body]
pub(crate) fn join_url(base: &str, input: &str) -> (r: Result<String, ParseError>)
    ensures
        r is Ok <==> joined_url(base@, input@) is Some,
        r matches Ok(u) ==> joined_url(base@, input@) == Some(u@),
        r matches Ok(u) ==> parsed_url(u@) == Some(u@),
{
    match Url::parse(base) {
        Ok(b) => match b.join(input) {
            Ok(u) => Ok(u.into()),
            Err(e) => Err(e),
        },
        Err(e) => Err(e),
    }
}

/// Pops a trailing empty path segment from the URL serialized as `url` and pushes `segments`,
/// with `url::Url::path_segments_mut`.
///
/// The segments are written back when the `PathSegmentsMut` is dropped, which panics where the
/// new serialization would pass `u32::MAX` bytes, which [`segments_push_bytes`] of the parsed
/// URL bounds.
#[verifier::external_body]
pub(crate) fn push_url_segments(url: &str, segments: &[&str]) -> (r: Option<String>)
    requires
        parsed_url(url@) matches Some(u) ==> !past_url_limit(
            segments_push_bytes(u, segments@.map_values(|s: &str| s@)),
        ),
    ensures
        r is Some <==> url_with_segments(url@, segments@.map_values(|s: &str| s@)) is Some,
        r matches Some(u) ==> url_with_segments(url@, segments@.map_values(|s: &str| s@)) == Some(
            u@,
        ),
{
    let mut u = match Url::parse(url) {
        Ok(u) => u,
        Err(_) => return None,
    };
    match u.path_segments_mut() {
        Ok(mut path) => {
            path.pop_if_empty().extend(segments);
        },
        Err(()) => return None,
    }
    Some(u.into())
}

/// The serialization of `base` once parsed and given a path that ends with `/`.
pub open spec fn normalized_base_url(base: Seq<char>) -> Result<Seq<char>, UrlFailure> {
    match parsed_url(base) {
        None => Err(UrlFailure::Invalid),
        Some(u) => match url_path_of(u) {
            None => Err(UrlFailure::Invalid),
            Some(p) => if p.len() > 0 && p.last() == '/' {
                Ok(u)
            } else if past_url_limit(path_set_bytes(u, p + seq!['/'])) {
                Err(UrlFailure::TooLong)
            } else {
                match url_with_path(u, p + seq!['/']) {
                    Some(v) => Ok(v),
                    None => Err(UrlFailure::Invalid),
                }
            },
        },
    }
}

/// The number of bytes of `s`.
fn byte_count(s: &str) -> (n: usize)
    ensures
        n == byte_len(s@),
{
    let b = s.as_bytes();
    b.len()
}

/// Parses `base` and appends `/` to its path where the path does not end with one already.
pub fn normalize_base_url(base: &str) -> (r: Result<String, UrlError>)
    ensures
        match normalized_base_url(base@) {
            Ok(u) => r matches Ok(v) && v@ == u,
            Err(f) => r matches Err(e) && failure_of(e) == f,
        },
        normalized_base_url(base@) == Err::<Seq<char>, UrlFailure>(UrlFailure::Invalid)
            <==> parsed_url(base@) is None,
{
    let url = match parse_url(base) {
        Ok(u) => u,
        Err(e) => return Err(UrlError::Parse(e)),
    };
    let path = match url_path(url.as_str()) {
        Ok(p) => p,
        Err(e) => return Err(UrlError::Parse(e)),
    };
    let n = path.as_str().unicode_len();
    if n > 0 && path.as_str().get_char(n - 1) == '/' {
        Ok(url)
    } else {
        let with_slash = path.concat("/");
        proof {
            reveal_strlit("/");
        }
        assert(with_slash@ =~= path@ + seq!['/']);
        let bound: u128 = byte_count(url.as_str()) as u128 + 3 * (byte_count(with_slash.as_str()) as u128) + 3;
        if bound > URL_MAX_BYTES as u128 {
            return Err(UrlError::TooLong);
        }
        match set_url_path(url.as_str(), with_slash.as_str()) {
            Ok(u) => Ok(u),
            Err(e) => Err(UrlError::Parse(e)),
        }
    }
}

/// An endpoint URL: `path` resolved against `base`, with `segments` pushed onto it.
pub open spec fn endpoint_url(base: Seq<char>, path: Seq<char>, segments: Seq<Seq<char>>) -> Result<
    Seq<char>,
    UrlFailure,
> {
    match joined_url(base, path) {
        None => Err(UrlFailure::Invalid),
        Some(u) => if past_url_limit(segments_push_bytes(u, segments)) {
            Err(UrlFailure::TooLong)
        } else {
            match url_with_segments(u, segments) {
                Some(v) => Ok(v),
                None => Err(UrlFailure::Invalid),
            }
        },
    }
}

/// The bound of a prefix of `segments` is at most that of all of them.
proof fn lemma_segments_bytes_prefix(segments: Seq<Seq<char>>, i: int)
    requires
        0 <= i <= segments.len(),
    ensures
        segments_bytes(segments.take(i)) <= segments_bytes(segments),
    decreases segments.len() - i,
{
    if i < segments.len() {
        lemma_segments_bytes_prefix(segments, i + 1);
        assert(segments.take(i + 1).drop_last() =~= segments.take(i));
    } else {
        assert(segments.take(i) =~= segments);
    }
}

/// Resolves `path` against `base` and pushes `segments` onto the result.
///
/// Where the joined URL cannot be a base, no segment can be pushed, and the result is
/// `Ok(None)`.
pub fn endpoint_with_segments(base: &str, path: &str, segments: &[&str]) -> (r: Result<
    Option<String>,
    UrlError,
>)
    ensures
        match endpoint_url(base@, path@, segments@.map_values(|s: &str| s@)) {
            Ok(u) => r matches Ok(Some(v)) && v@ == u,
            Err(UrlFailure::TooLong) => r matches Err(UrlError::TooLong),
            Err(UrlFailure::Invalid) => r matches Err(UrlError::Parse(_)) || r matches Ok(None),
        },
        joined_url(base@, path@) is None <==> r matches Err(UrlError::Parse(_)),
{
    let joined = match join_url(base, path) {
        Ok(u) => u,
        Err(e) => return Err(UrlError::Parse(e)),
    };
    let ghost segs = segments@.map_values(|s: &str| s@);
    let mut total: u128 = byte_count(joined.as_str()) as u128;
    if total > URL_MAX_BYTES as u128 {
        proof {
            lemma_segments_bytes_nonneg(segs);
        }
        return Err(UrlError::TooLong);
    }
    let mut i: usize = 0;
    while i < segments.len()
        invariant
            i <= segments@.len(),
            joined_url(base@, path@) == Some(joined@),
            parsed_url(joined@) == Some(joined@),
            segs == segments@.map_values(|s: &str| s@),
            total == byte_len(joined@) + segments_bytes(segs.take(i as int)),
            total <= URL_MAX_BYTES,
        decreases segments.len() - i,
    {
        assert(segs.take(i + 1).drop_last() =~= segs.take(i as int));
        assert(segs[i as int] == segments@[i as int]@);
        total = total + 3 * (byte_count(segments[i]) as u128) + 1;
        i = i + 1;
        if total > URL_MAX_BYTES as u128 {
            proof {
                lemma_segments_bytes_prefix(segs, i as int);
            }
            return Err(UrlError::TooLong);
        }
    }
    assert(segs.take(i as int) =~= segs);
    Ok(push_url_segments(joined.as_str(), segments))
}

/// The bound of any segments is not negative.
proof fn lemma_segments_bytes_nonneg(segments: Seq<Seq<char>>)
    ensures
        segments_bytes(segments) >= 0,
    decreases segments.len(),
{
    if segments.len() > 0 {
        lemma_segments_bytes_nonneg(segments.drop_last());
    }
}

/// `path` resolved against `base`, with the pair `key=value` appended to its query.
pub open spec fn query_url(base: Seq<char>, path: Seq<char>, key: Seq<char>, value: Seq<char>) -> Result<
    Seq<char>,
    UrlFailure,
> {
    match joined_url(base, path) {
        None => Err(UrlFailure::Invalid),
        Some(u) => if past_url_limit(query_pair_bytes(u, key, value)) {
            Err(UrlFailure::TooLong)
        } else {
            match url_with_query_pair(u, key, value) {
                Some(v) => Ok(v),
                None => Err(UrlFailure::Invalid),
            }
        },
    }
}

/// Resolves `path` against `base` and appends the pair `key=value` to the query.
pub fn url_with_query(base: &str, path: &str, key: &str, value: &str) -> (r: Result<
    String,
    UrlError,
>)
    ensures
        match query_url(base@, path@, key@, value@) {
            Ok(u) => r matches Ok(v) && v@ == u,
            Err(f) => r matches Err(e) && failure_of(e) == f,
        },
        query_url(base@, path@, key@, value@) == Err::<Seq<char>, UrlFailure>(UrlFailure::Invalid)
            <==> joined_url(base@, path@) is None,
{
    let joined = match join_url(base, path) {
        Ok(u) => u,
        Err(e) => return Err(UrlError::Parse(e)),
    };
    let bound: u128 = byte_count(joined.as_str()) as u128 + 3 * (byte_count(key) as u128) + 3 * (
    byte_count(value) as u128) + 2;
    if bound > URL_MAX_BYTES as u128 {
        return Err(UrlError::TooLong);
    }
    match append_query_pair(joined.as_str(), key, value) {
        Ok(u) => Ok(u),
        Err(e) => Err(UrlError::Parse(e)),
    }
}

} // verus!
