//! Models of the Alamo Drafthouse schedule API.
use vstd::prelude::*;

use crate::text::into_string;
use crate::urls::{
    endpoint_url, endpoint_with_segments, join_url, joined_url, normalize_base_url,
    normalized_base_url, parsed_url, UrlError, UrlFailure,
};

verus! {

/// An Alamo Drafthouse geographic market.
#[derive(Clone, Debug, PartialEq, Eq)]
pub struct Market {
    /// The internal Alamo market identifier.
    pub id: String,
    /// The human-readable market name.
    pub name: String,
    /// The URL-safe market identifier used by schedule endpoints.
    pub slug: String,
    /// Whether the market is currently open for business, when supplied by Alamo.
    pub is_open_for_business: Option<bool>,
}

/// A scheduled presentation and its associated collection metadata.
#[derive(Clone, Debug, PartialEq, Eq)]
pub struct Presentation {
    /// The URL-safe presentation identifier used by presentation-detail endpoints.
    pub slug: String,
    /// The movie or event being presented.
    pub show: Show,
    /// The primary Alamo collection slug assigned to the presentation.
    pub primary_collection_slug: Option<String>,
    /// The projection and media formats advertised for the presentation.
    pub format_slugs: Vec<String>,
}

/// A movie or event included in an Alamo presentation.
#[derive(Clone, Debug, PartialEq, Eq)]
pub struct Show {
    /// The URL-safe show identifier, when supplied by Alamo.
    pub slug: String,
    /// The display title used by Alamo.
    pub title: String,
    /// The content certification, when supplied by Alamo.
    pub certification: Option<String>,
    /// The movie's national release date, when supplied by Alamo.
    pub national_release_date_utc: Option<String>,
    /// The movie's IMDb identifier, when supplied by Alamo.
    pub imdb_id: Option<String>,
    /// The movie's runtime in minutes, when supplied by Alamo.
    pub runtime_minutes: Option<u32>,
    /// Directors credited by Alamo.
    pub directors: Vec<String>,
}

} // verus!

verus! {

/// An error produced while configuring or calling the Alamo API.
#[derive(Debug)]
pub enum Error {
    /// The configured Alamo base URL could not be parsed.
    InvalidBaseUrl(url::ParseError),
    /// An HTTP request or response operation failed.
    Request(reqwest::Error),
    /// An endpoint URL could not take path segments, because the base URL cannot be a base.
    CannotBeABase,
    /// The URL with a slug added could pass the `url` crate's limit of `u32::MAX` bytes.
    UrlTooLong,
}

/// The production Alamo base URL.
pub open spec fn default_base_url() -> Seq<char> {
    "https://drafthouse.com/"@
}

/// Configures and constructs an Alamo [`Client`].
#[derive(Clone, Debug)]
pub struct ClientBuilder {
    base_url: String,
    timeout: std::time::Duration,
}

impl ClientBuilder {
    /// The base URL that the client will be built with.
    pub closed spec fn spec_base_url(&self) -> Seq<char> {
        self.base_url@
    }

    /// The request timeout that the client will be built with.
    pub closed spec fn spec_timeout(&self) -> std::time::Duration {
        self.timeout
    }

    /// Overrides the Alamo API base URL.
    pub fn base_url<S: Into<String>>(self, base_url: S) -> (r: Self)
        ensures
            exists|s: String|
                #[trigger] call_ensures(<S as Into<String>>::into, (base_url,), s) && s@
                    == r.spec_base_url(),
            r.spec_timeout() == self.spec_timeout(),
    {
        let stored = into_string(base_url);
        let r = ClientBuilder { base_url: stored, timeout: self.timeout };
        assert(r.spec_base_url() == stored@);
        r
    }

    /// Sets the timeout applied to each HTTP request.
    pub fn timeout(self, timeout: std::time::Duration) -> (r: Self)
        ensures
            r.spec_timeout() == timeout,
            r.spec_base_url() == self.spec_base_url(),
    {
        ClientBuilder { base_url: self.base_url, timeout }
    }

    /// Validates the configuration and constructs the client.
    pub fn build(self) -> (r: Result<Client, Error>)
        ensures
            match normalized_base_url(self.spec_base_url()) {
                Err(UrlFailure::Invalid) => r matches Err(Error::InvalidBaseUrl(_)),
                Err(UrlFailure::TooLong) => r matches Err(Error::UrlTooLong),
                Ok(u) => (r is Ok && r->Ok_0.spec_base_url() == u) || r matches Err(
                    Error::Request(_),
                ),
            },
            r matches Err(Error::InvalidBaseUrl(_)) <==> parsed_url(self.spec_base_url()) is None,
            r matches Ok(c) ==> c.spec_timeout() == self.spec_timeout(),
    {
        let base_url = match normalize_base_url(self.base_url.as_str()) {
            Ok(u) => u,
            Err(UrlError::Parse(e)) => return Err(Error::InvalidBaseUrl(e)),
            Err(UrlError::TooLong) => return Err(Error::UrlTooLong),
        };
        let http = match build_http_client(self.timeout) {
            Ok(h) => h,
            Err(e) => return Err(Error::Request(e)),
        };
        Ok(Client { http, base_url })
    }
}

impl Default for ClientBuilder {
    fn default() -> (r: Self)
        ensures
            r.spec_base_url() == default_base_url(),
            r.spec_timeout() == duration_from_secs(30),
    {
        ClientBuilder { base_url: String::from_str("https://drafthouse.com/"), timeout: seconds(30) }
    }
}

/// A blocking client for Alamo Drafthouse schedule endpoints.
#[derive(Clone, Debug)]
pub struct Client {
    http: TimedHttpClient,
    base_url: String,
}

/// The path, relative to the base URL, of the market list.
pub open spec fn markets_path() -> Seq<char> {
    "s/mother/v1/page/cclamp?useUnifiedSchedule=true"@
}

/// The path, relative to the base URL, under which market schedules are found.
pub open spec fn schedule_path() -> Seq<char> {
    "s/mother/v2/schedule/market/"@
}

/// The path, relative to the base URL, under which presentation details are found.
pub open spec fn presentation_path() -> Seq<char> {
    "s/mother/v2/schedule/presentation/"@
}

impl Client {
    /// Creates a builder with the production Alamo URL and a 30-second timeout.
    pub fn builder() -> (r: ClientBuilder)
        ensures
            r.spec_base_url() == default_base_url(),
            r.spec_timeout() == duration_from_secs(30),
    {
        ClientBuilder::default()
    }

    /// The normalized base URL of the Alamo API.
    pub closed spec fn spec_base_url(&self) -> Seq<char> {
        self.base_url@
    }

    /// The normalized base URL of the Alamo API.
    pub fn base_url(&self) -> (r: &str)
        ensures
            r@ == self.spec_base_url(),
    {
        self.base_url.as_str()
    }

    /// The HTTP client that the client was built with.
    pub closed spec fn spec_http(&self) -> reqwest::blocking::Client {
        self.http.client
    }

    /// The request timeout that the HTTP client was built with.
    pub closed spec fn spec_timeout(&self) -> std::time::Duration {
        self.http.timeout
    }

    /// The HTTP client that requests are sent with.
    pub fn http(&self) -> (r: &reqwest::blocking::Client)
        ensures
            *r == self.spec_http(),
    {
        &self.http.client
    }

    /// The URL from which every Alamo geographic market is fetched.
    pub fn markets_url(&self) -> (r: Result<String, Error>)
        ensures
            joined_url(self.spec_base_url(), markets_path()) is None <==> r is Err,
            r matches Err(e) ==> e is InvalidBaseUrl,
            r matches Ok(u) ==> joined_url(self.spec_base_url(), markets_path()) == Some(u@),
    {
        match join_url(self.base_url.as_str(), "s/mother/v1/page/cclamp?useUnifiedSchedule=true") {
            Ok(u) => Ok(u),
            Err(e) => Err(Error::InvalidBaseUrl(e)),
        }
    }

    /// The URL of the schedule of the market identified by `market_slug`.
    pub fn presentations_url(&self, market_slug: &str) -> (r: Result<String, Error>)
        ensures
            joined_url(self.spec_base_url(), schedule_path()) is None <==> r matches Err(
                Error::InvalidBaseUrl(_),
            ),
            endpoint_result(r, endpoint_url(self.spec_base_url(), schedule_path(), seq![market_slug@])),
    {
        let segments = [market_slug];
        assert(segments@.map_values(|s: &str| s@) =~= seq![market_slug@]);
        segment_endpoint(self.base_url.as_str(), "s/mother/v2/schedule/market/", &segments)
    }

    /// The URL of the details of a presentation in a market.
    pub fn presentation_url(&self, market_slug: &str, presentation_slug: &str) -> (r: Result<
        String,
        Error,
    >)
        ensures
            joined_url(self.spec_base_url(), presentation_path()) is None <==> r matches Err(
                Error::InvalidBaseUrl(_),
            ),
            endpoint_result(
                r,
                endpoint_url(
                    self.spec_base_url(),
                    presentation_path(),
                    seq![market_slug@, presentation_slug@],
                ),
            ),
    {
        let segments = [market_slug, presentation_slug];
        assert(segments@.map_values(|s: &str| s@) =~= seq![market_slug@, presentation_slug@]);
        segment_endpoint(self.base_url.as_str(), "s/mother/v2/schedule/presentation/", &segments)
    }
}

/// Whether `r` is the client's answer for the endpoint URL computation `e`.
pub open spec fn endpoint_result(r: Result<String, Error>, e: Result<Seq<char>, UrlFailure>) -> bool {
    match e {
        Ok(u) => r matches Ok(v) && v@ == u,
        Err(UrlFailure::TooLong) => r matches Err(Error::UrlTooLong),
        Err(UrlFailure::Invalid) => r matches Err(Error::InvalidBaseUrl(_)) || r matches Err(
            Error::CannotBeABase,
        ),
    }
}

/// Resolves `path` against `base` and pushes `segments`, reporting failures as client errors.
fn segment_endpoint(base: &str, path: &str, segments: &[&str]) -> (r: Result<String, Error>)
    ensures
        joined_url(base@, path@) is None <==> r matches Err(Error::InvalidBaseUrl(_)),
        endpoint_result(r, endpoint_url(base@, path@, segments@.map_values(|s: &str| s@))),
{
    match endpoint_with_segments(base, path, segments) {
        Ok(Some(u)) => Ok(u),
        Ok(None) => Err(Error::CannotBeABase),
        Err(UrlError::Parse(e)) => Err(Error::InvalidBaseUrl(e)),
        Err(UrlError::TooLong) => Err(Error::UrlTooLong),
    }
}

/// The duration of `secs` whole seconds, as `std::time::Duration::from_secs` makes it.
pub uninterp spec fn duration_from_secs(secs: u64) -> std::time::Duration;

/// A duration of `secs` seconds (`std::time::Duration::from_secs`, which cannot fail).
#[verifier::external_body]
pub(crate) fn seconds(secs: u64) -> (d: std::time::Duration)
    ensures
        d == duration_from_secs(secs),
{
    std::time::Duration::from_secs(secs)
}

/// A blocking HTTP client and the request timeout it was built with.
#[derive(Clone, Debug)]
pub(crate) struct TimedHttpClient {
    pub(crate) client: reqwest::blocking::Client,
    pub(crate) timeout: std::time::Duration,
}

/// Builds a blocking HTTP client whose requests time out after `timeout`
/// (`reqwest::blocking::ClientBuilder::timeout`, then `build`), and keeps that timeout with it.
///
/// Whether the client can be built depends on the machine (its TLS backend and resolver
/// configuration), so only the timeout it was given is stated of a client that was built.
/// `reqwest` panics when this is called from within an async runtime, which a caller of this
/// library must not do.
#[verifier::external_body]
pub(crate) fn build_http_client(timeout: std::time::Duration) -> (r: Result<
    TimedHttpClient,
    reqwest::Error,
>)
    ensures
        r matches Ok(h) ==> h.timeout == timeout,
{
    match reqwest::blocking::Client::builder().timeout(timeout).build() {
        Ok(client) => Ok(TimedHttpClient { client, timeout }),
        Err(e) => Err(e),
    }
}

} // verus!
