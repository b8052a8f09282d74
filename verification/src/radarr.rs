//! Models, the add-movie payload builder and client configuration for the Radarr v3 API.
use vstd::prelude::*;

use crate::alamo_movies::{build_http_client, duration_from_secs, seconds, TimedHttpClient};
use crate::text::{into_string, is_blank, is_blank_text};
use crate::urls::{
    join_url, joined_url, normalize_base_url, normalized_base_url, parsed_url, query_url, url_with_query,
    UrlError, UrlFailure,
};
use reqwest::header::{HeaderValue, InvalidHeaderValue};
use serde_json::Value;

verus! {

/// An alternative title associated with a Radarr movie search result.
#[derive(Clone, Debug, PartialEq)]
pub struct AlternativeTitle {
    /// The alternative movie title.
    pub title: String,
}

/// The subset of a Radarr movie lookup result needed to add and identify a movie.
#[derive(Clone, Debug, PartialEq)]
pub struct SearchResult {
    /// The Radarr resource identifier, or zero when the movie is not in the library.
    pub id: u32,
    /// The canonical movie title.
    pub title: String,
    /// Titles by which the movie is also known.
    pub alternate_titles: Vec<AlternativeTitle>,
    /// The movie's release year.
    pub year: u32,
    /// The movie's TMDB identifier.
    pub tmdb_id: u32,
    /// The movie's IMDb identifier, when supplied by Radarr.
    pub imdb_id: Option<String>,
    /// The movie's runtime in minutes, when supplied by Radarr.
    pub runtime: Option<u32>,
    /// Radarr's URL-safe title identifier.
    pub title_slug: String,
    /// Image metadata returned by Radarr and forwarded when adding the movie.
    pub images: Vec<Value>,
    /// Whether Radarr is already monitoring the movie.
    pub monitored: bool,
    /// Existing movie-file metadata, when Radarr already has a file for the movie.
    pub movie_file: Option<Value>,
}

/// Whether a lookup result stands for a movie that Radarr already has.
pub open spec fn already_added(r: SearchResult) -> bool {
    r.id > 0 || r.monitored || r.movie_file is Some
}

impl SearchResult {
    /// Returns whether the result represents a movie already present in Radarr.
    pub fn is_already_added(&self) -> (r: bool)
        ensures
            r == already_added(*self),
    {
        self.id > 0 || self.monitored || self.movie_file.is_some()
    }
}

/// A root folder configured in Radarr.
#[derive(Clone, Debug, PartialEq, Eq)]
pub struct RootFolder {
    /// The filesystem path where Radarr stores movies.
    pub path: String,
}

/// An error produced while configuring or calling Radarr.
#[derive(Debug)]
pub enum Error {
    /// No non-empty Radarr API token was provided.
    MissingApiToken,
    /// The configured Radarr base URL could not be parsed.
    InvalidBaseUrl(url::ParseError),
    /// The API token could not be represented as an HTTP header value.
    InvalidApiToken(InvalidHeaderValue),
    /// An HTTP request or response operation failed.
    Request(reqwest::Error),
    /// Radarr returned a non-success HTTP response.
    Api {
        /// The HTTP status returned by Radarr.
        status: reqwest::StatusCode,
        /// The response body returned by Radarr.
        body: String,
    },
    /// A movie payload was built without a destination root folder.
    MissingRootFolder,
    /// A URL to build (the base URL with `/` added to its path, or a lookup URL with its
    /// search term) could pass the `url` crate's limit of `u32::MAX` bytes.
    UrlTooLong,
}

/// The monitoring mode that newly added movies get.
pub open spec fn movie_only() -> Seq<char> {
    "movieOnly"@
}

/// Options controlling Radarr's behavior after adding a movie.
#[derive(Clone, Debug, PartialEq)]
pub struct AddOptions {
    search_for_movie: bool,
    monitor: &'static str,
}

impl AddOptions {
    /// Whether Radarr searches for the movie right after adding it.
    pub fn search_for_movie(&self) -> (r: bool)
        ensures
            r == self.spec_search_for_movie(),
    {
        self.search_for_movie
    }

    /// The monitoring mode.
    pub fn monitor(&self) -> (r: &'static str)
        ensures
            r@ == self.spec_monitor(),
    {
        self.monitor
    }

    /// Whether Radarr searches for the movie right after adding it.
    pub closed spec fn spec_search_for_movie(&self) -> bool {
        self.search_for_movie
    }

    /// The monitoring mode.
    pub closed spec fn spec_monitor(&self) -> Seq<char> {
        self.monitor@
    }
}

/// A request body for Radarr's add-movie endpoint.
#[derive(Clone, Debug, PartialEq)]
pub struct AddMoviePayload {
    title: String,
    quality_profile_id: u32,
    title_slug: String,
    images: Vec<Value>,
    tmdb_id: u32,
    year: u32,
    root_folder_path: String,
    monitored: bool,
    add_options: AddOptions,
}

/// Whether `p` is the payload that adds `movie` with the given settings.
pub open spec fn payload_for(
    p: AddMoviePayload,
    movie: SearchResult,
    quality_profile_id: u32,
    root_folder_path: Seq<char>,
    monitored: bool,
    search_for_movie: bool,
) -> bool {
    &&& p.spec_title() == movie.title@
    &&& p.spec_quality_profile_id() == quality_profile_id
    &&& p.spec_title_slug() == movie.title_slug@
    &&& p.spec_images().len() == movie.images@.len()
    &&& forall|i: int|
        0 <= i < movie.images@.len() ==> cloned::<Value>(
            #[trigger] movie.images@[i],
            p.spec_images()[i],
        )
    &&& p.spec_tmdb_id() == movie.tmdb_id
    &&& p.spec_year() == movie.year
    &&& p.spec_root_folder_path() == root_folder_path
    &&& p.spec_monitored() == monitored
    &&& p.spec_add_options().spec_search_for_movie() == search_for_movie
    &&& p.spec_add_options().spec_monitor() == movie_only()
}

impl AddMoviePayload {
    /// Creates a payload builder initialized from a movie lookup result.
    pub fn builder(movie: &SearchResult) -> (r: AddMoviePayloadBuilder<'_>)
        ensures
            r.spec_movie() == *movie,
            r.spec_quality_profile_id() == 1,
            r.spec_root_folder_path() is None,
            r.spec_monitored(),
            r.spec_search_for_movie(),
    {
        AddMoviePayloadBuilder {
            movie,
            quality_profile_id: 1,
            root_folder_path: None,
            monitored: true,
            search_for_movie: true,
        }
    }

    /// The movie title.
    pub closed spec fn spec_title(&self) -> Seq<char> {
        self.title@
    }

    /// The quality profile identifier.
    pub closed spec fn spec_quality_profile_id(&self) -> u32 {
        self.quality_profile_id
    }

    /// Radarr's URL-safe title identifier.
    pub closed spec fn spec_title_slug(&self) -> Seq<char> {
        self.title_slug@
    }

    /// Image metadata forwarded from the lookup result.
    pub closed spec fn spec_images(&self) -> Seq<Value> {
        self.images@
    }

    /// The TMDB identifier.
    pub closed spec fn spec_tmdb_id(&self) -> u32 {
        self.tmdb_id
    }

    /// The release year.
    pub closed spec fn spec_year(&self) -> u32 {
        self.year
    }

    /// The destination root folder.
    pub closed spec fn spec_root_folder_path(&self) -> Seq<char> {
        self.root_folder_path@
    }

    /// Whether Radarr monitors the movie.
    pub closed spec fn spec_monitored(&self) -> bool {
        self.monitored
    }

    /// The options applied after adding.
    pub closed spec fn spec_add_options(&self) -> AddOptions {
        self.add_options
    }

    /// The movie title.
    pub fn title(&self) -> (r: &str)
        ensures
            r@ == self.spec_title(),
    {
        self.title.as_str()
    }

    /// The quality profile identifier.
    pub fn quality_profile_id(&self) -> (r: u32)
        ensures
            r == self.spec_quality_profile_id(),
    {
        self.quality_profile_id
    }

    /// Radarr's URL-safe title identifier.
    pub fn title_slug(&self) -> (r: &str)
        ensures
            r@ == self.spec_title_slug(),
    {
        self.title_slug.as_str()
    }

    /// Image metadata forwarded from the lookup result.
    pub fn images(&self) -> (r: &Vec<Value>)
        ensures
            r@ == self.spec_images(),
    {
        &self.images
    }

    /// The TMDB identifier.
    pub fn tmdb_id(&self) -> (r: u32)
        ensures
            r == self.spec_tmdb_id(),
    {
        self.tmdb_id
    }

    /// The release year.
    pub fn year(&self) -> (r: u32)
        ensures
            r == self.spec_year(),
    {
        self.year
    }

    /// The destination root folder.
    pub fn root_folder_path(&self) -> (r: &str)
        ensures
            r@ == self.spec_root_folder_path(),
    {
        self.root_folder_path.as_str()
    }

    /// Whether Radarr monitors the movie.
    pub fn monitored(&self) -> (r: bool)
        ensures
            r == self.spec_monitored(),
    {
        self.monitored
    }

    /// The options applied after adding.
    pub fn add_options(&self) -> (r: &AddOptions)
        ensures
            *r == self.spec_add_options(),
    {
        &self.add_options
    }
}

/// Builds and validates an [`AddMoviePayload`].
#[derive(Debug)]
pub struct AddMoviePayloadBuilder<'a> {
    movie: &'a SearchResult,
    quality_profile_id: u32,
    root_folder_path: Option<String>,
    monitored: bool,
    search_for_movie: bool,
}

impl<'a> AddMoviePayloadBuilder<'a> {
    /// The movie to add.
    pub closed spec fn spec_movie(&self) -> SearchResult {
        *self.movie
    }

    /// The quality profile identifier.
    pub closed spec fn spec_quality_profile_id(&self) -> u32 {
        self.quality_profile_id
    }

    /// The destination root folder, if set.
    pub closed spec fn spec_root_folder_path(&self) -> Option<Seq<char>> {
        match self.root_folder_path {
            Some(p) => Some(p@),
            None => None,
        }
    }

    /// Whether Radarr will monitor the movie.
    pub closed spec fn spec_monitored(&self) -> bool {
        self.monitored
    }

    /// Whether Radarr will search for the movie right after adding it.
    pub closed spec fn spec_search_for_movie(&self) -> bool {
        self.search_for_movie
    }

    /// Sets the Radarr quality profile identifier.
    pub fn quality_profile_id(self, id: u32) -> (r: Self)
        ensures
            r.spec_quality_profile_id() == id,
            r.spec_movie() == self.spec_movie(),
            r.spec_root_folder_path() == self.spec_root_folder_path(),
            r.spec_monitored() == self.spec_monitored(),
            r.spec_search_for_movie() == self.spec_search_for_movie(),
    {
        AddMoviePayloadBuilder { quality_profile_id: id, ..self }
    }

    /// Sets the destination root-folder path.
    pub fn root_folder_path<S: Into<String>>(self, path: S) -> (r: Self)
        ensures
            exists|s: String|
                #[trigger] call_ensures(<S as Into<String>>::into, (path,), s)
                    && r.spec_root_folder_path() == Some(s@),
            r.spec_movie() == self.spec_movie(),
            r.spec_quality_profile_id() == self.spec_quality_profile_id(),
            r.spec_monitored() == self.spec_monitored(),
            r.spec_search_for_movie() == self.spec_search_for_movie(),
    {
        let stored = into_string(path);
        let ghost p = stored@;
        let r = self.with_root_folder_path(stored);
        assert(r.spec_root_folder_path() == Some(p));
        r
    }

    /// Sets the destination root-folder path to `path`.
    pub(crate) fn with_root_folder_path(self, path: String) -> (r: Self)
        ensures
            r.spec_root_folder_path() == Some(path@),
            r.spec_movie() == self.spec_movie(),
            r.spec_quality_profile_id() == self.spec_quality_profile_id(),
            r.spec_monitored() == self.spec_monitored(),
            r.spec_search_for_movie() == self.spec_search_for_movie(),
    {
        AddMoviePayloadBuilder { root_folder_path: Some(path), ..self }
    }

    /// Sets whether Radarr should monitor the movie.
    pub fn monitored(self, monitored: bool) -> (r: Self)
        ensures
            r.spec_monitored() == monitored,
            r.spec_movie() == self.spec_movie(),
            r.spec_quality_profile_id() == self.spec_quality_profile_id(),
            r.spec_root_folder_path() == self.spec_root_folder_path(),
            r.spec_search_for_movie() == self.spec_search_for_movie(),
    {
        AddMoviePayloadBuilder { monitored, ..self }
    }

    /// Sets whether Radarr should search for the movie immediately after adding it.
    pub fn search_for_movie(self, search: bool) -> (r: Self)
        ensures
            r.spec_search_for_movie() == search,
            r.spec_movie() == self.spec_movie(),
            r.spec_quality_profile_id() == self.spec_quality_profile_id(),
            r.spec_root_folder_path() == self.spec_root_folder_path(),
            r.spec_monitored() == self.spec_monitored(),
    {
        AddMoviePayloadBuilder { search_for_movie: search, ..self }
    }

    /// Validates the required settings and constructs the payload.
    pub fn build(self) -> (r: Result<AddMoviePayload, Error>)
        ensures
            match self.spec_root_folder_path() {
                Some(path) => !is_blank(path),
                None => false,
            } <==> r is Ok,
            r matches Err(e) ==> e is MissingRootFolder,
            r matches Ok(p) ==> payload_for(
                p,
                self.spec_movie(),
                self.spec_quality_profile_id(),
                self.spec_root_folder_path()->0,
                self.spec_monitored(),
                self.spec_search_for_movie(),
            ),
    {
        let root_folder_path = match self.root_folder_path {
            Some(path) => if is_blank_text(path.as_str()) {
                return Err(Error::MissingRootFolder);
            } else {
                path
            },
            None => return Err(Error::MissingRootFolder),
        };
        let images = self.movie.images.clone();
        proof {
            reveal_strlit("movieOnly");
        }
        Ok(
            AddMoviePayload {
                title: self.movie.title.clone(),
                quality_profile_id: self.quality_profile_id,
                title_slug: self.movie.title_slug.clone(),
                images,
                tmdb_id: self.movie.tmdb_id,
                year: self.movie.year,
                root_folder_path,
                monitored: self.monitored,
                add_options: AddOptions { search_for_movie: self.search_for_movie, monitor: "movieOnly" },
            },
        )
    }
}

} // verus!

verus! {

/// Radarr's conventional local base URL.
pub open spec fn default_base_url() -> Seq<char> {
    "http://localhost:7878/"@
}

/// The path, relative to the normalized base URL, of the Radarr v3 API.
pub open spec fn api_path() -> Seq<char> {
    "api/v3/"@
}

/// Whether `c` may stand in an HTTP header value: a visible ASCII character, a tab, or a
/// character outside ASCII.
pub open spec fn header_char_ok(c: char) -> bool {
    (c as u32 >= 32 && c as u32 != 127) || c == '\t'
}

/// Whether every character of `s` may stand in an HTTP header value.
pub open spec fn header_text_ok(s: Seq<char>) -> bool {
    forall|i: int| 0 <= i < s.len() ==> #[trigger] header_char_ok(s[i])
}

/// The URL of the Radarr v3 API under `base`.
pub open spec fn api_base_url(base: Seq<char>) -> Result<Seq<char>, UrlFailure> {
    match normalized_base_url(base) {
        Ok(u) => match joined_url(u, api_path()) {
            Some(a) => Ok(a),
            None => Err(UrlFailure::Invalid),
        },
        Err(f) => Err(f),
    }
}

/// The header value that `reqwest::header::HeaderValue::from_str` makes of `token`.
pub uninterp spec fn header_value_of(token: Seq<char>) -> HeaderValue;

/// Makes `token` an HTTP header value with `reqwest::header::HeaderValue::from_str`, which
/// refuses a value with a control character other than tab.
#[verifier::external_body]
fn header_value(token: &str) -> (r: Result<HeaderValue, InvalidHeaderValue>)
    ensures
        r is Ok <==> header_text_ok(token@),
        r matches Ok(v) ==> v == header_value_of(token@),
{
    HeaderValue::from_str(token)
}

/// Configures and constructs a Radarr [`Client`].
#[derive(Clone, Debug)]
pub struct ClientBuilder {
    api_token: Option<String>,
    base_url: String,
    timeout: std::time::Duration,
}

impl ClientBuilder {
    /// The API token, if one was set.
    pub closed spec fn spec_api_token(&self) -> Option<Seq<char>> {
        match self.api_token {
            Some(t) => Some(t@),
            None => None,
        }
    }

    /// The base URL that the client will be built with.
    pub closed spec fn spec_base_url(&self) -> Seq<char> {
        self.base_url@
    }

    /// The request timeout that the client will be built with.
    pub closed spec fn spec_timeout(&self) -> std::time::Duration {
        self.timeout
    }

    /// Sets the API token sent in the `X-Api-Key` header.
    pub fn api_token<S: Into<String>>(self, token: S) -> (r: Self)
        ensures
            exists|s: String|
                #[trigger] call_ensures(<S as Into<String>>::into, (token,), s)
                    && r.spec_api_token() == Some(s@),
            r.spec_base_url() == self.spec_base_url(),
            r.spec_timeout() == self.spec_timeout(),
    {
        let stored = into_string(token);
        let ghost t = stored@;
        let r = ClientBuilder { api_token: Some(stored), ..self };
        assert(r.spec_api_token() == Some(t));
        r
    }

    /// Overrides the Radarr server's base URL.
    pub fn base_url<S: Into<String>>(self, base_url: S) -> (r: Self)
        ensures
            exists|s: String|
                #[trigger] call_ensures(<S as Into<String>>::into, (base_url,), s) && s@
                    == r.spec_base_url(),
            r.spec_api_token() == self.spec_api_token(),
            r.spec_timeout() == self.spec_timeout(),
    {
        let stored = into_string(base_url);
        let ghost u = stored@;
        let r = ClientBuilder { base_url: stored, ..self };
        assert(r.spec_base_url() == u);
        r
    }

    /// Sets the timeout applied to each HTTP request.
    pub fn timeout(self, timeout: std::time::Duration) -> (r: Self)
        ensures
            r.spec_timeout() == timeout,
            r.spec_api_token() == self.spec_api_token(),
            r.spec_base_url() == self.spec_base_url(),
    {
        ClientBuilder { timeout, ..self }
    }

    /// Validates the configuration and constructs the client.
    ///
    /// The token is checked first, then the base URL, then the HTTP client is built, and the
    /// token is made a header value last.
    pub fn build(self) -> (r: Result<Client, Error>)
        ensures
            ({
                let token_ok = self.spec_api_token() matches Some(t) && t.len() > 0;
                let api = api_base_url(self.spec_base_url());
                let invalid = Err::<Seq<char>, UrlFailure>(UrlFailure::Invalid);
                let too_long = Err::<Seq<char>, UrlFailure>(UrlFailure::TooLong);
                &&& !token_ok <==> (r matches Err(Error::MissingApiToken))
                &&& (token_ok && api == invalid) <==> (r matches Err(Error::InvalidBaseUrl(_)))
                &&& (token_ok && api == too_long) <==> (r matches Err(Error::UrlTooLong))
                &&& (r matches Err(Error::Request(_))) ==> token_ok && api is Ok
                &&& (r matches Err(Error::InvalidApiToken(_))) ==> token_ok && api is Ok
                    && !header_text_ok(self.spec_api_token()->0)
                &&& token_ok && api is Ok && !header_text_ok(self.spec_api_token()->0) ==> r is Err
                &&& r is Ok ==> token_ok && header_text_ok(self.spec_api_token()->0) && api
                    == Ok::<Seq<char>, UrlFailure>(r->Ok_0.spec_api_base())
                &&& r is Ok ==> r->Ok_0.spec_api_token() == header_value_of(
                    self.spec_api_token()->0,
                )
                &&& r is Ok ==> r->Ok_0.spec_timeout() == self.spec_timeout()
                &&& (token_ok && parsed_url(self.spec_base_url()) is None) ==> (r matches Err(
                    Error::InvalidBaseUrl(_),
                ))
                &&& (r matches Err(Error::InvalidBaseUrl(_))) ==> parsed_url(self.spec_base_url())
                    is None || joined_url(normalized_base_url(self.spec_base_url())->Ok_0, api_path())
                    is None
                &&& !(r matches Err(Error::Api { .. }))
                &&& !(r matches Err(Error::MissingRootFolder))
            }),
    {
        let token = match self.api_token {
            Some(t) => if t.as_str().unicode_len() == 0 {
                return Err(Error::MissingApiToken);
            } else {
                t
            },
            None => return Err(Error::MissingApiToken),
        };
        let base_url = match normalize_base_url(self.base_url.as_str()) {
            Ok(u) => u,
            Err(UrlError::Parse(e)) => return Err(Error::InvalidBaseUrl(e)),
            Err(UrlError::TooLong) => return Err(Error::UrlTooLong),
        };
        let api_base = match join_url(base_url.as_str(), "api/v3/") {
            Ok(u) => u,
            Err(e) => return Err(Error::InvalidBaseUrl(e)),
        };
        client_from(build_http_client(self.timeout), api_base, token.as_str())
    }
}

/// Finishes a client from the outcome of building its HTTP client: a failed build is a request
/// error; otherwise the token is made the `X-Api-Key` header value, or refused as one.
pub(crate) fn client_from(
    http: Result<TimedHttpClient, reqwest::Error>,
    api_base: String,
    token: &str,
) -> (r: Result<Client, Error>)
    ensures
        http is Err <==> r matches Err(Error::Request(_)),
        http is Ok ==> (header_text_ok(token@) <==> r is Ok),
        http is Ok && !header_text_ok(token@) ==> r matches Err(Error::InvalidApiToken(_)),
        http matches Ok(h) ==> (r matches Ok(c) ==> c.spec_api_base() == api_base@
            && c.spec_api_token() == header_value_of(token@) && c.spec_timeout() == h.timeout),
{
    let http = match http {
        Ok(h) => h,
        Err(e) => return Err(Error::Request(e)),
    };
    let api_token = match header_value(token) {
        Ok(v) => v,
        Err(e) => return Err(Error::InvalidApiToken(e)),
    };
    Ok(Client { http, api_base, api_token })
}

impl Default for ClientBuilder {
    fn default() -> (r: Self)
        ensures
            r.spec_api_token() is None,
            r.spec_base_url() == default_base_url(),
            r.spec_timeout() == duration_from_secs(30),
    {
        ClientBuilder {
            api_token: None,
            base_url: String::from_str("http://localhost:7878/"),
            timeout: seconds(30),
        }
    }
}

/// A blocking client for the Radarr v3 API.
#[derive(Clone, Debug)]
pub struct Client {
    http: TimedHttpClient,
    api_base: String,
    api_token: HeaderValue,
}

impl Client {
    /// Creates a builder using Radarr's conventional local URL and a 30-second timeout.
    pub fn builder() -> (r: ClientBuilder)
        ensures
            r.spec_api_token() is None,
            r.spec_base_url() == default_base_url(),
            r.spec_timeout() == duration_from_secs(30),
    {
        ClientBuilder::default()
    }

    /// The URL of the Radarr v3 API.
    pub closed spec fn spec_api_base(&self) -> Seq<char> {
        self.api_base@
    }

    /// The HTTP client that the client was built with.
    pub closed spec fn spec_http(&self) -> reqwest::blocking::Client {
        self.http.client
    }

    /// The request timeout that the HTTP client was built with.
    pub closed spec fn spec_timeout(&self) -> std::time::Duration {
        self.http.timeout
    }

    /// The `X-Api-Key` header value that the client was built with.
    pub closed spec fn spec_api_token(&self) -> HeaderValue {
        self.api_token
    }

    /// The HTTP client that requests are sent with.
    pub fn http(&self) -> (r: &reqwest::blocking::Client)
        ensures
            *r == self.spec_http(),
    {
        &self.http.client
    }

    /// The value of the `X-Api-Key` header sent with every request.
    pub fn api_token(&self) -> (r: &HeaderValue)
        ensures
            *r == self.spec_api_token(),
    {
        &self.api_token
    }

    /// The URL of the API resource at `path`, relative to the v3 API URL.
    pub fn endpoint(&self, path: &str) -> (r: Result<String, Error>)
        ensures
            joined_url(self.spec_api_base(), path@) is None <==> r is Err,
            r matches Err(e) ==> e is InvalidBaseUrl,
            r matches Ok(u) ==> joined_url(self.spec_api_base(), path@) == Some(u@),
    {
        match join_url(self.api_base.as_str(), path) {
            Ok(u) => Ok(u),
            Err(e) => Err(Error::InvalidBaseUrl(e)),
        }
    }

    /// The URL that `term` is looked up at: the movie lookup, with `term` in its `term` query
    /// parameter.
    pub fn lookup_url(&self, term: &str) -> (r: Result<String, Error>)
        ensures
            match query_url(self.spec_api_base(), lookup_path(), "term"@, term@) {
                Ok(u) => r matches Ok(v) && v@ == u,
                Err(UrlFailure::Invalid) => r matches Err(Error::InvalidBaseUrl(_)),
                Err(UrlFailure::TooLong) => r matches Err(Error::UrlTooLong),
            },
    {
        match url_with_query(self.api_base.as_str(), "movie/lookup", "term", term) {
            Ok(u) => Ok(u),
            Err(UrlError::Parse(e)) => Err(Error::InvalidBaseUrl(e)),
            Err(UrlError::TooLong) => Err(Error::UrlTooLong),
        }
    }

    /// The URL that Radarr's root folders are listed at.
    pub fn root_folders_url(&self) -> (r: Result<String, Error>)
        ensures
            joined_url(self.spec_api_base(), root_folders_path()) is None <==> r is Err,
            r matches Err(e) ==> e is InvalidBaseUrl,
            r matches Ok(u) ==> joined_url(self.spec_api_base(), root_folders_path()) == Some(u@),
    {
        self.endpoint("rootfolder")
    }

    /// The URL that movies are added at.
    pub fn movies_url(&self) -> (r: Result<String, Error>)
        ensures
            joined_url(self.spec_api_base(), movies_path()) is None <==> r is Err,
            r matches Err(e) ==> e is InvalidBaseUrl,
            r matches Ok(u) ==> joined_url(self.spec_api_base(), movies_path()) == Some(u@),
    {
        self.endpoint("movie")
    }
}

/// The path, relative to the v3 API URL, of the movie lookup; the title goes in the `term`
/// query parameter.
pub open spec fn lookup_path() -> Seq<char> {
    "movie/lookup"@
}

/// The path, relative to the v3 API URL, of the root folder list.
pub open spec fn root_folders_path() -> Seq<char> {
    "rootfolder"@
}

/// The path, relative to the v3 API URL, of the movie collection.
pub open spec fn movies_path() -> Seq<char> {
    "movie"@
}

} // verus!

verus! {

/// The API token never enters a request URL: clients built from the same base URL address
/// the same API URL, whatever their tokens.
pub proof fn lemma_token_not_in_urls(b1: ClientBuilder, c1: Client, b2: ClientBuilder, c2: Client)
    requires
        b1.spec_base_url() == b2.spec_base_url(),
        api_base_url(b1.spec_base_url()) == Ok::<Seq<char>, UrlFailure>(c1.spec_api_base()),
        api_base_url(b2.spec_base_url()) == Ok::<Seq<char>, UrlFailure>(c2.spec_api_base()),
    ensures
        c1.spec_api_base() == c2.spec_api_base(),
        forall|path: Seq<char>|
            joined_url(c1.spec_api_base(), path) == #[trigger] joined_url(c2.spec_api_base(), path),
{
}

} // verus!
