use alamo2radarr::radarr::{AddMoviePayload, Client, ClientBuilder, Error, SearchResult};

fn movie() -> SearchResult {
    SearchResult {
        id: 0,
        title: "The Thing".into(),
        alternate_titles: vec![],
        year: 1982,
        tmdb_id: 1091,
        imdb_id: None,
        runtime: None,
        title_slug: "the-thing-1982".into(),
        images: vec![],
        monitored: false,
        movie_file: None,
    }
}

#[test]
fn payload_builder_requires_root_folder() {
    assert!(matches!(
        AddMoviePayload::builder(&movie()).build(),
        Err(Error::MissingRootFolder)
    ));
}

#[test]
fn radarr_resource_id_means_movie_is_already_added() {
    let movie = SearchResult {
        id: 42,
        title: "The Thing".into(),
        alternate_titles: vec![],
        year: 1982,
        tmdb_id: 1091,
        imdb_id: Some("tt0084787".into()),
        runtime: Some(109),
        title_slug: "the-thing-1982".into(),
        images: vec![],
        monitored: false,
        movie_file: None,
    };

    assert!(movie.is_already_added());
}

#[test]
fn monitoring_or_a_file_also_means_already_added() {
    let mut monitored = movie();
    monitored.monitored = true;
    assert!(monitored.is_already_added());
    let mut with_file = movie();
    with_file.movie_file = Some(serde_json::Value::Null);
    assert!(with_file.is_already_added());
    assert!(!movie().is_already_added());
}

#[test]
fn payload_builder_copies_the_movie_and_settings() {
    let mut source = movie();
    source.images = vec![serde_json::Value::String("poster".into())];
    let payload = AddMoviePayload::builder(&source)
        .quality_profile_id(4)
        .root_folder_path("/movies")
        .monitored(false)
        .search_for_movie(false)
        .build()
        .unwrap();
    assert_eq!(payload.title(), "The Thing");
    assert_eq!(payload.quality_profile_id(), 4);
    assert_eq!(payload.title_slug(), "the-thing-1982");
    assert_eq!(payload.images(), &vec![serde_json::Value::String("poster".into())]);
    assert_eq!(payload.tmdb_id(), 1091);
    assert_eq!(payload.year(), 1982);
    assert_eq!(payload.root_folder_path(), "/movies");
    assert!(!payload.monitored());
    assert!(!payload.add_options().search_for_movie());
    assert_eq!(payload.add_options().monitor(), "movieOnly");
}

#[test]
fn payload_builder_defaults_and_blank_root_folder() {
    let payload = AddMoviePayload::builder(&movie()).root_folder_path("/data").build().unwrap();
    assert_eq!(payload.quality_profile_id(), 1);
    assert!(payload.monitored());
    assert!(payload.add_options().search_for_movie());
    assert!(matches!(
        AddMoviePayload::builder(&movie()).root_folder_path(" \t ").build(),
        Err(Error::MissingRootFolder)
    ));
}

#[test]
fn client_builder_requires_a_token() {
    assert!(matches!(Client::builder().build(), Err(Error::MissingApiToken)));
    assert!(matches!(
        Client::builder().api_token("").build(),
        Err(Error::MissingApiToken)
    ));
}

#[test]
fn client_builder_rejects_bad_urls_and_tokens() {
    assert!(matches!(
        ClientBuilder::default().api_token("secret").base_url("not a url").build(),
        Err(Error::InvalidBaseUrl(_))
    ));
    assert!(matches!(
        Client::builder().api_token("bad\ntoken").build(),
        Err(Error::InvalidApiToken(_))
    ));
}

#[test]
fn client_uses_the_v3_api_under_the_base_path() {
    let client = Client::builder()
        .api_token("secret")
        .base_url("https://radarr.example.test/radarr")
        .build()
        .unwrap();
    assert_eq!(
        client.endpoint("movie/lookup").unwrap(),
        "https://radarr.example.test/radarr/api/v3/movie/lookup"
    );
    assert_eq!(client.api_token().to_str().unwrap(), "secret");
    let local = Client::builder().api_token("secret").build().unwrap();
    assert_eq!(local.endpoint("rootfolder").unwrap(), "http://localhost:7878/api/v3/rootfolder");
}

#[test]
fn client_urls_for_lookup_root_folders_and_movies() {
    let client = Client::builder()
        .api_token("secret")
        .base_url("http://h:7878")
        .build()
        .unwrap();
    assert_eq!(
        client.lookup_url("The Thing").unwrap(),
        "http://h:7878/api/v3/movie/lookup?term=The+Thing"
    );
    assert_eq!(
        client.lookup_url("Amélie & Co").unwrap(),
        "http://h:7878/api/v3/movie/lookup?term=Am%C3%A9lie+%26+Co"
    );
    assert_eq!(client.root_folders_url().unwrap(), "http://h:7878/api/v3/rootfolder");
    assert_eq!(client.movies_url().unwrap(), "http://h:7878/api/v3/movie");
}

#[test]
fn client_sends_the_configured_token() {
    let client = Client::builder().api_token("s3cr3t-key").build().unwrap();
    assert_eq!(
        client.api_token(),
        &reqwest::header::HeaderValue::from_static("s3cr3t-key")
    );
}

#[test]
fn client_accepts_a_long_base_url() {
    let long_path = "r".repeat(17_000_000);
    let client = Client::builder()
        .api_token("secret")
        .base_url(format!("https://h/{long_path}"))
        .build()
        .unwrap();
    assert!(client.movies_url().unwrap().ends_with(&format!("{long_path}/api/v3/movie")));
}
