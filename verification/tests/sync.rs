use alamo2radarr::alamo_movies::{self, Market, Presentation, Show};
use alamo2radarr::radarr::{self, RootFolder, SearchResult};
use alamo2radarr::{
    Error, SyncAction, SyncEvent, SyncNotice, SyncOptions, SyncReport, SyncState,
};

fn market(slug: &str) -> Market {
    Market {
        id: "market-id".into(),
        name: "Austin".into(),
        slug: slug.into(),
        is_open_for_business: None,
    }
}

fn presentation(title: &str, collection: Option<&str>) -> Presentation {
    Presentation {
        slug: String::new(),
        show: Show {
            slug: String::new(),
            title: title.into(),
            certification: None,
            national_release_date_utc: None,
            imdb_id: None,
            runtime_minutes: None,
            directors: vec![],
        },
        primary_collection_slug: collection.map(Into::into),
        format_slugs: vec![],
    }
}

fn result(title: &str, year: u32, tmdb_id: u32) -> SearchResult {
    SearchResult {
        id: 0,
        title: title.into(),
        alternate_titles: vec![],
        year,
        tmdb_id,
        imdb_id: None,
        runtime: None,
        title_slug: format!("{title}-{year}"),
        images: vec![],
        monitored: false,
        movie_file: None,
    }
}

fn options(dry_run: bool, root: Option<&str>) -> SyncOptions {
    SyncOptions {
        quality_profile_id: 1,
        root_folder_path: root.map(Into::into),
        dry_run,
    }
}

fn step(state: &mut SyncState, event: SyncEvent) -> (SyncAction, SyncNotice) {
    assert!(state.accepts(&event));
    let step = state.step(event);
    (step.action, step.notice)
}

fn alamo_error() -> alamo_movies::Error {
    alamo_movies::Client::builder().base_url("::").build().unwrap_err()
}

fn radarr_error() -> radarr::Error {
    radarr::Client::builder().build().unwrap_err()
}

#[test]
fn dry_run_searches_without_fetching_root_folders_or_adding() {
    let alamo = alamo_movies::Client::builder().base_url("http://127.0.0.1:9").build().unwrap();
    let radarr = radarr::Client::builder()
        .base_url("http://127.0.0.1:9")
        .api_token("secret")
        .build()
        .unwrap();
    assert!(alamo
        .markets_url()
        .unwrap()
        .ends_with("/s/mother/v1/page/cclamp?useUnifiedSchedule=true"));
    assert!(alamo
        .presentations_url("austin")
        .unwrap()
        .ends_with("/s/mother/v2/schedule/market/austin"));
    let lookup = radarr.lookup_url("The Thing").unwrap();
    assert!(lookup.ends_with("/api/v3/movie/lookup?term=The+Thing"));
    assert!(!lookup.contains("secret"));
    assert_eq!(radarr.api_token().to_str().unwrap(), "secret");

    let mut state = SyncState::new(options(true, None));
    let (action, _) = step(&mut state, SyncEvent::Markets(Ok(vec![market("austin")])));
    assert!(matches!(action, SyncAction::FetchPresentations { ref market_slug } if market_slug == "austin"));
    let (action, _) = step(
        &mut state,
        SyncEvent::Presentations(Ok(vec![presentation(
            "WEIRD WEDNESDAY: The Thing (1982)",
            Some("weird-wednesday"),
        )])),
    );
    assert!(matches!(action, SyncAction::Search { ref title } if title == "The Thing"));
    assert_eq!(state.report().unique_titles, 1);
    let (action, notice) = step(
        &mut state,
        SyncEvent::SearchResults(Ok(vec![result("The Thing", 1982, 1091)])),
    );
    assert!(matches!(notice, SyncNotice::WouldAdd { ref title, year: 1982 } if title == "The Thing"));
    match action {
        SyncAction::Finish(Ok(report)) => {
            assert_eq!(report.unique_titles, 1);
            assert_eq!(report.markets, 1);
            assert_eq!(report.presentations, 1);
            assert_eq!(report.added, 0);
        }
        other => panic!("expected a finished run, got {other:?}"),
    }
    assert!(state.is_done());
}

#[test]
fn adds_a_unique_match_after_fetching_the_root_folder() {
    let mut state = SyncState::new(SyncOptions {
        quality_profile_id: 7,
        root_folder_path: Some("   ".into()),
        dry_run: false,
    });
    step(&mut state, SyncEvent::Markets(Ok(vec![market("austin"), market("dallas")])));
    let (action, _) = step(
        &mut state,
        SyncEvent::Presentations(Ok(vec![
            presentation("TERROR TUESDAY: The Thing", Some("terror-tuesday")),
            presentation("Up", Some("family-party")),
        ])),
    );
    assert!(matches!(action, SyncAction::FetchPresentations { ref market_slug } if market_slug == "dallas"));
    let (action, _) = step(&mut state, SyncEvent::Presentations(Err(alamo_error())));
    assert!(matches!(action, SyncAction::Search { .. }));
    let (action, _) = step(
        &mut state,
        SyncEvent::SearchResults(Ok(vec![result("The Thing", 1982, 1091)])),
    );
    assert!(matches!(action, SyncAction::FetchRootFolders));
    let (action, _) = step(
        &mut state,
        SyncEvent::RootFolders(Ok(vec![RootFolder { path: "/movies".into() }])),
    );
    match &action {
        SyncAction::AddMovie { payload } => {
            assert_eq!(payload.root_folder_path(), "/movies");
            assert_eq!(payload.quality_profile_id(), 7);
            assert_eq!(payload.tmdb_id(), 1091);
        }
        other => panic!("expected an addition, got {other:?}"),
    }
    let (action, notice) = step(&mut state, SyncEvent::MovieAdded(Ok(())));
    assert!(matches!(notice, SyncNotice::Added { year: 1982, .. }));
    match action {
        SyncAction::Finish(Err(Error::PartialFailure(1))) => {}
        other => panic!("expected a partial failure, got {other:?}"),
    }
    let report = state.report();
    assert_eq!(report.added, 1);
    assert_eq!(report.failed, 1);
    assert_eq!(report.presentations, 2);
    assert_eq!(state.report(), report);
}

#[test]
fn ambiguous_and_missing_matches_add_nothing() {
    let mut state = SyncState::new(options(false, Some("/movies")));
    step(&mut state, SyncEvent::Markets(Ok(vec![market("austin")])));
    step(
        &mut state,
        SyncEvent::Presentations(Ok(vec![
            presentation("The Thing", Some("terror-tuesday")),
            presentation("Hausu", Some("weird-wednesday")),
            presentation("Alien", Some("film-club")),
        ])),
    );
    let (action, notice) = step(
        &mut state,
        SyncEvent::SearchResults(Ok(vec![
            result("The Thing", 2011, 60935),
            result("The Thing", 1982, 1091),
        ])),
    );
    match notice {
        SyncNotice::AmbiguousMatch { title, candidates } => {
            assert_eq!(title, "The Thing");
            assert_eq!(
                candidates,
                vec![("The Thing".to_string(), 1982), ("The Thing".to_string(), 2011)]
            );
        }
        other => panic!("expected an ambiguity, got {other:?}"),
    }
    assert!(matches!(action, SyncAction::Search { ref title } if title == "Hausu"));
    let (action, notice) = step(&mut state, SyncEvent::SearchResults(Ok(vec![])));
    assert!(matches!(notice, SyncNotice::NoExactMatch { ref title } if title == "Hausu"));
    assert!(matches!(action, SyncAction::Search { ref title } if title == "Alien"));
    let mut present = result("Alien", 1979, 348);
    present.id = 9;
    let (action, _) = step(&mut state, SyncEvent::SearchResults(Ok(vec![present])));
    match action {
        SyncAction::Finish(Ok(report)) => {
            assert_eq!(
                report,
                SyncReport {
                    markets: 1,
                    presentations: 3,
                    unique_titles: 3,
                    added: 0,
                    already_added: 1,
                    no_match: 1,
                    ambiguous: 1,
                    failed: 0,
                }
            );
        }
        other => panic!("expected a finished run, got {other:?}"),
    }
}

#[test]
fn fatal_errors_end_the_run() {
    let mut state = SyncState::new(options(false, None));
    let (action, _) = step(&mut state, SyncEvent::Markets(Err(alamo_error())));
    assert!(matches!(action, SyncAction::Finish(Err(Error::Alamo(_)))));
    assert_eq!(state.report().markets, 0);

    let mut state = SyncState::new(options(false, None));
    step(&mut state, SyncEvent::Markets(Ok(vec![market("austin")])));
    step(
        &mut state,
        SyncEvent::Presentations(Ok(vec![presentation("Alien", Some("film-club"))])),
    );
    step(&mut state, SyncEvent::SearchResults(Ok(vec![result("Alien", 1979, 348)])));
    let (action, _) = step(&mut state, SyncEvent::RootFolders(Ok(vec![])));
    assert!(matches!(action, SyncAction::Finish(Err(Error::NoRootFolder))));

    let mut state = SyncState::new(options(false, None));
    step(&mut state, SyncEvent::Markets(Ok(vec![market("austin")])));
    step(
        &mut state,
        SyncEvent::Presentations(Ok(vec![presentation("Alien", Some("film-club"))])),
    );
    step(&mut state, SyncEvent::SearchResults(Ok(vec![result("Alien", 1979, 348)])));
    let (action, _) = step(
        &mut state,
        SyncEvent::RootFolders(Ok(vec![RootFolder { path: " ".into() }])),
    );
    assert!(matches!(
        action,
        SyncAction::Finish(Err(Error::Radarr(radarr::Error::MissingRootFolder)))
    ));
}

#[test]
fn failed_searches_and_additions_are_counted_and_skipped() {
    let mut state = SyncState::new(options(false, Some("/movies")));
    step(&mut state, SyncEvent::Markets(Ok(vec![market("austin")])));
    step(
        &mut state,
        SyncEvent::Presentations(Ok(vec![
            presentation("Alien", Some("film-club")),
            presentation("Ran", Some("film-club")),
        ])),
    );
    let (action, _) = step(&mut state, SyncEvent::SearchResults(Err(radarr_error())));
    assert!(matches!(action, SyncAction::Search { ref title } if title == "Ran"));
    let (action, _) = step(&mut state, SyncEvent::SearchResults(Ok(vec![result("Ran", 1985, 11645)])));
    assert!(matches!(action, SyncAction::AddMovie { .. }));
    let (action, _) = step(&mut state, SyncEvent::MovieAdded(Err(radarr_error())));
    assert!(matches!(action, SyncAction::Finish(Err(Error::PartialFailure(2)))));
    assert_eq!(state.report().failed, 2);
}

#[test]
fn a_run_without_markets_finishes_at_once() {
    let mut state = SyncState::new(options(false, None));
    assert!(!state.accepts(&SyncEvent::MovieAdded(Ok(()))));
    let (action, _) = step(&mut state, SyncEvent::Markets(Ok(vec![])));
    assert!(matches!(action, SyncAction::Finish(Ok(SyncReport { unique_titles: 0, .. }))));
    assert!(state.is_done());
    assert!(!state.accepts(&SyncEvent::Markets(Ok(vec![]))));
    assert_eq!(SyncReport::default().failed, 0);
}

#[test]
fn a_run_counts_every_failed_schedule_search_and_addition() {
    let mut state = SyncState::new(options(false, Some("/movies")));
    step(&mut state, SyncEvent::Markets(Ok(vec![market("austin"), market("dallas")])));
    step(&mut state, SyncEvent::Presentations(Err(alamo_error())));
    let (action, _) = step(
        &mut state,
        SyncEvent::Presentations(Ok(vec![presentation("Ran", Some("film-club"))])),
    );
    assert!(matches!(action, SyncAction::Search { ref title } if title == "Ran"));
    let (action, _) = step(&mut state, SyncEvent::SearchResults(Ok(vec![result("Ran", 1985, 11645)])));
    assert!(matches!(action, SyncAction::AddMovie { .. }));
    let (action, _) = step(&mut state, SyncEvent::MovieAdded(Ok(())));
    assert!(matches!(action, SyncAction::Finish(Err(Error::PartialFailure(1)))));
    assert_eq!(state.report().failed, 1);
    assert_eq!(state.report().added, 1);
}
