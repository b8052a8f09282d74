use alamo2radarr::alamo_movies::{Presentation, Show};
use alamo2radarr::{clean_title, is_target_presentation, parse_title, unique_titles, MovieTitle};

fn presentation(title: &str, collection: Option<&str>) -> Presentation {
    Presentation {
        slug: String::new(),
        show: Show {
            slug: String::new(),
            title: title.into(),
            certification: None,
            national_release_date_utc: None,
            imdb_id: None,
            runtime_minutes: None,
            directors: vec![],
        },
        primary_collection_slug: collection.map(Into::into),
        format_slugs: vec![],
    }
}

#[test]
fn cleans_repeated_known_suffixes_and_whitespace() {
    assert_eq!(clean_title("  Akira (Dubbed) (Subtitled)  "), "Akira");
    assert_eq!(clean_title("Alien (Director's Cut)"), "Alien");
    assert_eq!(clean_title("RINGU - 4K RESTORATION"), "RINGU");
    assert_eq!(
        clean_title("Terminator 2: Judgement Day 35th Anniversary"),
        "Terminator 2: Judgement Day"
    );
}

#[test]
fn parses_event_prefix_and_release_year() {
    assert_eq!(
        parse_title("WEIRD WEDNESDAY: What Ever Happened to Baby Jane? (1962)"),
        MovieTitle {
            title: "What Ever Happened to Baby Jane?".into(),
            year: Some(1962),
        }
    );
}

#[test]
fn filters_and_deduplicates_titles_across_markets() {
    let titles = unique_titles(vec![
        presentation("The Thing", Some("terror-tuesday")),
        presentation("the thing", Some("weird-wednesday")),
        presentation("Up", Some("family-party")),
    ]);
    assert_eq!(
        titles,
        [MovieTitle {
            title: "The Thing".into(),
            year: None,
        }]
    );
}

#[test]
fn strips_only_the_first_matching_prefix() {
    assert_eq!(
        parse_title("FILM CLUB: TERROR TUESDAY: Suspiria"),
        MovieTitle {
            title: "TERROR TUESDAY: Suspiria".into(),
            year: None,
        }
    );
    assert_eq!(clean_title("HORROR SHOW:    Hausu"), "Hausu");
}

#[test]
fn year_needs_four_digits_in_parentheses() {
    assert_eq!(parse_title("Blade Runner (82)").year, None);
    assert_eq!(parse_title("Blade Runner (82)").title, "Blade Runner (82)");
    assert_eq!(parse_title("Blade Runner(1982)").year, None);
    assert_eq!(parse_title("Blade Runner (198x)").year, None);
    assert_eq!(
        parse_title("Blade Runner   (1982)"),
        MovieTitle {
            title: "Blade Runner".into(),
            year: Some(1982),
        }
    );
    assert_eq!(
        parse_title("Blade Runner (1982) (4K Restoration)"),
        MovieTitle {
            title: "Blade Runner".into(),
            year: Some(1982),
        }
    );
    assert_eq!(parse_title("(2001)").year, None);
    assert_eq!(parse_title(" (2001)").title, "(2001)");
}

#[test]
fn trims_unicode_white_space() {
    assert_eq!(clean_title("\u{3000}Tampopo\u{a0}"), "Tampopo");
    assert_eq!(clean_title("   "), "");
}

#[test]
fn suffixes_removed_repeatedly_in_any_order() {
    assert_eq!(clean_title("Blade Runner: The Final Cut (4K Restoration)"), "Blade Runner");
    assert_eq!(clean_title("Akira (Subtitled) (Dubbed)"), "Akira");
}

#[test]
fn target_collections_decide_eligibility() {
    assert!(is_target_presentation(&presentation("X", Some("psycho-cinema"))));
    assert!(is_target_presentation(&presentation("X", Some("video-vortex"))));
    assert!(!is_target_presentation(&presentation("X", Some("Psycho-Cinema"))));
    assert!(!is_target_presentation(&presentation("X", Some("family-party"))));
    assert!(!is_target_presentation(&presentation("X", None)));
}

#[test]
fn unique_titles_keeps_years_apart_and_drops_empty_titles() {
    let titles = unique_titles(vec![
        presentation("The Thing (1982)", Some("terror-tuesday")),
        presentation("THE THING (2011)", Some("horror-show")),
        presentation("the thing (1982)", Some("graveyard-shift")),
        presentation("   ", Some("terror-tuesday")),
        presentation("Ran", None),
    ]);
    assert_eq!(
        titles,
        [
            MovieTitle {
                title: "The Thing".into(),
                year: Some(1982),
            },
            MovieTitle {
                title: "THE THING".into(),
                year: Some(2011),
            },
        ]
    );
}

#[test]
fn removes_language_labels_in_front_of_the_year() {
    assert_eq!(
        parse_title("Akira (Dubbed) (1988)"),
        MovieTitle {
            title: "Akira".into(),
            year: Some(1988),
        }
    );
    assert_eq!(
        parse_title("FILM CLUB: Ran (Subtitled) 35th Anniversary (1985)"),
        MovieTitle {
            title: "Ran".into(),
            year: Some(1985),
        }
    );
}

#[test]
fn normalized_titles_are_trimmed() {
    for raw in ["  Alien (Director's Cut)  (1979) ", "\tHORROR SHOW:   Ringu  ", " (Dubbed)"] {
        let parsed = parse_title(raw);
        assert_eq!(parsed.title.trim(), parsed.title);
    }
}

#[test]
fn an_appended_year_is_undone_exactly() {
    let clean = "What Ever Happened to Baby Jane?";
    assert_eq!(
        parse_title(&format!("{clean} (1962)")),
        MovieTitle {
            title: clean.into(),
            year: Some(1962),
        }
    );
}

#[test]
fn a_clean_title_without_a_year_is_kept() {
    for clean in ["Alien", "Terminator 2: Judgement Day", ""] {
        assert_eq!(
            parse_title(clean),
            MovieTitle {
                title: clean.into(),
                year: None,
            }
        );
    }
}

#[test]
fn a_schedule_seen_twice_adds_no_titles() {
    let schedule = vec![
        presentation("Alien (1979)", Some("film-club")),
        presentation("ALIEN (1979)", Some("horror-show")),
        presentation("Ran", Some("film-club")),
        presentation("Cats", None),
    ];
    let mut twice = schedule.clone();
    twice.extend(schedule.clone());
    assert_eq!(unique_titles(twice), unique_titles(schedule));
}
