use alamo2radarr::radarr::{AlternativeTitle, SearchResult};
use alamo2radarr::{best_match, best_matches, Match, MovieTitle};

fn result(title: &str, year: u32, tmdb_id: u32) -> SearchResult {
    SearchResult {
        id: 0,
        title: title.into(),
        alternate_titles: vec![],
        year,
        tmdb_id,
        imdb_id: None,
        runtime: None,
        title_slug: format!("{title}-{year}"),
        images: vec![],
        monitored: false,
        movie_file: None,
    }
}

#[test]
fn finds_primary_and_alternative_titles() {
    let mut alternate = result("Seven Samurai", 1954, 346);
    alternate.alternate_titles = vec![AlternativeTitle {
        title: "Shichinin no Samurai".into(),
    }];
    assert!(matches!(
        best_match(
            &MovieTitle {
                title: "shichinin no samurai".into(),
                year: None,
            },
            &[alternate]
        ),
        Match::Unique(_)
    ));
}

#[test]
fn rejects_different_movies_with_the_same_title() {
    let results = [
        result("The Thing", 1982, 1091),
        result("The Thing", 2011, 60935),
    ];
    assert!(matches!(
        best_match(
            &MovieTitle {
                title: "The Thing".into(),
                year: None,
            },
            &results
        ),
        Match::Ambiguous(_)
    ));
}

#[test]
fn release_year_disambiguates_remakes() {
    let results = [
        result("The Thing", 1982, 1091),
        result("The Thing", 2011, 60935),
    ];
    let title = MovieTitle {
        title: "The Thing".into(),
        year: Some(1982),
    };
    assert!(matches!(best_match(&title, &results), Match::Unique(movie) if movie.year == 1982));
}

#[test]
fn collapses_duplicate_results_for_the_same_movie() {
    let results = [result("Alien", 1979, 348), result("Alien", 1979, 348)];
    assert!(matches!(
        best_match(
            &MovieTitle {
                title: "Alien".into(),
                year: None,
            },
            &results
        ),
        Match::Unique(_)
    ));
}

#[test]
fn matches_unicode_case_insensitively() {
    let results = [result("Amélie", 2001, 194)];
    let title = MovieTitle {
        title: "AMÉLIE".into(),
        year: None,
    };
    assert!(matches!(best_match(&title, &results), Match::Unique(_)));
}

#[test]
fn ambiguous_matches_are_sorted_by_year_then_tmdb_id() {
    let results = [
        result("Suspiria", 2018, 361292),
        result("Alien", 1979, 348),
        result("suspiria", 1977, 11906),
        result("Suspiria", 2018, 361292),
        result("SUSPIRIA", 2018, 9999),
    ];
    let title = MovieTitle {
        title: "Suspiria".into(),
        year: None,
    };
    match best_match(&title, &results) {
        Match::Ambiguous(movies) => {
            let keys: Vec<(u32, u32)> = movies.iter().map(|m| (m.year, m.tmdb_id)).collect();
            assert_eq!(keys, vec![(1977, 11906), (2018, 9999), (2018, 361292)]);
            assert!(std::ptr::eq(movies[2], &results[0]));
        }
        other => panic!("expected an ambiguous match, got {other:?}"),
    }
}

#[test]
fn no_exact_title_means_no_match() {
    let results = [result("The Thing from Another World", 1951, 10785)];
    let title = MovieTitle {
        title: "The Thing".into(),
        year: None,
    };
    assert_eq!(best_match(&title, &results), Match::NoMatch);
    let dated = MovieTitle {
        title: "The Thing from Another World".into(),
        year: Some(1982),
    };
    assert_eq!(best_match(&dated, &results), Match::NoMatch);
}

#[test]
fn best_matches_keeps_every_exact_title_in_order() {
    let mut alt = result("Shichinin no samurai", 1954, 346);
    alt.alternate_titles = vec![AlternativeTitle {
        title: "Seven Samurai".into(),
    }];
    let results = vec![
        result("Seven Samurai", 1954, 346),
        result("The Magnificent Seven", 1960, 966),
        alt,
        result("SEVEN SAMURAI", 2000, 1),
    ];
    let kept = best_matches("seven samurai", results).unwrap();
    let ids: Vec<(u32, u32)> = kept.iter().map(|m| (m.year, m.tmdb_id)).collect();
    assert_eq!(ids, vec![(1954, 346), (1954, 346), (2000, 1)]);
    assert!(best_matches("Ran", vec![result("Kagemusha", 1980, 11953)]).is_none());
}

#[test]
fn a_unique_match_is_the_first_matching_result() {
    let results = [
        result("Alien", 1979, 348),
        result("Aliens", 1986, 679),
        result("alien", 1979, 348),
    ];
    let term = MovieTitle {
        title: "ALIEN".into(),
        year: None,
    };
    match best_match(&term, &results) {
        Match::Unique(m) => assert!(std::ptr::eq(m, &results[0])),
        other => panic!("expected a unique match, got {other:?}"),
    }
}

#[test]
fn an_ambiguous_match_keeps_the_first_result_of_each_movie_in_order() {
    let results = [
        result("The Thing", 2011, 60935),
        result("The Thing", 1982, 1091),
        result("the thing", 2011, 60935),
    ];
    let term = MovieTitle {
        title: "The Thing".into(),
        year: None,
    };
    match best_match(&term, &results) {
        Match::Ambiguous(v) => {
            assert_eq!(v.len(), 2);
            assert!(std::ptr::eq(v[0], &results[1]));
            assert!(std::ptr::eq(v[1], &results[0]));
        }
        other => panic!("expected an ambiguous match, got {other:?}"),
    }
}
