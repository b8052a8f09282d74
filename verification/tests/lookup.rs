use alamo2radarr::alamo_movies::{Presentation, Show};
use alamo2radarr::target_presentations;

fn presentation(title: &str, collection: Option<&str>) -> Presentation {
    Presentation {
        slug: String::new(),
        show: Show {
            slug: String::new(),
            title: title.into(),
            certification: None,
            national_release_date_utc: None,
            imdb_id: None,
            runtime_minutes: None,
            directors: vec![],
        },
        primary_collection_slug: collection.map(Into::into),
        format_slugs: vec![],
    }
}

#[test]
fn target_presentations_keep_order_and_collections() {
    let kept = target_presentations(vec![
        presentation("A", Some("film-club")),
        presentation("B", None),
        presentation("C", Some("family-party")),
        presentation("D", Some("world-of-animation")),
    ]);
    let titles: Vec<&str> = kept.iter().map(|p| p.show.title.as_str()).collect();
    assert_eq!(titles, vec!["A", "D"]);
}
