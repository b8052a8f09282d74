use alamo2radarr::alamo_movies::{Client, Error};

#[test]
fn alamo_urls_follow_the_schedule_api() {
    let client = Client::builder().build().unwrap();
    assert_eq!(client.base_url(), "https://drafthouse.com/");
    assert_eq!(
        client.markets_url().unwrap(),
        "https://drafthouse.com/s/mother/v1/page/cclamp?useUnifiedSchedule=true"
    );
    assert_eq!(
        client.presentations_url("austin").unwrap(),
        "https://drafthouse.com/s/mother/v2/schedule/market/austin"
    );
    assert_eq!(
        client.presentation_url("austin", "the-thing").unwrap(),
        "https://drafthouse.com/s/mother/v2/schedule/presentation/austin/the-thing"
    );
}

#[test]
fn alamo_base_url_gets_a_trailing_slash_and_slugs_are_encoded() {
    let client = Client::builder().base_url("http://127.0.0.1:8080/proxy").build().unwrap();
    assert_eq!(client.base_url(), "http://127.0.0.1:8080/proxy/");
    assert_eq!(
        client.presentations_url("new york/city").unwrap(),
        "http://127.0.0.1:8080/proxy/s/mother/v2/schedule/market/new%20york%2Fcity"
    );
}

#[test]
fn alamo_rejects_an_unparsable_base_url() {
    assert!(matches!(
        Client::builder().base_url("::").build(),
        Err(Error::InvalidBaseUrl(_))
    ));
}

#[test]
fn alamo_accepts_long_base_urls_and_slugs() {
    let long_path = "a".repeat(17_000_000);
    let client = Client::builder()
        .base_url(format!("https://drafthouse.com/{long_path}"))
        .build()
        .unwrap();
    assert_eq!(client.base_url().len(), "https://drafthouse.com/".len() + long_path.len() + 1);
    let short = Client::builder().build().unwrap();
    let url = short.presentations_url(&long_path).unwrap();
    assert!(url.ends_with(&long_path));
}

#[test]
fn alamo_accepts_any_base_url_that_parses() {
    assert!(Client::builder().base_url("mailto:someone@example.com").build().is_ok());
    assert!(matches!(
        Client::builder().base_url("no scheme here").build(),
        Err(Error::InvalidBaseUrl(_))
    ));
}
