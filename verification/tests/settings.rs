use alamo2radarr::{load_settings, ConfigError};

fn some(s: &str) -> Option<String> {
    Some(s.to_string())
}

#[test]
fn settings_need_a_token() {
    assert_eq!(
        load_settings(None, None, None, None, None, None, None, None).unwrap_err(),
        ConfigError::MissingApiToken
    );
}

#[test]
fn settings_defaults() {
    let s = load_settings(some("secret"), None, None, None, None, None, None, None).unwrap();
    assert_eq!(s.api_token, "secret");
    assert_eq!(s.radarr_url, "http://localhost:7878");
    assert_eq!(s.quality_profile_id, 1);
    assert_eq!(s.root_folder_path, None);
    assert!(!s.dry_run);
    assert_eq!(s.alamo_url, "https://drafthouse.com");
}

#[test]
fn settings_compose_the_legacy_url_and_read_flags() {
    let s = load_settings(
        some("secret"),
        None,
        some("https"),
        some("radarr.lan:443"),
        some("+12"),
        some("  "),
        some("TrUe"),
        some("http://proxy.test"),
    )
    .unwrap();
    assert_eq!(s.radarr_url, "https://radarr.lan:443");
    assert_eq!(s.quality_profile_id, 12);
    assert_eq!(s.root_folder_path, None);
    assert!(s.dry_run);
    assert_eq!(s.alamo_url, "http://proxy.test");
    let s = load_settings(
        some("secret"),
        some("https://radarr.example.test"),
        some("ftp"),
        None,
        None,
        some("/movies"),
        some("1"),
        None,
    )
    .unwrap();
    assert_eq!(s.radarr_url, "https://radarr.example.test");
    assert_eq!(s.root_folder_path.as_deref(), Some("/movies"));
    assert!(s.dry_run);
    let s = load_settings(some("t"), None, None, None, None, None, some("yes"), None).unwrap();
    assert!(!s.dry_run);
}

#[test]
fn settings_reject_bad_quality_profiles() {
    for bad in ["0", "-1", "abc", "", "+", "4294967296", "1.5"] {
        assert_eq!(
            load_settings(some("t"), None, None, None, some(bad), None, None, None).unwrap_err(),
            ConfigError::InvalidQualityProfile(bad.to_string())
        );
    }
    let s = load_settings(some("t"), None, None, None, some("4294967295"), None, None, None).unwrap();
    assert_eq!(s.quality_profile_id, u32::MAX);
    let s = load_settings(some("t"), None, None, None, some("007"), None, None, None).unwrap();
    assert_eq!(s.quality_profile_id, 7);
}
