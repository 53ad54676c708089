use browserless_html_to_pdf::config::Config;
use browserless_html_to_pdf::config_with;
use browserless_html_to_pdf::strmap::StringMap;

#[test]
fn defaults_when_env_absent() {
    let c = Config::from_map(&StringMap::new());
    assert!(!c.storage_enabled);
    assert_eq!(c.scheme, "fs");
    assert_eq!(c.url_ttl_secs, 3600);
    assert_eq!(c.max_body_bytes, 8 * 1024 * 1024);
    assert_eq!(c.max_html_bytes, 2 * 1024 * 1024);
    assert_eq!(c.max_image_pages, 10);
    assert_eq!(c.rate_limit_per_min, 60);
    assert_eq!(c.max_concurrent_renders, 4);
}

#[test]
fn parses_opendal_passthrough_and_flags() {
    let mut m = StringMap::new();
    m.insert("STORAGE_ENABLED".into(), "true".into());
    m.insert("OPENDAL_SCHEME".into(), "s3".into());
    m.insert("OPENDAL_BUCKET".into(), "mybucket".into());
    let c = Config::from_map(&m);
    assert!(c.storage_enabled);
    assert_eq!(c.scheme, "s3");
    assert_eq!(
        c.opendal_opts.get("bucket").map(String::as_str),
        Some("mybucket")
    );
}

#[test]
fn rejects_out_of_range_numeric_config() {
    let mut m = StringMap::new();
    m.insert("PORT".into(), "70000".into());
    assert!(Config::try_from_map(&m).is_err());

    let mut m = StringMap::new();
    m.insert("RATE_LIMIT_PER_MIN".into(), "0".into());
    assert!(Config::try_from_map(&m).is_err());

    let mut m = StringMap::new();
    m.insert("MAX_CONCURRENT_RENDERS".into(), "0".into());
    assert!(Config::try_from_map(&m).is_err());
}

#[test]
fn defaults_for_port_url_and_random_key() {
    let c = Config::from_map(&StringMap::new());
    assert_eq!(c.port, 3000);
    assert_eq!(c.public_base_url, "http://localhost:3000");
    assert_eq!(c.signing_key.len(), 16);
    assert_eq!(c.opendal_opts.len(), 0);
}

#[test]
fn signing_key_is_taken_as_bytes() {
    let c = config_with(&[("SIGNING_KEY", "test-key")]);
    assert_eq!(c.signing_key, b"test-key".to_vec());
}

#[test]
fn config_with_later_overrides_win() {
    let c = config_with(&[("MAX_IMAGE_PAGES", "3"), ("MAX_IMAGE_PAGES", "7")]);
    assert_eq!(c.max_image_pages, 7);
}

#[test]
fn parse_errors_name_the_variable() {
    let mut m = StringMap::new();
    m.insert("PORT".into(), "abc".into());
    let e = Config::try_from_map(&m).unwrap_err();
    assert_eq!(e.to_string(), "PORT has invalid value 'abc': invalid digit found in string");

    let mut m = StringMap::new();
    m.insert("MAX_BODY_BYTES".into(), "".into());
    let e = Config::try_from_map(&m).unwrap_err();
    assert_eq!(
        e.to_string(),
        "MAX_BODY_BYTES has invalid value '': cannot parse integer from empty string"
    );

    let mut m = StringMap::new();
    m.insert("URL_TTL_SECS".into(), "99999999999999999999".into());
    let e = Config::try_from_map(&m).unwrap_err();
    assert_eq!(
        e.to_string(),
        "URL_TTL_SECS has invalid value '99999999999999999999': number too large to fit in target type"
    );
}

#[test]
fn range_errors_have_their_messages() {
    let mut m = StringMap::new();
    m.insert("PORT".into(), "70000".into());
    assert_eq!(Config::try_from_map(&m).unwrap_err().to_string(), "PORT must be <= 65535");

    let mut m = StringMap::new();
    m.insert("RATE_LIMIT_PER_MIN".into(), "0".into());
    assert_eq!(
        Config::try_from_map(&m).unwrap_err().to_string(),
        "RATE_LIMIT_PER_MIN must be greater than 0"
    );

    let mut m = StringMap::new();
    m.insert("RATE_LIMIT_PER_MIN".into(), "4294967296".into());
    assert_eq!(
        Config::try_from_map(&m).unwrap_err().to_string(),
        "RATE_LIMIT_PER_MIN must be <= 4294967295"
    );

    let mut m = StringMap::new();
    m.insert("MAX_IMAGE_PAGES".into(), "0".into());
    assert_eq!(
        Config::try_from_map(&m).unwrap_err().to_string(),
        "MAX_IMAGE_PAGES must be greater than 0"
    );
}

#[test]
fn ttl_must_be_one_second_to_seven_days() {
    for bad in ["0", "604801"] {
        let mut m = StringMap::new();
        m.insert("URL_TTL_SECS".into(), bad.into());
        assert_eq!(
            Config::try_from_map(&m).unwrap_err().to_string(),
            "URL_TTL_SECS must be between 1 and 604800"
        );
    }
    let c = config_with(&[("URL_TTL_SECS", "604800")]);
    assert_eq!(c.url_ttl_secs, 604800);
    let c = config_with(&[("URL_TTL_SECS", "+1")]);
    assert_eq!(c.url_ttl_secs, 1);
}

#[test]
fn fs_storage_needs_a_signing_key() {
    let mut m = StringMap::new();
    m.insert("STORAGE_ENABLED".into(), "true".into());
    assert_eq!(
        Config::try_from_map(&m).unwrap_err().to_string(),
        "SIGNING_KEY is required when fs storage is enabled"
    );
    m.insert("SIGNING_KEY".into(), "k".into());
    assert!(Config::try_from_map(&m).is_ok());

    let mut m = StringMap::new();
    m.insert("STORAGE_ENABLED".into(), "true".into());
    m.insert("OPENDAL_SCHEME".into(), "memory".into());
    assert!(Config::try_from_map(&m).is_ok());
}

#[test]
fn first_bad_setting_is_reported() {
    let mut m = StringMap::new();
    m.insert("MAX_CONCURRENT_RENDERS".into(), "0".into());
    m.insert("PORT".into(), "x".into());
    assert_eq!(
        Config::try_from_map(&m).unwrap_err().to_string(),
        "PORT has invalid value 'x': invalid digit found in string"
    );
}

#[test]
fn opendal_options_are_lowercased_and_skip_scheme() {
    let mut m = StringMap::new();
    m.insert("OPENDAL_ROOT".into(), "/data".into());
    m.insert("OPENDAL_SCHEME".into(), "memory".into());
    m.insert("OTHER".into(), "x".into());
    let c = Config::from_map(&m);
    assert_eq!(c.opendal_opts.get("root").map(String::as_str), Some("/data"));
    assert!(c.opendal_opts.get("scheme").is_none());
    assert_eq!(c.opendal_opts.len(), 1);
    assert_eq!(c.scheme, "memory");
}

#[test]
fn storage_enabled_only_for_exact_true() {
    let c = config_with(&[("STORAGE_ENABLED", "TRUE")]);
    assert!(!c.storage_enabled);
}
