use fnorm::config::CharMap;
use fnorm::normalize_with_config;
use fnorm::ConfigError;
use fnorm::NormalizationConfig;

#[test]
fn test_default_config_tables() {
    let config = NormalizationConfig::default();
    assert!(config.lowercase);
    assert!(config.lowercase_extension);
    assert_eq!(config.special_tokens.get('/').map(|s| s.as_str()), Some("-or-"));
    assert_eq!(config.special_tokens.get('&').map(|s| s.as_str()), Some("-and-"));
    assert_eq!(config.special_tokens.get('@').map(|s| s.as_str()), Some("-at-"));
    assert_eq!(config.special_tokens.get('%').map(|s| s.as_str()), Some("-percent-"));
    assert_eq!(config.special_tokens.get('a'), None);
    assert_eq!(config.transliterations.get('é').map(|s| s.as_str()), Some("e"));
    assert_eq!(config.transliterations.get('ß').map(|s| s.as_str()), Some("ss"));
    assert_eq!(config.transliterations.get('œ').map(|s| s.as_str()), Some("oe"));
    assert_eq!(config.transliterations.get('x'), None);
}

#[test]
fn test_from_toml_str_empty_document() {
    let config = NormalizationConfig::from_toml_str("").expect("empty document is valid");
    assert_eq!(normalize_with_config("My File.txt", &config), "my-file.txt");
}

#[test]
fn test_from_toml_str_parse_error() {
    let err = NormalizationConfig::from_toml_str("not [ valid toml").unwrap_err();
    assert!(matches!(err, ConfigError::Parse));
    assert_eq!(err.message(), "failed to parse config");
}

#[test]
fn test_from_toml_str_wrong_section_type() {
    let err = NormalizationConfig::from_toml_str("special_tokens = 3").unwrap_err();
    assert!(matches!(err, ConfigError::Parse));
}

#[test]
fn test_from_toml_str_wrong_value_type() {
    let err = NormalizationConfig::from_toml_str(
        r#"
        [special_tokens]
        "&" = 5
        "#,
    )
    .unwrap_err();
    assert!(matches!(err, ConfigError::Parse));

    let err = NormalizationConfig::from_toml_str(
        r#"
        [options]
        lowercase = "yes"
        "#,
    )
    .unwrap_err();
    assert!(matches!(err, ConfigError::Parse));
}

#[test]
fn test_from_toml_str_invalid_key() {
    let err = NormalizationConfig::from_toml_str(
        r#"
        [special_tokens]
        "ab" = "-x-"
        "#,
    )
    .unwrap_err();
    match &err {
        ConfigError::InvalidKey { section, key } => {
            assert_eq!(section, "special_tokens");
            assert_eq!(key, "ab");
        }
        other => panic!("expected InvalidKey, got {:?}", other.message()),
    }
    assert_eq!(
        err.message(),
        "invalid key \"ab\" in special_tokens; use single-character keys"
    );

    let err = NormalizationConfig::from_toml_str(
        r#"
        [transliterations]
        "" = "x"
        "#,
    )
    .unwrap_err();
    match err {
        ConfigError::InvalidKey { section, key } => {
            assert_eq!(section, "transliterations");
            assert_eq!(key, "");
        }
        _ => panic!("expected InvalidKey"),
    }
}

#[test]
fn test_from_toml_str_unknown_sections_ignored() {
    let config = NormalizationConfig::from_toml_str(
        r#"
        [something_else]
        "a" = 1

        [options]
        unknown_flag = 17
        lowercase_extension = false
        "#,
    )
    .expect("unknown fields are ignored");
    assert_eq!(normalize_with_config("A.TXT", &config), "a.TXT");
}

#[test]
fn test_overrides_add_and_replace() {
    let config = NormalizationConfig::from_toml_str(
        r#"
        [special_tokens]
        "+" = "-plus-"

        [transliterations]
        "é" = "ee"
        "#,
    )
    .expect("config should parse");
    // A new token alongside the defaults.
    assert_eq!(normalize_with_config("a+b.txt", &config), "a-plus-b.txt");
    assert_eq!(normalize_with_config("a&b.txt", &config), "a-and-b.txt");
    // A replaced transliteration.
    assert_eq!(normalize_with_config("café.txt", &config), "cafee.txt");
    assert_eq!(normalize_with_config("naïve.txt", &config), "naive.txt");
}

#[test]
fn test_config_built_from_scratch() {
    let mut special = CharMap::new();
    special.set('&', "-with-".to_string());
    let config = NormalizationConfig {
        special_tokens: special,
        transliterations: CharMap::new(),
        lowercase: true,
        lowercase_extension: false,
    };
    assert_eq!(
        normalize_with_config("Ben & Jerry.TXT", &config),
        "ben-with-jerry.TXT"
    );
    // Without any transliteration table a non-ASCII letter collapses to
    // a hyphen.
    assert_eq!(normalize_with_config("café.txt", &config), "caf-.txt");
}
