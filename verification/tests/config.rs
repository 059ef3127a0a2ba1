use walriust::config::{build_config, env_or_default};

#[test]
fn a_given_value_is_kept() {
    assert_eq!(env_or_default(Some("postgres://db/x".to_string()), "fallback"), "postgres://db/x");
    assert_eq!(env_or_default(Some(String::new()), "fallback"), "");
}

#[test]
fn a_missing_value_gives_the_default() {
    assert_eq!(env_or_default(None, "fallback"), "fallback");
    assert_eq!(env_or_default(None, ""), "");
}

#[test]
fn config_without_settings_has_the_defaults() {
    let config = build_config(None, None);
    assert_eq!(config.database_url, "postgres:///walriust");
    assert_eq!(config.telegram_token, "");
}

#[test]
fn config_keeps_the_settings_given() {
    let config = build_config(Some("postgres://h/db".to_string()), Some("123:abc".to_string()));
    assert_eq!(config.database_url, "postgres://h/db");
    assert_eq!(config.telegram_token, "123:abc");
    let config = build_config(None, Some("123:abc".to_string()));
    assert_eq!(config.database_url, "postgres:///walriust");
    assert_eq!(config.telegram_token, "123:abc");
}
