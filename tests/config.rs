use riley_cms::config::{
    config_candidates, default_backend, default_content_dir, default_region, effective_token,
    ConfigValue, GitConfig, ServerConfig,
};
use riley_cms::error::Error;

#[test]
fn test_server_config_defaults() {
    let server = ServerConfig::default();
    assert_eq!(server.host, "0.0.0.0");
    assert_eq!(server.port, 8080);
    assert!(server.cors_origins.is_empty());
    assert_eq!(server.cache_max_age, 60);
    assert_eq!(server.cache_stale_while_revalidate, 300);
}

#[test]
fn test_config_value_literal() {
    let val = ConfigValue::Literal("test".to_string());
    assert_eq!(val.resolve(None).unwrap(), "test");
}

#[test]
fn test_config_value_env() {
    let val = ConfigValue::Literal("env:TEST_RILEY_VAR".to_string());
    assert_eq!(val.env_var(), Some("TEST_RILEY_VAR".to_string()));
    assert_eq!(val.resolve(Some("from_env".to_string())).unwrap(), "from_env");
}

#[test]
fn test_config_value_env_missing() {
    let val = ConfigValue::Literal("env:NONEXISTENT_RILEY_VAR_12345".to_string());
    assert!(val.resolve(None).is_err());
}

#[test]
fn literal_has_no_env_var() {
    assert_eq!(ConfigValue::Literal("secret123".to_string()).env_var(), None);
}

#[test]
fn defaults_of_sections() {
    assert_eq!(default_content_dir(), "content");
    assert_eq!(default_backend(), "s3");
    assert_eq!(default_region(), "auto");
    let git = GitConfig::default();
    assert_eq!(git.max_body_size, 104_857_600);
    assert_eq!(git.cgi_timeout_secs, 300);
    assert!(git.backend_path.is_none());
}

#[test]
fn empty_or_unresolved_token_is_disabled() {
    assert_eq!(effective_token(Some(Ok("t".to_string()))), Some("t".to_string()));
    assert_eq!(effective_token(Some(Ok(String::new()))), None);
    assert_eq!(effective_token(Some(Err(Error::Config("x".to_string())))), None);
    assert_eq!(effective_token(None), None);
}

#[test]
fn config_search_order() {
    let dirs = vec!["/home/u/site".to_string(), "/home/u".to_string()];
    let c = config_candidates(Some("/x.toml"), Some("/env.toml"), &dirs, Some("/home/u/.config"));
    assert_eq!(
        c,
        vec![
            "/x.toml",
            "/env.toml",
            "/home/u/site/riley_cms.toml",
            "/home/u/riley_cms.toml",
            "/home/u/.config/riley_cms/config.toml",
            "/etc/riley_cms/config.toml",
        ]
    );
    let c = config_candidates(None, None, &Vec::new(), None);
    assert_eq!(c, vec!["/etc/riley_cms/config.toml"]);
}
