use riley_cms::auth::{
    api_auth_status, bearer_token, check_git_basic_auth, digests_match, is_content_visible,
    password_of_credentials, secrets_match, strip_prefix, AuthStatus,
};
use riley_cms::time::{visibility, Timestamp, Visibility};

#[test]
fn middleware_test_auth_status_equality() {
    assert_eq!(AuthStatus::Public, AuthStatus::Public);
    assert_eq!(AuthStatus::Admin, AuthStatus::Admin);
    assert_ne!(AuthStatus::Public, AuthStatus::Admin);
}

#[test]
fn bearer_token_is_admin() {
    assert_eq!(api_auth_status(Some("Bearer test-secret-token"), Some("test-secret-token")), AuthStatus::Admin);
    assert_eq!(api_auth_status(Some("Bearer  test-secret-token  "), Some("test-secret-token")), AuthStatus::Admin);
}

#[test]
fn wrong_or_missing_bearer_token_is_public() {
    assert_eq!(api_auth_status(Some("Bearer wrong-token"), Some("test-secret-token")), AuthStatus::Public);
    assert_eq!(api_auth_status(None, Some("test-secret-token")), AuthStatus::Public);
    assert_eq!(api_auth_status(Some("Basic dGVzdA=="), Some("test-secret-token")), AuthStatus::Public);
    assert_eq!(api_auth_status(Some("Bearer test-secret-token"), None), AuthStatus::Public);
}

#[test]
fn empty_api_token_never_matches() {
    assert_eq!(api_auth_status(Some("Bearer "), Some("")), AuthStatus::Public);
    assert_eq!(api_auth_status(Some("Bearer x"), Some("")), AuthStatus::Public);
}

#[test]
fn bearer_token_extraction() {
    assert_eq!(bearer_token("Bearer abc "), Some("abc".to_string()));
    assert_eq!(bearer_token("bearer abc"), None);
    assert_eq!(strip_prefix("env:NAME", "env:"), Some("NAME".to_string()));
    assert_eq!(strip_prefix("en", "env:"), None);
}

#[test]
fn git_basic_auth_checks_password_only() {
    // base64("git:test-secret-token")
    assert!(check_git_basic_auth(Some("Basic Z2l0OnRlc3Qtc2VjcmV0LXRva2Vu"), Some("test-secret-token")));
    // base64("git:wrong")
    assert!(!check_git_basic_auth(Some("Basic Z2l0Ondyb25n"), Some("test-secret-token")));
    assert!(!check_git_basic_auth(Some("Basic !!!"), Some("test-secret-token")));
    assert!(!check_git_basic_auth(Some("Bearer test-secret-token"), Some("test-secret-token")));
    assert!(!check_git_basic_auth(None, Some("test-secret-token")));
}

#[test]
fn git_without_token_denies_everything() {
    assert!(!check_git_basic_auth(Some("Basic Z2l0OnRlc3Qtc2VjcmV0LXRva2Vu"), None));
    assert!(!check_git_basic_auth(Some("Basic Z2l0Og=="), Some("")));
}

#[test]
fn password_follows_first_colon() {
    assert_eq!(password_of_credentials(b"user:pa:ss"), Some("pa:ss".to_string()));
    assert_eq!(password_of_credentials(b"nocolon"), None);
    assert_eq!(password_of_credentials(b"\xff:x"), None);
}

#[test]
fn digest_and_secret_comparison() {
    let d = [7u8; 32];
    assert!(digests_match(&d, &[7u8; 32]));
    assert!(!digests_match(&d, &[8u8; 32]));
    assert!(!digests_match(&d, &d[..31]));
    assert!(secrets_match("token", "token"));
    assert!(!secrets_match("token", "token2"));
    assert!(!secrets_match("token", ""));
}

#[test]
fn visibility_of_items() {
    let now = Timestamp { secs: 1_700_000_000, nanos: 0 };
    assert_eq!(visibility(None, &now), Visibility::Draft);
    assert_eq!(visibility(Some(Timestamp::from_secs(1_577_836_800)), &now), Visibility::Live);
    assert_eq!(visibility(Some(Timestamp::from_secs(4_070_908_800)), &now), Visibility::Scheduled);
    assert_eq!(visibility(Some(now), &now), Visibility::Live);
    assert_eq!(visibility(Some(Timestamp { secs: 1_700_000_000, nanos: 1 }), &now), Visibility::Scheduled);
}

#[test]
fn only_admins_see_drafts_and_scheduled_items() {
    let now = Timestamp { secs: 1_700_000_000, nanos: 0 };
    let future = Some(Timestamp::from_secs(4_070_908_800));
    assert!(!is_content_visible(None, AuthStatus::Public, &now));
    assert!(!is_content_visible(future, AuthStatus::Public, &now));
    assert!(is_content_visible(None, AuthStatus::Admin, &now));
    assert!(is_content_visible(future, AuthStatus::Admin, &now));
    assert!(is_content_visible(Some(Timestamp::from_secs(1_577_836_800)), AuthStatus::Public, &now));
}
