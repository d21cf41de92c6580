use riley_cms::auth::AuthStatus;
use riley_cms::http::{
    asset_access, cache_headers, cache_settings, cors_policy, git_gate, is_authenticated_request,
    item_status, list_options_for, security_headers, CorsPolicy, GitGate, ListQuery,
};
use riley_cms::time::Timestamp;

fn query(drafts: bool, scheduled: bool) -> ListQuery {
    ListQuery { include_drafts: drafts, include_scheduled: scheduled, limit: None, offset: None }
}

#[test]
fn drafts_or_scheduled_need_admin() {
    assert!(is_authenticated_request(&query(true, false)));
    assert!(is_authenticated_request(&query(false, true)));
    assert!(!is_authenticated_request(&query(false, false)));
    assert_eq!(list_options_for(query(true, false), AuthStatus::Public).unwrap_err(), 401);
    assert_eq!(list_options_for(query(false, true), AuthStatus::Public).unwrap_err(), 401);
    let opts = list_options_for(query(true, true), AuthStatus::Admin).unwrap();
    assert!(opts.include_drafts && opts.include_scheduled);
    assert!(list_options_for(query(false, false), AuthStatus::Public).is_ok());
}

#[test]
fn hidden_items_look_missing_to_the_public() {
    let now = Timestamp::from_secs(1_700_000_000);
    let missing = item_status(None, AuthStatus::Public, &now);
    assert_eq!(missing, 404);
    assert_eq!(item_status(Some(None), AuthStatus::Public, &now), missing);
    assert_eq!(item_status(Some(Some(Timestamp::from_secs(4_070_908_800))), AuthStatus::Public, &now), missing);
    assert_eq!(item_status(Some(None), AuthStatus::Admin, &now), 200);
    assert_eq!(item_status(Some(Some(Timestamp::from_secs(1_577_836_800))), AuthStatus::Public, &now), 200);
    assert_eq!(item_status(None, AuthStatus::Admin, &now), 404);
}

#[test]
fn public_responses_are_cacheable_with_etag() {
    let h = cache_headers(false, 60, 300, "\"abc\"");
    assert_eq!(h.cache_control, "public, max-age=60, stale-while-revalidate=300");
    assert_eq!(h.etag, Some("\"abc\"".to_string()));
    let h = cache_headers(true, 60, 300, "\"abc\"");
    assert_eq!(h.cache_control, "private, no-store");
    assert_eq!(h.etag, None);
    assert_eq!(cache_settings(None), (60, 300));
}

#[test]
fn security_headers_on_every_response() {
    let h = security_headers();
    assert_eq!(h.len(), 3);
    assert!(h.contains(&("x-frame-options".to_string(), "DENY".to_string())));
    assert!(h.contains(&("content-security-policy".to_string(), "default-src 'none'".to_string())));
}

#[test]
fn cors_defaults_to_deny() {
    assert_eq!(cors_policy(None), CorsPolicy::DenyAll);
    assert_eq!(cors_policy(Some(&Vec::new())), CorsPolicy::DenyAll);
    assert_eq!(cors_policy(Some(&vec!["*".to_string()])), CorsPolicy::AllowAny);
    assert_eq!(cors_policy(Some(&vec!["https://example.com".to_string()])), CorsPolicy::AllowList);
}

#[test]
fn git_path_checked_before_auth() {
    assert_eq!(git_gate("../../etc/passwd", None, Some("tok")), GitGate::BadPath);
    assert_eq!(git_gate(";rm%20-rf%20/", None, Some("tok")), GitGate::BadPath);
    assert_eq!(git_gate("info/refs", None, Some("tok")), GitGate::Unauthorized);
    // base64("git:tok")
    assert_eq!(git_gate("info/refs", Some("Basic Z2l0OnRvaw=="), Some("tok")), GitGate::Proceed);
}

#[test]
fn assets_are_admin_only() {
    assert!(asset_access(AuthStatus::Admin).is_ok());
    assert_eq!(asset_access(AuthStatus::Public), Err(401));
}
