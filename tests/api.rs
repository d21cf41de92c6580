use riley_cms::auth::{api_auth_status, AuthStatus};
use riley_cms::content::{ContentCache, ListOptions, Post, SeriesConfig, SeriesEntry};
use riley_cms::git::should_reload_after;
use riley_cms::http::{cache_headers, git_gate, item_status, list_options_for, GitGate, ListQuery};
use riley_cms::ip::{first_safe_address, IpAddr, SocketAddress};
use riley_cms::time::Timestamp;
use riley_cms::webhook::webhook_signature;

const TOKEN: &str = "test-secret-token";
const JAN_2020: i64 = 1_577_836_800;
const JAN_2099: i64 = 4_070_908_800;

fn now() -> Timestamp {
    Timestamp::from_secs(1_700_000_000)
}

fn post(slug: &str, title: &str, goes_live_at: Option<i64>) -> Post {
    Post {
        slug: slug.to_string(),
        title: title.to_string(),
        subtitle: None,
        preview_text: "Preview".to_string(),
        preview_image: None,
        tags: None,
        goes_live_at: goes_live_at.map(Timestamp::from_secs),
        series_slug: None,
        content: format!("# {}", title),
        order: None,
    }
}

fn query(drafts: bool, scheduled: bool) -> ListQuery {
    ListQuery { include_drafts: drafts, include_scheduled: scheduled, limit: None, offset: None }
}

fn auth(header: Option<&str>) -> AuthStatus {
    api_auth_status(header, Some(TOKEN))
}

/// The status and titles a list request gets.
fn list(cache: &ContentCache, q: ListQuery, header: Option<&str>) -> Result<Vec<String>, u16> {
    let opts = list_options_for(q, auth(header))?;
    Ok(cache.list_posts_at(&opts, &now()).items.into_iter().map(|p| p.title).collect())
}

/// The status a single-post request gets.
fn get(cache: &ContentCache, slug: &str, header: Option<&str>) -> u16 {
    let found = cache.get_post(slug).unwrap();
    item_status(found.map(|p| p.goes_live_at), auth(header), &now())
}

#[test]
fn test_list_posts_empty() {
    let cache = ContentCache::from_entries(Vec::new(), Vec::new());
    let r = cache.list_posts(&ListOptions::default()).unwrap();
    assert!(r.items.is_empty());
    assert_eq!(r.total, 0);
}

#[test]
fn test_list_posts_with_live_content() {
    let cache = ContentCache::from_entries(vec![post("live-post", "Live Post", Some(JAN_2020))], Vec::new());
    assert_eq!(list(&cache, query(false, false), None).unwrap(), vec!["Live Post"]);
}

#[test]
fn test_list_posts_excludes_drafts_by_default() {
    let cache = ContentCache::from_entries(
        vec![post("draft-post", "Draft Post", None), post("live-post", "Live Post", Some(JAN_2020))],
        Vec::new(),
    );
    assert_eq!(list(&cache, query(false, false), None).unwrap(), vec!["Live Post"]);
}

#[test]
fn test_drafts_require_auth_returns_401() {
    let cache = ContentCache::from_entries(vec![post("draft-post", "Draft Post", None)], Vec::new());
    assert_eq!(list(&cache, query(true, false), None), Err(401));
}

#[test]
fn test_scheduled_require_auth_returns_401() {
    let cache = ContentCache::from_entries(vec![post("scheduled-post", "Scheduled Post", Some(JAN_2099))], Vec::new());
    assert_eq!(list(&cache, query(false, true), None), Err(401));
}

#[test]
fn test_drafts_with_valid_auth_returns_200() {
    let cache = ContentCache::from_entries(
        vec![post("draft-post", "Draft Post", None), post("live-post", "Live Post", Some(JAN_2020))],
        Vec::new(),
    );
    let titles = list(&cache, query(true, false), Some("Bearer test-secret-token")).unwrap();
    assert_eq!(titles.len(), 2);
}

#[test]
fn test_invalid_token_returns_401() {
    let cache = ContentCache::from_entries(vec![post("draft-post", "Draft Post", None)], Vec::new());
    assert_eq!(list(&cache, query(true, false), Some("Bearer wrong-token")), Err(401));
}

#[test]
fn test_public_response_has_cache_headers() {
    let cache = ContentCache::from_entries(vec![post("post", "Post", Some(JAN_2020))], Vec::new());
    let h = cache_headers(auth(None) == AuthStatus::Admin, 60, 300, &cache.etag());
    assert!(h.cache_control.contains("public"));
    assert!(h.etag.is_some());
}

#[test]
fn test_authenticated_response_no_public_cache() {
    let h = cache_headers(auth(Some("Bearer test-secret-token")) == AuthStatus::Admin, 60, 300, "\"x\"");
    assert!(h.cache_control.contains("private"));
    assert!(h.cache_control.contains("no-store"));
}

#[test]
fn test_get_single_post() {
    let cache = ContentCache::from_entries(vec![post("my-post", "My Post", Some(JAN_2020))], Vec::new());
    assert_eq!(get(&cache, "my-post", None), 200);
    let p = cache.get_post("my-post").unwrap().unwrap();
    assert_eq!(p.slug, "my-post");
    assert_eq!(p.title, "My Post");
    assert!(p.content.contains("# My Post"));
}

#[test]
fn test_get_nonexistent_post_returns_404() {
    let cache = ContentCache::from_entries(Vec::new(), Vec::new());
    assert_eq!(get(&cache, "nonexistent", None), 404);
}

#[test]
fn test_draft_post_returns_404_without_auth() {
    let cache = ContentCache::from_entries(vec![post("secret-draft", "Secret Draft", None)], Vec::new());
    assert_eq!(get(&cache, "secret-draft", None), 404);
}

#[test]
fn test_scheduled_post_returns_404_without_auth() {
    let cache = ContentCache::from_entries(vec![post("future-post", "Future Post", Some(JAN_2099))], Vec::new());
    assert_eq!(get(&cache, "future-post", None), 404);
}

#[test]
fn test_draft_post_visible_with_admin_auth() {
    let cache = ContentCache::from_entries(vec![post("secret-draft", "Secret Draft", None)], Vec::new());
    assert_eq!(get(&cache, "secret-draft", Some("Bearer test-secret-token")), 200);
    assert_eq!(cache.get_post("secret-draft").unwrap().unwrap().title, "Secret Draft");
}

#[test]
fn test_draft_series_returns_404_without_auth() {
    let entry = SeriesEntry {
        slug: "draft-series".to_string(),
        config: SeriesConfig { title: "Draft Series".to_string(), description: Some("A draft series".to_string()), preview_image: None, goes_live_at: None },
    };
    let cache = ContentCache::from_entries(Vec::new(), vec![entry]);
    let s = cache.get_series("draft-series").unwrap();
    assert_eq!(item_status(s.as_ref().map(|s| s.goes_live_at), auth(None), &now()), 404);
    assert_eq!(item_status(s.as_ref().map(|s| s.goes_live_at), auth(Some("Bearer test-secret-token")), &now()), 200);
    assert_eq!(s.unwrap().title, "Draft Series");
}

#[test]
fn test_git_path_traversal_rejected() {
    assert_eq!(git_gate("../../etc/passwd", None, Some("git-token")), GitGate::BadPath);
}

#[test]
fn test_git_path_special_chars_rejected() {
    assert_eq!(git_gate(";rm%20-rf%20/", None, Some("git-token")), GitGate::BadPath);
}

#[test]
fn test_etag_is_full_sha256() {
    let cache = ContentCache::from_entries(vec![post("post", "Post", Some(JAN_2020))], Vec::new());
    let etag = cache.etag();
    assert_eq!(etag.len(), 66, "ETag should be full SHA256 (64 hex chars + quotes), got: {}", etag);
    assert!(etag.starts_with('"') && etag.ends_with('"'));
    assert!(etag[1..65].chars().all(|c| c.is_ascii_hexdigit()));
}

#[test]
fn scheduled_post_invisible_to_listing() {
    let cache = ContentCache::from_entries(
        vec![post("now", "now", Some(JAN_2020)), post("future", "future", Some(JAN_2099))],
        Vec::new(),
    );
    assert_eq!(list(&cache, query(false, false), None).unwrap(), vec!["now"]);
    assert_eq!(list(&cache, query(false, true), None), Err(401));
    let both = list(&cache, query(false, true), Some("Bearer test-secret-token")).unwrap();
    assert_eq!(both, vec!["future", "now"]);
}

#[test]
fn webhook_only_to_public_address_and_signed() {
    let loopback_only = vec![SocketAddress { ip: IpAddr::V4([127, 0, 0, 1]), port: 443 }];
    assert_eq!(first_safe_address(&loopback_only), None);
    let public = vec![SocketAddress { ip: IpAddr::V4([93, 184, 216, 34]), port: 443 }];
    assert_eq!(first_safe_address(&public), Some(public[0]));
    assert_eq!(webhook_signature("s3cret"), "sha256=adbde1ce40c89c14215687d5d762a47df6dfaefcfad61e2e86718ffc8498571b");
}

#[test]
fn push_reloads_index_with_new_post() {
    let before = ContentCache::from_entries(vec![post("a", "A", Some(JAN_2020))], Vec::new());
    let n = before.list_posts_at(&ListOptions::default(), &now()).total;
    assert!(should_reload_after(true, 200, true));
    let after = ContentCache::from_entries(vec![post("a", "A", Some(JAN_2020)), post("b", "B", Some(JAN_2020))], Vec::new());
    assert_eq!(after.list_posts_at(&ListOptions::default(), &now()).total, n + 1);
    assert_ne!(before.etag(), after.etag());
}
