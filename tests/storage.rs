use riley_cms::storage::{
    asset_page_size, asset_url, next_continuation_token, plan_upload, upload_key,
};

#[test]
fn asset_page_sizes() {
    assert_eq!(asset_page_size(None), 100);
    assert_eq!(asset_page_size(Some(5)), 5);
    assert_eq!(asset_page_size(Some(5000)), 1000);
}

#[test]
fn asset_urls_join_base_and_key() {
    assert_eq!(asset_url("https://assets.example.com/", "img/a.png"), "https://assets.example.com/img/a.png");
    assert_eq!(asset_url("https://assets.example.com//", "a"), "https://assets.example.com/a");
    assert_eq!(asset_url("https://assets.example.com", "a"), "https://assets.example.com/a");
}

#[test]
fn upload_keys() {
    assert_eq!(upload_key("a.png", None).unwrap(), "a.png");
    assert_eq!(upload_key("a.png", Some("/images/2024/")).unwrap(), "images/2024/a.png");
    assert!(upload_key("a.png", Some("images/../secret")).is_err());
    assert!(upload_key("a.png", Some("..")).is_err());
    assert_eq!(upload_key("a.png", Some("images/..x")).unwrap(), "images/..x/a.png");
}

#[test]
fn continuation_only_when_truncated() {
    assert_eq!(next_continuation_token(Some(true), Some("t".to_string())), Some("t".to_string()));
    assert_eq!(next_continuation_token(Some(false), Some("t".to_string())), None);
    assert_eq!(next_continuation_token(None, Some("t".to_string())), None);
}

#[test]
fn upload_plan_guesses_type() {
    let p = plan_upload("/tmp/photo.png", "photo.png", Some("img"), "https://cdn.example.com").unwrap();
    assert_eq!(p.key, "img/photo.png");
    assert_eq!(p.content_type, "image/png");
    assert_eq!(p.url, "https://cdn.example.com/img/photo.png");
    let p = plan_upload("/tmp/blob.unknownext", "blob.unknownext", None, "https://cdn.example.com").unwrap();
    assert_eq!(p.content_type, "application/octet-stream");
}
