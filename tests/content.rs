use riley_cms::content::{
    ContentCache, ListOptions, Post, PostSummary, SeriesConfig, SeriesEntry,
};
use riley_cms::time::Timestamp;

const JAN_2020: i64 = 1_577_836_800;
const JAN_2099: i64 = 4_070_908_800;

fn post(slug: &str, title: &str, goes_live_at: Option<i64>) -> Post {
    Post {
        slug: slug.to_string(),
        title: title.to_string(),
        subtitle: None,
        preview_text: "Preview".to_string(),
        preview_image: None,
        tags: None,
        goes_live_at: goes_live_at.map(Timestamp::from_secs),
        series_slug: None,
        content: "# Content".to_string(),
        order: None,
    }
}

fn member(slug: &str, series: &str, order: Option<i32>) -> Post {
    let mut p = post(slug, slug, None);
    p.series_slug = Some(series.to_string());
    p.order = order;
    p
}

fn series_entry(slug: &str, title: &str) -> SeriesEntry {
    SeriesEntry {
        slug: slug.to_string(),
        config: SeriesConfig {
            title: title.to_string(),
            description: None,
            preview_image: None,
            goes_live_at: Some(Timestamp::from_secs(JAN_2020)),
        },
    }
}

#[test]
fn test_list_options_default() {
    let opts = ListOptions::default();
    assert!(!opts.include_drafts);
    assert!(!opts.include_scheduled);
    assert!(opts.limit.is_none());
    assert!(opts.offset.is_none());
}

#[test]
fn test_post_to_summary_conversion() {
    let post = Post {
        slug: "test-post".to_string(),
        title: "Test Title".to_string(),
        subtitle: Some("Subtitle".to_string()),
        preview_text: "Preview".to_string(),
        preview_image: Some("https://example.com/img.jpg".to_string()),
        tags: Some(vec!["rust".to_string(), "test".to_string()]),
        goes_live_at: Some(Timestamp::from_secs(1_736_899_200)),
        series_slug: Some("my-series".to_string()),
        content: "# Hello World".to_string(),
        order: Some(1),
    };

    let summary = PostSummary::from_post(&post);

    assert_eq!(summary.slug, "test-post");
    assert_eq!(summary.title, "Test Title");
    assert_eq!(summary.subtitle, Some("Subtitle".to_string()));
    assert_eq!(summary.preview_text, "Preview");
    assert_eq!(summary.preview_image, Some("https://example.com/img.jpg".to_string()));
    assert_eq!(summary.tags, Some(vec!["rust".to_string(), "test".to_string()]));
    assert_eq!(summary.series_slug, Some("my-series".to_string()));
}

#[test]
fn test_load_empty_content() {
    let cache = ContentCache::from_entries(Vec::new(), Vec::new());
    assert_eq!(cache.post_count(), 0);
    assert_eq!(cache.series_count(), 0);
}

#[test]
fn test_visibility_filtering_live() {
    let cache = ContentCache::from_entries(vec![post("live-post", "Live", Some(JAN_2020))], Vec::new());
    let opts = ListOptions::default();
    let result = cache.list_posts(&opts).unwrap();
    assert_eq!(result.items.len(), 1);
    assert_eq!(result.items[0].title, "Live");
}

#[test]
fn test_visibility_filtering_drafts() {
    let cache = ContentCache::from_entries(vec![post("draft-post", "Draft", None)], Vec::new());
    let opts = ListOptions::default();
    let result = cache.list_posts(&opts).unwrap();
    assert_eq!(result.items.len(), 0);
    let opts = ListOptions { include_drafts: true, ..Default::default() };
    let result = cache.list_posts(&opts).unwrap();
    assert_eq!(result.items.len(), 1);
}

#[test]
fn test_visibility_filtering_scheduled() {
    let cache = ContentCache::from_entries(vec![post("scheduled-post", "Scheduled", Some(JAN_2099))], Vec::new());
    let result = cache.list_posts(&ListOptions::default()).unwrap();
    assert_eq!(result.items.len(), 0);
    let opts = ListOptions { include_scheduled: true, ..Default::default() };
    let result = cache.list_posts(&opts).unwrap();
    assert_eq!(result.items.len(), 1);
}

#[test]
fn test_pagination() {
    let posts: Vec<Post> = (0..10).map(|i| post(&format!("post-{}", i), &format!("Post {}", i), Some(JAN_2020))).collect();
    let cache = ContentCache::from_entries(posts, Vec::new());
    let opts = ListOptions { limit: Some(3), offset: Some(0), ..Default::default() };
    let result = cache.list_posts(&opts).unwrap();
    assert_eq!(result.items.len(), 3);
    assert_eq!(result.total, 10);
    let opts = ListOptions { limit: Some(3), offset: Some(9), ..Default::default() };
    let result = cache.list_posts(&opts).unwrap();
    assert_eq!(result.items.len(), 1);
    assert_eq!(result.total, 10);
}

#[test]
fn limit_zero_gives_empty_page_and_total() {
    let posts: Vec<Post> = (0..4).map(|i| post(&format!("p{}", i), "T", Some(JAN_2020))).collect();
    let cache = ContentCache::from_entries(posts, Vec::new());
    let result = cache.list_posts(&ListOptions { limit: Some(0), ..Default::default() }).unwrap();
    assert!(result.items.is_empty());
    assert_eq!(result.total, 4);
    assert_eq!(result.limit, 0);
}

#[test]
fn offset_past_total_gives_empty_page() {
    let posts: Vec<Post> = (0..4).map(|i| post(&format!("p{}", i), "T", Some(JAN_2020))).collect();
    let cache = ContentCache::from_entries(posts, Vec::new());
    let result = cache.list_posts(&ListOptions { offset: Some(4), ..Default::default() }).unwrap();
    assert!(result.items.is_empty());
    assert_eq!(result.total, 4);
    let result = cache.list_posts(&ListOptions { offset: Some(100), ..Default::default() }).unwrap();
    assert!(result.items.is_empty());
    assert_eq!(result.total, 4);
}

#[test]
fn limit_is_clamped_to_500_and_defaults_to_50() {
    let posts: Vec<Post> = (0..60).map(|i| post(&format!("p{:02}", i), "T", Some(JAN_2020))).collect();
    let cache = ContentCache::from_entries(posts, Vec::new());
    let result = cache.list_posts(&ListOptions { limit: Some(501), ..Default::default() }).unwrap();
    assert_eq!(result.limit, 500);
    assert_eq!(result.items.len(), 60);
    let result = cache.list_posts(&ListOptions::default()).unwrap();
    assert_eq!(result.limit, 50);
    assert_eq!(result.items.len(), 50);
    assert_eq!(result.offset, 0);
}

#[test]
fn listing_is_newest_first_then_by_slug_with_drafts_last() {
    let posts = vec![
        post("b", "B", Some(JAN_2020)),
        post("draft", "D", None),
        post("a", "A", Some(JAN_2020)),
        post("newer", "N", Some(JAN_2020 + 86_400)),
        post("adraft", "D2", None),
    ];
    let cache = ContentCache::from_entries(posts, Vec::new());
    let opts = ListOptions { include_drafts: true, ..Default::default() };
    let result = cache.list_posts(&opts).unwrap();
    let slugs: Vec<&str> = result.items.iter().map(|p| p.slug.as_str()).collect();
    assert_eq!(slugs, vec!["newer", "a", "b", "adraft", "draft"]);
}

#[test]
fn test_get_nonexistent_post() {
    let cache = ContentCache::from_entries(Vec::new(), Vec::new());
    assert!(cache.get_post("nonexistent").unwrap().is_none());
}

#[test]
fn test_get_nonexistent_series() {
    let cache = ContentCache::from_entries(Vec::new(), Vec::new());
    assert!(cache.get_series("nonexistent").unwrap().is_none());
}

#[test]
fn get_post_returns_post_regardless_of_visibility() {
    let cache = ContentCache::from_entries(vec![post("secret", "Secret", None)], Vec::new());
    let p = cache.get_post("secret").unwrap().unwrap();
    assert_eq!(p.title, "Secret");
    assert_eq!(p.content, "# Content");
}

#[test]
fn later_post_with_same_slug_wins() {
    let cache = ContentCache::from_entries(vec![post("x", "First", None), post("x", "Second", None)], Vec::new());
    assert_eq!(cache.post_count(), 1);
    assert_eq!(cache.get_post("x").unwrap().unwrap().title, "Second");
}

#[test]
fn series_members_ordered_by_order_then_slug() {
    let posts = vec![
        member("zebra", "ordered-series", Some(1)),
        member("apple", "ordered-series", Some(3)),
        member("middle", "ordered-series", Some(2)),
        member("unordered-b", "ordered-series", None),
        member("unordered-a", "ordered-series", None),
    ];
    let series = vec![series_entry("ordered-series", "Ordered")];
    let cache = ContentCache::from_entries(posts, series);
    let s = cache.get_series("ordered-series").unwrap().unwrap();
    let slugs: Vec<&str> = s.posts.iter().map(|p| p.slug.as_str()).collect();
    assert_eq!(slugs, vec!["zebra", "middle", "apple", "unordered-a", "unordered-b"]);
    assert_eq!(s.title, "Ordered");
}

#[test]
fn series_listing_counts_members() {
    let posts = vec![member("part-one", "my-series", Some(1)), member("part-two", "my-series", Some(2))];
    let cache = ContentCache::from_entries(posts, vec![series_entry("my-series", "My Series")]);
    let result = cache.list_series(&ListOptions::default()).unwrap();
    assert_eq!(result.total, 1);
    assert_eq!(result.items[0].post_count, 2);
    assert_eq!(result.items[0].title, "My Series");
}

#[test]
fn etag_is_quoted_sha256_hex() {
    let cache = ContentCache::from_entries(vec![post("post-1", "Post 1", Some(JAN_2020))], Vec::new());
    let etag = cache.etag();
    assert_eq!(etag.len(), 66);
    assert_eq!(etag, "\"fceb20dca556ea6c95746c4e6f7e0d493ab3ca263659a2361c1b8090631907af\"");
}

#[test]
fn etag_is_stable_and_changes_with_content() {
    let a = ContentCache::from_entries(vec![post("a", "A", None), post("b", "B", None)], Vec::new());
    let b = ContentCache::from_entries(vec![post("b", "B", None), post("a", "A", None)], Vec::new());
    assert_eq!(a.etag(), b.etag());
    let mut changed = post("a", "A", None);
    changed.content = "# Modified Content".to_string();
    let c = ContentCache::from_entries(vec![changed, post("b", "B", None)], Vec::new());
    assert_ne!(a.etag(), c.etag());
}

#[test]
fn test_validation_finds_empty_fields() {
    let mut bad = post("bad-post", "", None);
    bad.content = String::new();
    let cache = ContentCache::from_entries(vec![bad, post("valid", "Valid Post", Some(JAN_2020))], vec![series_entry("s", "")]);
    let errors = cache.validate();
    let found: Vec<(String, String)> = errors.into_iter().map(|e| (e.path, e.message)).collect();
    assert_eq!(found.len(), 3);
    assert!(found.contains(&("bad-post/config.toml".to_string(), "Title cannot be empty".to_string())));
    assert!(found.contains(&("bad-post/content.mdx".to_string(), "Content cannot be empty".to_string())));
    assert!(found.contains(&("s/series.toml".to_string(), "Title cannot be empty".to_string())));
}

#[test]
fn listing_at_fixed_time() {
    let cache = ContentCache::from_entries(
        vec![post("now", "Now", Some(JAN_2020)), post("future", "Future", Some(JAN_2099))],
        Vec::new(),
    );
    let now = Timestamp::from_secs(JAN_2020 + 10);
    let r = cache.list_posts_at(&ListOptions::default(), &now);
    assert_eq!(r.items.len(), 1);
    assert_eq!(r.items[0].slug, "now");
    let r = cache.list_posts_at(&ListOptions { include_scheduled: true, ..Default::default() }, &now);
    assert_eq!(r.total, 2);
    assert_eq!(r.items[0].slug, "future");
}

#[test]
fn test_load_single_post() {
    let mut p = post("my-post", "My Title", None);
    p.preview_text = "Preview text".to_string();
    p.content = "# Hello World".to_string();
    let cache = ContentCache::from_entries(vec![p], Vec::new());
    assert_eq!(cache.post_count(), 1);
    let post = cache.get_post("my-post").unwrap().unwrap();
    assert_eq!(post.slug, "my-post");
    assert_eq!(post.title, "My Title");
    assert_eq!(post.preview_text, "Preview text");
    assert_eq!(post.content, "# Hello World");
    assert!(post.series_slug.is_none());
}

#[test]
fn test_load_series_with_posts() {
    let mut one = member("part-one", "my-series", Some(1));
    one.title = "Part One".to_string();
    let mut two = member("part-two", "my-series", Some(2));
    two.title = "Part Two".to_string();
    let mut entry = series_entry("my-series", "My Series");
    entry.config.description = Some("A test series".to_string());
    entry.config.goes_live_at = None;
    let cache = ContentCache::from_entries(vec![two, one], vec![entry]);
    assert_eq!(cache.series_count(), 1);
    assert_eq!(cache.post_count(), 2);
    let series = cache.get_series("my-series").unwrap().unwrap();
    assert_eq!(series.title, "My Series");
    assert_eq!(series.posts.len(), 2);
    assert_eq!(series.posts[0].slug, "part-one");
    assert_eq!(series.posts[1].slug, "part-two");
    let post = cache.get_post("part-one").unwrap().unwrap();
    assert_eq!(post.series_slug, Some("my-series".to_string()));
}

#[test]
fn test_series_ordering() {
    let posts = vec![
        member("zebra", "ordered-series", Some(1)),
        member("apple", "ordered-series", Some(3)),
        member("middle", "ordered-series", Some(2)),
    ];
    let cache = ContentCache::from_entries(posts, vec![series_entry("ordered-series", "Ordered")]);
    let series = cache.get_series("ordered-series").unwrap().unwrap();
    assert_eq!(series.posts[0].slug, "zebra");
    assert_eq!(series.posts[1].slug, "middle");
    assert_eq!(series.posts[2].slug, "apple");
}

#[test]
fn test_etag_changes_with_content() {
    let mut v1 = post("my-post", "Title", None);
    v1.content = "Content v1".to_string();
    let mut v2 = post("my-post", "Title", None);
    v2.content = "Content v2".to_string();
    let a = ContentCache::from_entries(vec![v1], Vec::new());
    let b = ContentCache::from_entries(vec![v2], Vec::new());
    assert_ne!(a.etag(), b.etag());
}

#[test]
fn test_validation_empty_title() {
    let cache = ContentCache::from_entries(vec![post("bad-post", "", None)], Vec::new());
    let errors = cache.validate();
    assert!(!errors.is_empty());
    assert!(errors.iter().any(|e| e.message.contains("Title")));
}

#[test]
fn test_validation_empty_content() {
    let mut p = post("empty-content", "Title", None);
    p.content = String::new();
    let cache = ContentCache::from_entries(vec![p], Vec::new());
    let errors = cache.validate();
    assert!(!errors.is_empty());
    assert!(errors.iter().any(|e| e.message.contains("Content")));
}

#[test]
fn reload_of_unchanged_content_keeps_etag() {
    let load = || {
        ContentCache::from_entries(
            vec![post("post-1", "Post 1", Some(JAN_2020)), member("m", "s", Some(1))],
            vec![series_entry("s", "S")],
        )
    };
    assert_eq!(load().etag(), load().etag());
}

#[test]
fn series_members_are_exactly_the_posts_of_the_series() {
    let mut other = member("elsewhere", "other-series", Some(0));
    other.title = "Other".to_string();
    let posts = vec![
        member("b-part", "my-series", None),
        member("a-part", "my-series", None),
        other,
        post("standalone", "Standalone", Some(JAN_2020)),
    ];
    let cache = ContentCache::from_entries(posts, vec![series_entry("my-series", "My Series")]);
    let s = cache.get_series("my-series").unwrap().unwrap();
    let slugs: Vec<&str> = s.posts.iter().map(|p| p.slug.as_str()).collect();
    assert_eq!(slugs, vec!["a-part", "b-part"]);
}
