use riley_cms::error::Error;
use riley_cms::git::{
    cgi_env, git_error_status, is_valid_git_path, is_write_operation, path_info,
    should_reload_after, u64_to_decimal, GitBackend,
};

#[test]
fn git_paths_with_traversal_or_odd_characters_are_rejected() {
    assert!(!is_valid_git_path("../../etc/passwd"));
    assert!(!is_valid_git_path(";rm%20-rf%20/"));
    assert!(!is_valid_git_path("repo/a..b"));
    assert!(!is_valid_git_path("caf\u{e9}"));
    assert!(is_valid_git_path("info/refs"));
    assert!(is_valid_git_path("git-upload-pack"));
    assert!(is_valid_git_path("a/b.c_d-e=f?g&h+i"));
    assert!(is_valid_git_path(""));
}

#[test]
fn push_is_recognised_by_service_name() {
    assert!(is_write_operation("git-receive-pack"));
    assert!(is_write_operation("repo/git-receive-pack"));
    assert!(!is_write_operation("git-upload-pack"));
    assert!(!is_write_operation("info/refs"));
}

#[test]
fn path_info_gets_a_leading_slash() {
    assert_eq!(path_info("info/refs"), "/info/refs");
    assert_eq!(path_info(""), "/");
}

#[test]
fn cgi_environment_holds_exactly_the_cgi_variables() {
    let env = cgi_env("/srv/repo", "POST", "/git-receive-pack", Some("service=x"), Some("application/x-git"), Some(1234));
    let expected: Vec<(String, String)> = vec![
        ("GIT_PROJECT_ROOT".into(), "/srv/repo".into()),
        ("GIT_HTTP_EXPORT_ALL".into(), "1".into()),
        ("PATH_INFO".into(), "/git-receive-pack".into()),
        ("REQUEST_METHOD".into(), "POST".into()),
        ("QUERY_STRING".into(), "service=x".into()),
        ("CONTENT_TYPE".into(), "application/x-git".into()),
        ("CONTENT_LENGTH".into(), "1234".into()),
    ];
    assert_eq!(env, expected);
    let env = cgi_env("/srv/repo", "GET", "/info/refs", None, None, None);
    assert_eq!(env.len(), 4);
}

#[test]
fn reload_only_after_clean_successful_push() {
    assert!(should_reload_after(true, 200, true));
    assert!(!should_reload_after(false, 200, true));
    assert!(!should_reload_after(true, 500, true));
    assert!(!should_reload_after(true, 200, false));
}

#[test]
fn body_too_large_maps_to_413() {
    assert_eq!(git_error_status(&Error::BodyTooLarge { received: 5, max: 4 }), 413);
    assert_eq!(git_error_status(&Error::GitTimeout), 500);
    assert_eq!(git_error_status(&Error::CgiHeadersTooLarge { max: 16384 }), 500);
}

#[test]
fn configured_backend_is_used_first() {
    let b = GitBackend::with_backend_path("/srv/repo", Some("/opt/git-http-backend".to_string()));
    assert_eq!(b.locate_backend(None).unwrap(), "/opt/git-http-backend");
    assert_eq!(b.repo_path(), "/srv/repo");
}

#[test]
fn repo_markers_are_dot_git_and_head() {
    let b = GitBackend::new("/srv/repo");
    let (a, h) = b.repo_markers();
    assert_eq!(a, "/srv/repo/.git");
    assert_eq!(h, "/srv/repo/HEAD");
    let b = GitBackend::new("/srv/repo/");
    assert_eq!(b.repo_markers().1, "/srv/repo/HEAD");
}

#[test]
fn missing_repository_is_not_valid() {
    let b = GitBackend::new("/nonexistent/riley/repository/path");
    assert!(!b.is_valid_repo());
}

#[test]
fn decimal_formatting_matches_display() {
    for n in [0u64, 7, 10, 99, 100, 104_857_600, u64::MAX] {
        assert_eq!(u64_to_decimal(n), n.to_string());
    }
}

#[test]
fn backend_search_without_configuration_only_yields_known_places() {
    let b = GitBackend::new("/srv/repo");
    match b.locate_backend(Some("/nonexistent/exec/dir")) {
        Ok(p) => assert!(p.ends_with("git-http-backend") && p.contains("git-core")),
        Err(e) => assert!(matches!(e, Error::Git(_))),
    }
}
