use ghgrab::github::{
    lfs_batch_url, lfs_probe_url, record_lfs_download, record_lfs_pointer, response_outcome,
    tree_api_url, GitHubError, GitHubUrl, LfsPointer, RepoItem, UrlError,
};

// --- GitHubUrl parsing ---

#[test]
fn test_parse_github_url() {
    let url = "https://github.com/rust-lang/rust/tree/master/src/tools";
    let parsed = GitHubUrl::parse(url).unwrap();
    assert_eq!(parsed.owner, "rust-lang");
    assert_eq!(parsed.repo, "rust");
    assert_eq!(parsed.branch, "master");
    assert_eq!(parsed.path, "src/tools");
}

#[test]
fn test_parse_root_url() {
    let url = "https://github.com/rust-lang/rust";
    let parsed = GitHubUrl::parse(url).unwrap();
    assert_eq!(parsed.owner, "rust-lang");
    assert_eq!(parsed.repo, "rust");
    assert_eq!(parsed.branch, "main");
    assert_eq!(parsed.path, "");
}

#[test]
fn test_parse_blob_url() {
    let url = "https://github.com/owner/repo/blob/main/src/lib.rs";
    let parsed = GitHubUrl::parse(url).unwrap();
    assert_eq!(parsed.owner, "owner");
    assert_eq!(parsed.repo, "repo");
    assert_eq!(parsed.branch, "main");
    assert_eq!(parsed.path, "src/lib.rs");
}

#[test]
fn test_parse_branch_only_url() {
    let url = "https://github.com/owner/repo/tree/develop";
    let parsed = GitHubUrl::parse(url).unwrap();
    assert_eq!(parsed.owner, "owner");
    assert_eq!(parsed.repo, "repo");
    assert_eq!(parsed.branch, "develop");
    assert_eq!(parsed.path, "");
}

#[test]
fn test_parse_deep_path() {
    let url = "https://github.com/org/project/tree/v2.0/src/core/engine";
    let parsed = GitHubUrl::parse(url).unwrap();
    assert_eq!(parsed.owner, "org");
    assert_eq!(parsed.repo, "project");
    assert_eq!(parsed.branch, "v2.0");
    assert_eq!(parsed.path, "src/core/engine");
}

#[test]
fn test_parse_invalid_non_github_url() {
    let url = "https://gitlab.com/user/repo";
    assert!(GitHubUrl::parse(url).is_err());
}

#[test]
fn test_parse_invalid_not_a_url() {
    assert!(GitHubUrl::parse("not a url").is_err());
}

#[test]
fn test_parse_invalid_no_repo() {
    let url = "https://github.com/owner";
    assert!(GitHubUrl::parse(url).is_err());
}

#[test]
fn parse_errors_say_why() {
    assert_eq!(GitHubUrl::parse("not a url").unwrap_err(), UrlError::InvalidFormat);
    assert_eq!(GitHubUrl::parse("https://gitlab.com/user/repo").unwrap_err(), UrlError::NotGitHub);
    assert_eq!(
        GitHubUrl::parse("https://github.com/owner").unwrap_err(),
        UrlError::MissingOwnerOrRepo
    );
    assert_eq!(UrlError::InvalidFormat.message(), "Invalid URL format");
    assert_eq!(UrlError::NotGitHub.message(), "Not a GitHub URL");
    assert_eq!(UrlError::MissingOwnerOrRepo.message(), "URL must contain owner and repository");
    assert_eq!(UrlError::InvalidPath.message(), "Invalid URL path");
}

#[test]
fn parse_tree_url_without_branch_uses_main() {
    let parsed = GitHubUrl::parse("https://github.com/owner/repo/tree").unwrap();
    assert_eq!(parsed.branch, "main");
    assert_eq!(parsed.path, "");
    let parsed = GitHubUrl::parse("https://github.com/owner/repo/issues/3").unwrap();
    assert_eq!(parsed.branch, "main");
    assert_eq!(parsed.path, "");
}

#[test]
fn parse_from_parts_without_calling_the_parser() {
    let parts = Some((Some("github.com".to_string()), "/a/b/blob/dev/x/y".to_string()));
    let parsed = GitHubUrl::from_url_parts(parts).unwrap();
    assert_eq!(parsed.owner, "a");
    assert_eq!(parsed.repo, "b");
    assert_eq!(parsed.branch, "dev");
    assert_eq!(parsed.path, "x/y");
    assert_eq!(GitHubUrl::from_url_parts(None).unwrap_err(), UrlError::InvalidFormat);
    assert_eq!(
        GitHubUrl::from_url_parts(Some((None, "/a/b".to_string()))).unwrap_err(),
        UrlError::NotGitHub
    );
    assert_eq!(
        GitHubUrl::from_url_parts(Some((Some("github.com".to_string()), "a/b".to_string())))
            .unwrap_err(),
        UrlError::InvalidPath
    );
}

// --- api_url ---

#[test]
fn test_api_url_with_path() {
    let gh = GitHubUrl {
        owner: "owner".into(),
        repo: "repo".into(),
        branch: "main".into(),
        path: "src/lib.rs".into(),
    };
    assert_eq!(
        gh.api_url(),
        "https://api.github.com/repos/owner/repo/contents/src/lib.rs?ref=main"
    );
}

#[test]
fn test_api_url_without_path() {
    let gh = GitHubUrl {
        owner: "owner".into(),
        repo: "repo".into(),
        branch: "main".into(),
        path: String::new(),
    };
    assert_eq!(
        gh.api_url(),
        "https://api.github.com/repos/owner/repo/contents?ref=main"
    );
}

#[test]
fn builds_tree_and_lfs_urls() {
    assert_eq!(
        tree_api_url("o", "r", "main"),
        "https://api.github.com/repos/o/r/git/trees/main?recursive=1"
    );
    assert_eq!(lfs_batch_url("o", "r"), "https://github.com/o/r.git/info/lfs/objects/batch");
}

// --- LfsPointer ---

#[test]
fn test_lfs_pointer_parse_valid() {
    let content =
        "version https://git-lfs.github.com/spec/v1\noid sha256:abc123def456\nsize 12345";
    let pointer = LfsPointer::parse(content).unwrap();
    assert_eq!(pointer.oid, "abc123def456");
    assert_eq!(pointer.size, 12345);
}

#[test]
fn test_lfs_pointer_parse_not_lfs() {
    let content = "This is just a regular file content";
    assert!(LfsPointer::parse(content).is_none());
}

#[test]
fn test_lfs_pointer_parse_missing_oid() {
    let content = "version https://git-lfs.github.com/spec/v1\nsize 12345";
    assert!(LfsPointer::parse(content).is_none());
}

#[test]
fn test_lfs_pointer_parse_missing_size() {
    let content = "version https://git-lfs.github.com/spec/v1\noid sha256:abc123";
    assert!(LfsPointer::parse(content).is_none());
}

#[test]
fn lfs_pointer_with_windows_line_ends() {
    let content = "version https://git-lfs.github.com/spec/v1\r\noid sha256:ff\r\nsize 7\r\n";
    let pointer = LfsPointer::parse(content).unwrap();
    assert_eq!(pointer.oid, "ff");
    assert_eq!(pointer.size, 7);
}

#[test]
fn lfs_pointer_with_bad_size_is_rejected() {
    let content = "version https://git-lfs.github.com/spec/v1\noid sha256:ff\nsize 12x";
    assert!(LfsPointer::parse(content).is_none());
}

// --- RepoItem ---

fn make_test_item(item_type: &str) -> RepoItem {
    RepoItem {
        name: "test.rs".to_string(),
        item_type: item_type.to_string(),
        path: "src/test.rs".to_string(),
        download_url: Some("https://example.com/test.rs".to_string()),
        url: "https://api.github.com/repos/o/r/contents/src/test.rs".to_string(),
        size: Some(1024),
        selected: false,
        lfs_oid: None,
        lfs_size: None,
        lfs_download_url: None,
    }
}

#[test]
fn test_repo_item_is_dir() {
    let item = make_test_item("dir");
    assert!(item.is_dir());
    assert!(!item.is_file());
}

#[test]
fn test_repo_item_is_file() {
    let item = make_test_item("file");
    assert!(item.is_file());
    assert!(!item.is_dir());
}

#[test]
fn test_repo_item_not_lfs() {
    let item = make_test_item("file");
    assert!(!item.is_lfs());
    assert_eq!(item.actual_size(), Some(1024));
    assert_eq!(
        item.actual_download_url().map(|s| s.as_str()),
        Some("https://example.com/test.rs")
    );
}

#[test]
fn test_repo_item_lfs() {
    let mut item = make_test_item("file");
    item.lfs_oid = Some("abc123".to_string());
    item.lfs_size = Some(999999);
    item.lfs_download_url = Some("https://lfs.example.com/abc123".to_string());

    assert!(item.is_lfs());
    assert_eq!(
        item.actual_download_url().map(|s| s.as_str()),
        Some("https://lfs.example.com/abc123")
    );
    assert_eq!(item.actual_size(), Some(999999));
}

#[test]
fn probes_small_files_for_lfs_pointers() {
    let mut item = make_test_item("file");
    assert_eq!(lfs_probe_url(&item), None);
    item.size = Some(120);
    assert_eq!(lfs_probe_url(&item).as_deref(), Some("https://example.com/test.rs"));
    let mut folder = make_test_item("dir");
    folder.size = Some(10);
    assert_eq!(lfs_probe_url(&folder), None);
}

#[test]
fn records_lfs_pointer_and_download() {
    let mut item = make_test_item("file");
    let pointer = LfsPointer::parse(
        "version https://git-lfs.github.com/spec/v1\noid sha256:abc\nsize 5000",
    )
    .unwrap();
    record_lfs_pointer(&mut item, &pointer);
    assert_eq!(item.lfs_oid.as_deref(), Some("abc"));
    assert_eq!(item.actual_size(), Some(5000));
    record_lfs_download(&mut item, None, "o", "r", "main");
    assert_eq!(
        item.lfs_download_url.as_deref(),
        Some("https://media.githubusercontent.com/media/o/r/main/src/test.rs")
    );
    record_lfs_download(&mut item, Some("https://batch/abc".to_string()), "o", "r", "main");
    assert_eq!(item.actual_download_url().map(|s| s.as_str()), Some("https://batch/abc"));
}

// --- Errors ---

#[test]
fn test_github_error_formatting() {
    assert_eq!(
        GitHubError::InvalidToken.message(),
        "Invalid token. Falling back to public API."
    );
    assert_eq!(
        GitHubError::RateLimitReached("unauthenticated".to_string()).message(),
        "Rate limit exceeded for unauthenticated. Consider adding a token for more limits."
    );
    assert_eq!(
        GitHubError::NotFound("src/missing.rs".to_string()).message(),
        "Resource not found: src/missing.rs"
    );
}

#[test]
fn formats_api_and_other_errors() {
    assert_eq!(GitHubError::ApiError("HTTP 500".to_string()).message(), "API Error: HTTP 500");
    assert_eq!(GitHubError::Other("boom".to_string()).message(), "boom");
}

#[test]
fn response_statuses_map_to_errors() {
    assert!(response_outcome(200, "200 OK", false, None, "u").is_ok());
    assert!(response_outcome(204, "204 No Content", true, None, "u").is_ok());
    assert!(matches!(
        response_outcome(401, "401 Unauthorized", true, None, "u"),
        Err(GitHubError::InvalidToken)
    ));
    assert!(matches!(
        response_outcome(401, "401 Unauthorized", false, None, "u"),
        Err(GitHubError::ApiError(m)) if m == "HTTP 401 Unauthorized"
    ));
    assert!(matches!(
        response_outcome(403, "403 Forbidden", false, Some("0"), "u"),
        Err(GitHubError::RateLimitReached(m)) if m == "unauthenticated user"
    ));
    assert!(matches!(
        response_outcome(403, "403 Forbidden", true, Some("0"), "u"),
        Err(GitHubError::RateLimitReached(m)) if m == "authenticated user"
    ));
    assert!(matches!(
        response_outcome(403, "403 Forbidden", true, Some("12"), "u"),
        Err(GitHubError::InvalidToken)
    ));
    assert!(matches!(
        response_outcome(403, "403 Forbidden", false, None, "u"),
        Err(GitHubError::ApiError(m)) if m == "Forbidden: 403 Forbidden"
    ));
    assert!(matches!(
        response_outcome(404, "404 Not Found", false, None, "https://x/y"),
        Err(GitHubError::NotFound(m)) if m == "https://x/y"
    ));
}

#[test]
fn remote_urls_become_repository_urls() {
    assert_eq!(
        GitHubUrl::remote_url_from_output("git@github.com:owner/repo.git\n").as_deref(),
        Some("https://github.com/owner/repo")
    );
    assert_eq!(
        GitHubUrl::remote_url_from_output("  https://github.com/owner/repo.git  ").as_deref(),
        Some("https://github.com/owner/repo")
    );
    assert_eq!(
        GitHubUrl::remote_url_from_output("https://gitlab.com/x/y.git").as_deref(),
        Some("https://gitlab.com/x/y.git")
    );
    assert_eq!(GitHubUrl::remote_url_from_output("  \n"), None);
}
