use ghgrab::agent::{
    classify_error, classify_message, contents_api_url, dedup_items_by_path, default_branch_retry,
    download_response,
    fallback_failure, files_under_exec, filter_under_path, finish_selection, map_tree_to_items,
    mark_for_download,
    normalize_requested_path, plan_fallback_requests, resolve_requested_items, sort_items_by_path,
    tree_response, AgentEnvelope, AgentError, FallbackRequest, ResolveError, AGENT_API_VERSION,
};
use ghgrab::github::{GitHubError, GitHubUrl, GitTreeEntry, GitTreeResponse, RepoItem};

fn file(path: &str) -> RepoItem {
    RepoItem {
        name: path.rsplit('/').next().unwrap_or(path).to_string(),
        item_type: "file".to_string(),
        path: path.to_string(),
        download_url: Some(format!("https://example.com/{}", path)),
        url: format!("https://example.com/api/{}", path),
        size: Some(10),
        selected: false,
        lfs_oid: None,
        lfs_size: None,
        lfs_download_url: None,
    }
}

fn dir(path: &str) -> RepoItem {
    RepoItem {
        name: path.rsplit('/').next().unwrap_or(path).to_string(),
        item_type: "dir".to_string(),
        path: path.to_string(),
        download_url: None,
        url: format!("https://example.com/api/{}", path),
        size: None,
        selected: false,
        lfs_oid: None,
        lfs_size: None,
        lfs_download_url: None,
    }
}

fn location() -> GitHubUrl {
    GitHubUrl {
        owner: "o".to_string(),
        repo: "r".to_string(),
        branch: "main".to_string(),
        path: "src".to_string(),
    }
}

#[test]
fn resolves_single_file_selection() {
    let items = vec![file("src/main.rs"), file("README.md")];
    let selected = resolve_requested_items(&items, &[String::from("src/main.rs")]).unwrap();
    assert_eq!(selected.len(), 1);
    assert_eq!(selected[0].path, "src/main.rs");
}

#[test]
fn resolves_directory_selection_to_nested_files() {
    let items = vec![
        dir("src"),
        file("src/main.rs"),
        file("src/lib.rs"),
        file("README.md"),
    ];

    let selected = resolve_requested_items(&items, &[String::from("src")]).unwrap();
    let paths: Vec<String> = selected.into_iter().map(|item| item.path).collect();
    assert_eq!(paths, vec!["src/lib.rs", "src/main.rs"]);
}

#[test]
fn rejects_missing_selection() {
    let items = vec![file("src/main.rs")];
    let error = resolve_requested_items(&items, &[String::from("docs")]).unwrap_err();
    assert!(error.message().contains("was not found"));
}

#[test]
fn normalizes_windows_style_paths() {
    assert_eq!(normalize_requested_path("\\src\\main.rs\\"), "src/main.rs");
}

#[test]
fn builds_contents_api_url_for_root() {
    assert_eq!(
        contents_api_url("o", "r", "main", ""),
        "https://api.github.com/repos/o/r/contents?ref=main"
    );
}

#[test]
fn builds_contents_api_url_for_nested_path() {
    assert_eq!(
        contents_api_url("o", "r", "main", "\\src\\tools\\"),
        "https://api.github.com/repos/o/r/contents/src/tools?ref=main"
    );
}

#[test]
fn wraps_success_response() {
    let envelope = AgentEnvelope::success("tree", 123usize);
    assert!(envelope.ok);
    assert_eq!(envelope.api_version, AGENT_API_VERSION);
    assert_eq!(envelope.command, "tree");
    assert_eq!(envelope.data, Some(123));
    assert!(envelope.error.is_none());
}

#[test]
fn classifies_invalid_url_errors() {
    let error = AgentError::Message("Invalid URL format".to_string());
    assert_eq!(classify_error(&error), "invalid_url");
}

#[test]
fn wraps_error_response() {
    let envelope: AgentEnvelope<usize> = AgentEnvelope::error("download", "not_found", "missing");
    assert!(!envelope.ok);
    assert_eq!(envelope.api_version, "1");
    assert_eq!(envelope.command, "download");
    assert!(envelope.data.is_none());
    let error = envelope.error.unwrap();
    assert_eq!(error.code, "not_found");
    assert_eq!(error.message, "missing");
}

#[test]
fn classifies_github_errors_by_kind() {
    let cases = vec![
        (GitHubError::InvalidToken, "invalid_token"),
        (GitHubError::RateLimitReached("u".to_string()), "rate_limit"),
        (GitHubError::NotFound("p".to_string()), "not_found"),
        (GitHubError::ApiError("500".to_string()), "github_api_error"),
        (GitHubError::Other("x".to_string()), "internal_error"),
    ];
    for (e, code) in cases {
        assert_eq!(classify_error(&AgentError::GitHub(e)), code);
    }
}

#[test]
fn classifies_messages_by_content() {
    assert_eq!(classify_error(&AgentError::Message("Not a GitHub URL".to_string())), "invalid_url");
    assert_eq!(
        classify_error(&AgentError::Message("--repo cannot be combined with paths".to_string())),
        "invalid_arguments"
    );
    assert_eq!(
        classify_error(&AgentError::Message("Path 'x' was not found".to_string())),
        "not_found"
    );
    assert_eq!(
        classify_error(&AgentError::Message("Could not find User Downloads directory".to_string())),
        "output_path_error"
    );
    assert_eq!(classify_error(&AgentError::Message("boom".to_string())), "internal_error");
    assert_eq!(classify_message("resource not found"), "not_found");
}

#[test]
fn empty_selection_resolves_to_every_file() {
    let items = vec![dir("src"), file("src/b.rs"), file("a.rs")];
    let selected = resolve_requested_items(&items, &[]).unwrap();
    let paths: Vec<String> = selected.into_iter().map(|item| item.path).collect();
    assert_eq!(paths, vec!["src/b.rs", "a.rs"]);
}

#[test]
fn empty_directory_selection_is_rejected() {
    let items = vec![dir("docs"), file("src/main.rs")];
    let error = resolve_requested_items(&items, &[String::from("docs")]).unwrap_err();
    assert!(matches!(error, ResolveError::NoFilesUnder(_)));
    assert_eq!(error.message(), "No downloadable files found under 'docs'");
}

#[test]
fn missing_path_message_names_the_path() {
    let items = vec![file("src/main.rs")];
    let error = resolve_requested_items(&items, &[String::from("docs")]).unwrap_err();
    assert_eq!(error.message(), "Path 'docs' was not found in the repository tree");
}

#[test]
fn overlapping_selections_are_sorted_and_listed_once() {
    let items = vec![dir("src"), file("src/main.rs"), file("src/lib.rs"), file("README.md")];
    let selected = resolve_requested_items(
        &items,
        &[String::from("src/main.rs"), String::from("/src/"), String::from("README.md")],
    )
    .unwrap();
    let paths: Vec<String> = selected.iter().map(|item| item.path.clone()).collect();
    assert_eq!(paths, vec!["README.md", "src/lib.rs", "src/main.rs"]);
}

#[test]
fn nested_directory_files_keep_their_relative_names() {
    let items = vec![dir("a"), dir("a/b"), file("a/b/c.rs"), file("a/b/d/e.rs")];
    let selected = resolve_requested_items(&items, &[String::from("a/b")]).unwrap();
    let names: Vec<String> = selected.iter().map(|item| item.name.clone()).collect();
    assert_eq!(names, vec!["b/c.rs", "b/d/e.rs"]);
}

#[test]
fn maps_tree_entries_to_items() {
    let tree = GitTreeResponse {
        tree: vec![
            GitTreeEntry {
                path: "src".to_string(),
                mode: "040000".to_string(),
                entry_type: "tree".to_string(),
                size: None,
                sha: "s1".to_string(),
                url: "u1".to_string(),
            },
            GitTreeEntry {
                path: "src/main.rs".to_string(),
                mode: "100644".to_string(),
                entry_type: "blob".to_string(),
                size: Some(42),
                sha: "s2".to_string(),
                url: "u2".to_string(),
            },
        ],
        truncated: false,
    };
    let items = map_tree_to_items(tree, "o", "r", "main");
    assert_eq!(items.len(), 2);
    assert_eq!(items[0].name, "src");
    assert_eq!(items[0].item_type, "dir");
    assert!(items[0].download_url.is_none());
    assert_eq!(items[0].url, "https://api.github.com/repos/o/r/contents/src?ref=main");
    assert_eq!(items[1].name, "main.rs");
    assert_eq!(items[1].item_type, "file");
    assert_eq!(
        items[1].download_url.as_deref(),
        Some("https://raw.githubusercontent.com/o/r/main/src/main.rs")
    );
    assert_eq!(items[1].size, Some(42));
    assert!(!items[1].selected);
}

#[test]
fn sorts_and_dedups_by_path() {
    let items = vec![file("b"), file("a"), file("b"), file("a")];
    let sorted = sort_items_by_path(items);
    let paths: Vec<&str> = sorted.iter().map(|i| i.path.as_str()).collect();
    assert_eq!(paths, vec!["a", "a", "b", "b"]);
    let unique = dedup_items_by_path(&sorted);
    let paths: Vec<&str> = unique.iter().map(|i| i.path.as_str()).collect();
    assert_eq!(paths, vec!["a", "b"]);
    let finished = finish_selection(vec![file("z"), file("y"), file("z")]);
    let paths: Vec<&str> = finished.iter().map(|i| i.path.as_str()).collect();
    assert_eq!(paths, vec!["y", "z"]);
}

#[test]
fn lists_files_under_a_prefix() {
    let items = vec![dir("src"), file("src/a.rs"), file("srcx/b.rs"), file("src/c/d.rs")];
    let prefix: Vec<char> = "src/".chars().collect();
    let found = files_under_exec(&items, &prefix, 4);
    let names: Vec<&str> = found.iter().map(|i| i.name.as_str()).collect();
    assert_eq!(names, vec!["a.rs", "c/d.rs"]);
}

#[test]
fn plans_fallback_requests() {
    let entries = vec![dir("src"), file("README.md")];
    let plan = plan_fallback_requests(
        &entries,
        &[String::from("README.md"), String::from("src/"), String::from("docs")],
    );
    assert_eq!(plan.len(), 3);
    assert!(matches!(&plan[0], FallbackRequest::Take(item) if item.path == "README.md"));
    assert!(matches!(&plan[1], FallbackRequest::FetchFolder(p) if p == "src"));
    assert!(matches!(&plan[2], FallbackRequest::FetchRequired(p) if p == "docs"));
    let failure = fallback_failure(&plan[2], &[]).unwrap();
    assert_eq!(failure.message(), "Path 'docs' was not found in the repository tree");
    assert!(fallback_failure(&plan[2], &[file("docs/a.md")]).is_none());
    assert!(fallback_failure(&plan[1], &[]).is_none());
}

#[test]
fn filters_items_under_a_path() {
    let items = vec![dir("src"), file("src/a.rs"), file("srcx"), file("README.md")];
    let kept = filter_under_path(&items, "src");
    let paths: Vec<&str> = kept.iter().map(|i| i.path.as_str()).collect();
    assert_eq!(paths, vec!["src", "src/a.rs"]);
    assert_eq!(filter_under_path(&items, "").len(), 4);
}

#[test]
fn builds_tree_and_download_responses() {
    let mut lfs = file("big.bin");
    lfs.lfs_oid = Some("oid".to_string());
    lfs.lfs_size = Some(99);
    lfs.lfs_download_url = Some("https://lfs/big".to_string());
    let items = vec![dir("src"), lfs];
    let tree = tree_response(location(), &items, true);
    assert_eq!(tree.owner, "o");
    assert_eq!(tree.path, "src");
    assert!(tree.truncated);
    assert_eq!(tree.entries.len(), 2);
    assert_eq!(tree.entries[0].kind, "dir");
    assert!(!tree.entries[0].is_lfs);
    assert_eq!(tree.entries[1].size, Some(99));
    assert_eq!(tree.entries[1].download_url.as_deref(), Some("https://lfs/big"));
    assert!(tree.entries[1].is_lfs);

    let response = download_response(location(), "/tmp/out".to_string(), &items, vec!["e".to_string()]);
    assert_eq!(response.output_dir, "/tmp/out");
    assert_eq!(response.downloaded_paths, vec!["src", "big.bin"]);
    assert_eq!(response.errors, vec!["e"]);
}

#[test]
fn agent_errors_describe_themselves() {
    assert_eq!(
        AgentError::GitHub(GitHubError::NotFound("x".to_string())).message(),
        "Resource not found: x"
    );
    assert_eq!(AgentError::Message("boom".to_string()).message(), "boom");
}

#[test]
fn retries_on_the_default_branch() {
    let not_found = GitHubError::NotFound("t".to_string());
    assert_eq!(default_branch_retry(&not_found, "main", "trunk").as_deref(), Some("trunk"));
    assert_eq!(default_branch_retry(&not_found, "main", "main"), None);
    assert_eq!(default_branch_retry(&not_found, "dev", "trunk"), None);
    assert_eq!(default_branch_retry(&GitHubError::InvalidToken, "main", "trunk"), None);
}

#[test]
fn normalizing_twice_changes_nothing_more() {
    for p in ["\\\\a\\b//", "/x/", "", "a/b", "\\"] {
        let once = normalize_requested_path(p);
        assert_eq!(normalize_requested_path(&once), once);
    }
    assert_eq!(normalize_requested_path("//a\\b//"), "a/b");
}

#[test]
fn request_order_and_spelling_do_not_matter() {
    let items = vec![dir("src"), file("src/main.rs"), file("src/lib.rs"), file("README.md")];
    let a = resolve_requested_items(&items, &[String::from("README.md"), String::from("src")]).unwrap();
    let b = resolve_requested_items(&items, &[String::from("\\src\\"), String::from("/README.md")]).unwrap();
    let pa: Vec<&str> = a.iter().map(|i| i.path.as_str()).collect();
    let pb: Vec<&str> = b.iter().map(|i| i.path.as_str()).collect();
    assert_eq!(pa, pb);
    assert!(resolve_requested_items(&items, &[String::from("docs"), String::from("src")]).is_err());
    assert!(resolve_requested_items(&items, &[String::from("src"), String::from("docs")]).is_err());
}

#[test]
fn downloads_mark_every_item() {
    let marked = mark_for_download(vec![file("a"), file("b")]);
    assert!(marked.iter().all(|i| i.selected));
    assert_eq!(marked[1].path, "b");
}
