use ghgrab::agent::AgentError;
use ghgrab::github::{GitHubError, GitHubUrl, RepoItem, UrlError};
use ghgrab::ui::browse::{folder_children, is_media_file, is_video_file};
use ghgrab::ui::events::{decimal_string, retry_branch};
use ghgrab::ui::folders::calculate_folder_sizes;
use ghgrab::ui::keys::{KeyAction, KeyCode, KeyInput};
use ghgrab::ui::search::SearchItem;
use ghgrab::ui::toast::{Toast, ToastType};
use ghgrab::ui::{AppMode, AppState, IconMode, RepoSearchSort};

fn key(code: KeyCode) -> KeyInput {
    KeyInput { code, ctrl: false, alt: false, super_key: false }
}

fn ch(c: char) -> KeyInput {
    key(KeyCode::Char(c))
}

fn ctrl(c: char) -> KeyInput {
    KeyInput { code: KeyCode::Char(c), ctrl: true, alt: false, super_key: false }
}

fn item(path: &str, kind: &str, size: Option<u64>) -> RepoItem {
    RepoItem {
        name: path.rsplit('/').next().unwrap_or(path).to_string(),
        item_type: kind.to_string(),
        path: path.to_string(),
        download_url: if kind == "file" {
            Some(format!("https://raw.example.com/{}", path))
        } else {
            None
        },
        url: format!("https://api.example.com/{}", path),
        size,
        selected: false,
        lfs_oid: None,
        lfs_size: None,
        lfs_download_url: None,
    }
}

fn location(path: &str) -> GitHubUrl {
    GitHubUrl {
        owner: "o".to_string(),
        repo: "r".to_string(),
        branch: "main".to_string(),
        path: path.to_string(),
    }
}

fn tree() -> Vec<RepoItem> {
    vec![
        item("src", "dir", None),
        item("src/main.rs", "file", Some(100)),
        item("src/ui", "dir", None),
        item("src/ui/mod.rs", "file", Some(50)),
        item("README.md", "file", Some(7)),
    ]
}

fn browsing() -> AppState {
    let mut s = AppState::new();
    let t = tree();
    let top = folder_children(&t, "");
    s.mode = AppMode::Browse;
    s.items = top;
    s.current_url = Some(location(""));
    s.full_tree = Some(t);
    s
}

fn result(name: &str, stars: u32, fork: bool, language: Option<&str>, pushed: &str) -> SearchItem {
    SearchItem {
        full_name: name.to_string(),
        html_url: format!("https://github.com/{}", name),
        description: None,
        language: language.map(|l| l.to_string()),
        stargazers_count: stars,
        fork,
        pushed_at: pushed.to_string(),
    }
}

fn toast_message(s: &AppState) -> String {
    s.toast.as_ref().map(|t| t.message.clone()).unwrap_or_default()
}

// --- The home screen ---

#[test]
fn starts_on_the_home_screen() {
    let s = AppState::new();
    assert_eq!(s.mode, AppMode::Input);
    assert_eq!(s.icon_mode, IconMode::Emoji);
    assert!(s.url_input.is_empty());
    assert_eq!(s.search_filters.sort, RepoSearchSort::Stars);
    assert_eq!(s.search_filters.min_stars, 0);
    assert!(!s.search_filters.include_forks);
}

#[test]
fn typing_edits_the_input_at_the_cursor() {
    let mut s = AppState::new();
    for c in "abd".chars() {
        s.handle_key(ch(c));
    }
    s.handle_key(key(KeyCode::Left));
    s.handle_key(ch('c'));
    assert_eq!(s.url_input, "abcd");
    assert_eq!(s.url_cursor, 3);
    s.handle_key(key(KeyCode::Backspace));
    assert_eq!(s.url_input, "abd");
    let a = s.handle_key(key(KeyCode::Delete));
    assert!(matches!(a, KeyAction::StartSearch));
    assert_eq!(s.url_input, "ab");
    s.handle_key(ctrl('w'));
    assert_eq!(s.url_input, "");
    assert_eq!(s.url_cursor, 0);
}

#[test]
fn tab_fills_in_the_github_address() {
    let mut s = AppState::new();
    let a = s.handle_key(key(KeyCode::Tab));
    assert!(matches!(a, KeyAction::Nothing));
    assert_eq!(s.url_input, "https://github.com/");
    assert_eq!(s.url_cursor, 19);
    s.handle_key(ch('x'));
    s.handle_key(key(KeyCode::Tab));
    assert_eq!(s.url_input, "https://github.com/x");
}

#[test]
fn escape_clears_the_input_then_quits() {
    let mut s = AppState::new();
    s.handle_key(ch('a'));
    let a = s.handle_key(key(KeyCode::Esc));
    assert!(matches!(a, KeyAction::Nothing));
    assert_eq!(s.url_input, "");
    let a = s.handle_key(key(KeyCode::Esc));
    assert!(matches!(a, KeyAction::Quit));
}

#[test]
fn ctrl_q_quits_from_every_screen() {
    for mode in [AppMode::Input, AppMode::Searching, AppMode::RepositorySearch, AppMode::Browse, AppMode::Preview] {
        let mut s = browsing();
        s.mode = mode;
        assert!(matches!(s.handle_key(ctrl('q')), KeyAction::Quit));
        assert!(matches!(s.handle_key(ctrl('c')), KeyAction::Quit));
        assert_eq!(s.mode, mode);
    }
}

#[test]
fn enter_opens_a_url_or_searches_for_a_keyword() {
    let mut s = AppState::new();
    for c in "https://github.com/o/r".chars() {
        s.handle_key(ch(c));
    }
    let a = s.handle_key(key(KeyCode::Enter));
    assert!(matches!(a, KeyAction::OpenUrl(u) if u == "https://github.com/o/r"));
    assert_eq!(s.mode, AppMode::Searching);
    assert_eq!(s.status_message, "Parsing URL...");

    let mut s = AppState::new();
    for c in "ratatui".chars() {
        s.handle_key(ch(c));
    }
    let a = s.handle_key(key(KeyCode::Enter));
    assert!(matches!(a, KeyAction::StartSearch));
    assert_eq!(s.mode, AppMode::RepositorySearch);
}

#[test]
fn escape_while_loading_goes_home() {
    let mut s = AppState::new();
    s.mode = AppMode::Searching;
    s.handle_key(key(KeyCode::Esc));
    assert_eq!(s.mode, AppMode::Input);
    assert_eq!(s.status_message, "Search cancelled");
}

// --- The file list ---

#[test]
fn moves_the_cursor_within_the_list() {
    let mut s = browsing();
    assert_eq!(s.items.len(), 2);
    s.handle_key(ch('j'));
    assert_eq!(s.cursor, 1);
    s.handle_key(ch('j'));
    assert_eq!(s.cursor, 1);
    s.handle_key(ch('k'));
    s.handle_key(ch('k'));
    assert_eq!(s.cursor, 0);
    s.handle_key(ch('G'));
    assert_eq!(s.cursor, 1);
    s.handle_key(ch('g'));
    assert_eq!(s.cursor, 0);
}

#[test]
fn scrolling_keeps_the_cursor_visible() {
    let mut s = AppState::new();
    for _ in 0..15 {
        s.move_down(30);
    }
    assert_eq!(s.cursor, 15);
    assert_eq!(s.scroll_offset, 6);
    s.move_top();
    assert_eq!(s.scroll_offset, 0);
    s.move_bottom(30);
    assert_eq!(s.cursor, 29);
    assert_eq!(s.scroll_offset, 20);
    s.move_up();
    assert_eq!(s.cursor, 28);
    assert_eq!(s.scroll_offset, 20);
}

#[test]
fn space_twice_leaves_the_selection_as_it_was() {
    let mut s = browsing();
    s.handle_key(ch(' '));
    assert_eq!(s.selected_paths, vec!["src".to_string()]);
    assert!(s.get_view_items()[0].selected);
    s.handle_key(ch(' '));
    assert!(s.selected_paths.is_empty());
    assert!(!s.get_view_items()[0].selected);
}

#[test]
fn select_all_and_none() {
    let mut s = browsing();
    s.handle_key(ch('a'));
    assert_eq!(s.selected_paths.len(), 2);
    assert!(s.get_view_items().iter().all(|i| i.selected));
    s.handle_key(ch('u'));
    assert!(s.selected_paths.is_empty());
    assert!(s.get_view_items().iter().all(|i| !i.selected));
    s.loop_selection(true);
    assert!(s.items.iter().all(|i| i.selected));
    s.toggle_selection();
    assert!(!s.items[0].selected);
}

#[test]
fn icon_key_toggles_emoji_and_ascii() {
    let mut s = browsing();
    s.handle_key(ch('i'));
    assert_eq!(s.icon_mode, IconMode::Ascii);
    assert_eq!(toast_message(&s), "ASCII Icons");
    s.handle_key(ch('i'));
    assert_eq!(s.icon_mode, IconMode::Emoji);
    assert_eq!(toast_message(&s), "Emoji Icons");
    s.icon_mode = IconMode::NerdFont;
    s.handle_key(ch('i'));
    assert_eq!(s.icon_mode, IconMode::Emoji);
    assert_eq!(IconMode::NerdFont.as_str(), "Nerd Font Icons");
}

#[test]
fn q_quits_and_escape_returns_home() {
    let mut s = browsing();
    assert!(matches!(s.handle_key(ch('q')), KeyAction::Quit));
    let a = s.handle_key(key(KeyCode::Esc));
    assert!(matches!(a, KeyAction::Nothing));
    assert_eq!(s.mode, AppMode::Input);
}

#[test]
fn download_needs_a_selection() {
    let mut s = browsing();
    let a = s.handle_key(ch('d'));
    assert!(matches!(a, KeyAction::Nothing));
    assert_eq!(toast_message(&s), "No items selected!");
    s.handle_key(ch(' '));
    let a = s.handle_key(ch('d'));
    assert!(matches!(a, KeyAction::Download));
    assert!(s.downloading);
}

#[test]
fn downloading_a_folder_takes_the_files_below_it() {
    let mut s = browsing();
    s.handle_key(ch(' '));
    let items = s.items_to_download();
    let names: Vec<&str> = items.iter().map(|i| i.name.as_str()).collect();
    assert_eq!(names, vec!["src/main.rs", "src/ui/mod.rs"]);
    assert!(items.iter().all(|i| i.selected));
}

#[test]
fn entering_and_leaving_a_folder_with_the_whole_tree() {
    let mut s = browsing();
    let a = s.handle_key(key(KeyCode::Enter));
    assert!(matches!(a, KeyAction::Nothing));
    assert_eq!(s.current_url.as_ref().unwrap().path, "src");
    let paths: Vec<&str> = s.items.iter().map(|i| i.path.as_str()).collect();
    assert_eq!(paths, vec!["src/main.rs", "src/ui"]);
    assert_eq!(s.navigation_stack.len(), 1);
    s.handle_key(ch('h'));
    assert_eq!(s.current_url.as_ref().unwrap().path, "");
    assert_eq!(s.items.len(), 2);
    assert!(s.navigation_stack.is_empty());
}

#[test]
fn entering_a_folder_without_the_tree_asks_for_it() {
    let mut s = browsing();
    s.full_tree = None;
    let a = s.handle_key(key(KeyCode::Right));
    assert!(matches!(a, KeyAction::EnterFolder(u) if u.path == "src"));
    s.folder_fetched(vec![item("src/main.rs", "file", Some(1))], location("src"), 0);
    assert_eq!(s.items.len(), 1);
    let a = s.handle_key(key(KeyCode::Backspace));
    assert!(matches!(a, KeyAction::ReturnToFolder(u, 0) if u.path == ""));
    assert_eq!(s.status_message, "Heading back...");
}

#[test]
fn searching_the_file_list_matches_paths_in_any_case() {
    let mut s = browsing();
    s.handle_key(ch('/'));
    assert!(s.is_searching);
    for c in "MOD".chars() {
        s.handle_key(ch(c));
    }
    let shown = s.get_view_items();
    let paths: Vec<&str> = shown.iter().map(|i| i.path.as_str()).collect();
    assert_eq!(paths, vec!["src/ui/mod.rs"]);
    s.handle_key(key(KeyCode::Esc));
    assert!(!s.is_searching);
    assert_eq!(s.search_query, "");
}

#[test]
fn preview_opens_for_files() {
    let mut s = browsing();
    s.handle_key(ch('j'));
    let a = s.handle_key(ch('p'));
    assert!(matches!(a, KeyAction::Preview { url, path }
        if url == "https://raw.example.com/README.md" && path == "README.md"));
    assert_eq!(s.mode, AppMode::Preview);
    assert!(s.preview_loading);
    s.preview_loaded("hello".to_string());
    assert_eq!(s.preview_content, "hello");
    assert!(!s.preview_loading);
    s.handle_key(key(KeyCode::Esc));
    assert_eq!(s.mode, AppMode::Browse);
}

#[test]
fn media_files_are_recognised_whatever_the_case() {
    assert!(is_media_file("assets/logo.PNG"));
    assert!(is_media_file("a.webp"));
    assert!(!is_media_file("a.rs"));
    assert!(is_video_file("clip.MP4"));
    assert!(!is_video_file("clip.mp3"));
}

// --- Folder sizes ---

#[test]
fn folder_sizes_add_up_the_files_below() {
    let sizes = calculate_folder_sizes(&tree());
    assert_eq!(sizes.get("src"), Some(150));
    assert_eq!(sizes.get("src/ui"), Some(50));
    assert_eq!(sizes.get("README.md"), None);
    assert_eq!(sizes.get(""), None);
}

// --- Repository search ---

fn searching_with_results() -> AppState {
    let mut s = AppState::new();
    s.mode = AppMode::RepositorySearch;
    s.search_results = vec![
        result("a/small", 5, false, Some("Rust"), "2024-01-01T00:00:00Z"),
        result("b/big", 900, false, Some("Go"), "2023-01-01T00:00:00Z"),
        result("c/fork", 2000, true, Some("Rust"), "2025-01-01T00:00:00Z"),
        result("d/mid", 60, false, None, "2024-06-01T00:00:00Z"),
    ];
    s
}

#[test]
fn filtered_results_hide_forks_and_sort_by_stars() {
    let s = searching_with_results();
    let names: Vec<String> = s.get_filtered_search_results().into_iter().map(|r| r.full_name).collect();
    assert_eq!(names, vec!["b/big", "d/mid", "a/small"]);
}

#[test]
fn search_filter_keys_change_the_results() {
    let mut s = searching_with_results();
    s.handle_key(ch('f'));
    assert_eq!(s.get_filtered_search_results()[0].full_name, "c/fork");
    s.handle_key(ch('m'));
    assert_eq!(s.search_filters.min_stars, 10);
    s.handle_key(ch('m'));
    assert_eq!(s.search_filters.min_stars, 50);
    let names: Vec<String> = s.get_filtered_search_results().into_iter().map(|r| r.full_name).collect();
    assert_eq!(names, vec!["c/fork", "b/big", "d/mid"]);
    s.handle_key(ch('s'));
    assert_eq!(s.search_filters.sort, RepoSearchSort::Updated);
    let names: Vec<String> = s.get_filtered_search_results().into_iter().map(|r| r.full_name).collect();
    assert_eq!(names, vec!["c/fork", "d/mid", "b/big"]);
    s.handle_key(ch('s'));
    assert_eq!(s.search_filters.sort, RepoSearchSort::Name);
    s.handle_key(ch('x'));
    assert!(!s.search_filters.include_forks);
    assert_eq!(s.search_filters.min_stars, 0);
    assert_eq!(s.search_filters.sort, RepoSearchSort::Stars);
}

#[test]
fn min_stars_cycle_through_the_documented_values() {
    let mut s = searching_with_results();
    let mut seen = Vec::new();
    for _ in 0..6 {
        s.cycle_repo_search_min_stars();
        seen.push(s.search_filters.min_stars);
    }
    assert_eq!(seen, vec![10, 50, 100, 500, 1000, 0]);
}

#[test]
fn languages_are_listed_by_frequency_and_cycled() {
    let mut s = searching_with_results();
    assert_eq!(s.get_search_languages(), vec!["Rust".to_string(), "Go".to_string()]);
    s.handle_key(ch('l'));
    assert_eq!(s.search_filters.language.as_deref(), Some("Rust"));
    s.handle_key(ch('l'));
    assert_eq!(s.search_filters.language.as_deref(), Some("Go"));
    let names: Vec<String> = s.get_filtered_search_results().into_iter().map(|r| r.full_name).collect();
    assert_eq!(names, vec!["b/big"]);
    s.handle_key(ch('l'));
    assert_eq!(s.search_filters.language, None);
}

#[test]
fn enter_opens_the_highlighted_repository() {
    let mut s = searching_with_results();
    s.handle_key(ch('j'));
    let a = s.handle_key(key(KeyCode::Enter));
    assert!(matches!(a, KeyAction::OpenUrl(u) if u == "https://github.com/d/mid"));
    assert_eq!(s.mode, AppMode::Searching);
}

#[test]
fn stale_search_answers_are_ignored() {
    let mut s = AppState::new();
    s.url_input = "ratatui".to_string();
    let first = s.begin_search();
    let second = s.begin_search();
    assert_eq!(second, first + 1);
    assert_eq!(s.search_query_for(first), None);
    assert_eq!(s.search_query_for(second).as_deref(), Some("ratatui"));
    s.search_succeeded(first, vec![result("x/y", 1, false, None, "")]);
    assert!(s.search_results.is_empty());
    s.search_succeeded(second, vec![result("x/y", 1, false, None, ""), result("x/z", 1, false, None, "")]);
    assert_eq!(s.search_results.len(), 2);
    assert_eq!(s.status_message, "Loaded 2 repositories");
    s.search_succeeded(second, vec![]);
    assert_eq!(s.status_message, "No repositories found for that search.");
    s.search_failed(second, "timeout");
    assert_eq!(s.status_message, "Search failed");
    assert_eq!(toast_message(&s), "Search failed: timeout");
}

#[test]
fn blank_or_url_input_is_not_searched() {
    let mut s = AppState::new();
    s.url_input = "   ".to_string();
    let v = s.begin_search();
    assert_eq!(s.search_query_for(v), None);
    assert!(!s.search_loading);
    s.url_input = "https://github.com".to_string();
    let v = s.begin_search();
    assert_eq!(s.search_query_for(v), None);
}

#[test]
fn cancelling_a_search_invalidates_its_answer() {
    let mut s = searching_with_results();
    let v = s.search_query_version;
    s.cancel_repo_search(true);
    assert!(s.search_results.is_empty());
    s.search_succeeded(v, vec![result("x/y", 1, false, None, "")]);
    assert!(s.search_results.is_empty());
}

// --- Loading and other events ---

#[test]
fn loading_reports_its_outcome() {
    let mut s = AppState::new();
    s.url_rejected(UrlError::NotGitHub);
    assert_eq!(toast_message(&s), "Invalid URL: Not a GitHub URL");
    assert_eq!(s.mode, AppMode::Input);
    s.begin_load();
    assert_eq!(s.mode, AppMode::Searching);
    assert_eq!(s.status_message, "Fetching repository tree...");
    let children = s.tree_loaded(tree(), "src");
    assert_eq!(children.len(), 2);
    assert_eq!(s.folder_sizes.get("src"), Some(150));
    s.finish_load(children, location("src"), true);
    assert_eq!(s.mode, AppMode::Browse);
    assert_eq!(
        toast_message(&s),
        "Warning: Tree was truncated by GitHub API. Some files may be missing."
    );
    s.finish_load(vec![], location(""), false);
    assert_eq!(toast_message(&s), "Repository Loaded!");
}

#[test]
fn tree_failures_fall_back_or_report() {
    let mut s = AppState::new();
    assert!(s.tree_failed(&GitHubError::ApiError("HTTP 500".to_string())));
    assert_eq!(s.status_message, "Tree too large, falling back to folder-by-folder...");
    assert!(!s.tree_failed(&GitHubError::NotFound("x".to_string())));
    assert_eq!(toast_message(&s), "Repository or path not found.");
    assert!(!s.tree_failed(&GitHubError::RateLimitReached("me".to_string())));
    assert_eq!(toast_message(&s), "Rate limit reached for me. Add a token in config for more!");
    s.contents_failed(&AgentError::GitHub(GitHubError::InvalidToken));
    assert_eq!(toast_message(&s), "Error: Invalid token. Falling back to public API.");
    s.contents_failed(&AgentError::Message("boom".to_string()));
    assert_eq!(toast_message(&s), "Error: boom");
    assert_eq!(
        retry_branch(&GitHubError::NotFound("t".to_string()), "main").as_deref(),
        Some("master")
    );
    assert_eq!(retry_branch(&GitHubError::NotFound("t".to_string()), "dev"), None);
    assert_eq!(retry_branch(&GitHubError::InvalidToken, "main"), None);
}

#[test]
fn download_outcomes_are_reported() {
    let mut s = AppState::new();
    s.downloading = true;
    s.download_progress("Downloading: a".to_string());
    assert_eq!(s.status_message, "Downloading: a");
    s.download_finished(0, "/tmp/r");
    assert!(!s.downloading);
    assert_eq!(toast_message(&s), "Downloaded to: /tmp/r");
    s.download_finished(3, "/tmp/r");
    assert_eq!(toast_message(&s), "Completed with 3 errors");
    s.download_failed("disk full");
    assert_eq!(toast_message(&s), "Download failed: disk full");
}

#[test]
fn navigation_errors_undo_the_step() {
    let mut s = browsing();
    s.full_tree = None;
    s.handle_key(key(KeyCode::Enter));
    assert_eq!(s.navigation_stack.len(), 1);
    s.folder_fetch_failed("404", true);
    assert!(s.navigation_stack.is_empty());
    assert_eq!(toast_message(&s), "Nav Error: 404");
}

#[test]
fn writes_numbers_in_decimal() {
    assert_eq!(decimal_string(0), "0");
    assert_eq!(decimal_string(7), "7");
    assert_eq!(decimal_string(1234567890), "1234567890");
    assert_eq!(decimal_string(u64::MAX), u64::MAX.to_string());
}

#[test]
fn notifications_last_four_seconds() {
    let t = Toast::new("hi".to_string(), ToastType::Info);
    assert_eq!(t.duration_secs, 4);
    assert!(!t.is_expired_after(3));
    assert!(t.is_expired_after(4));
    assert!(!t.is_expired());
    let mut s = AppState::new();
    s.advance_frame();
    assert_eq!(s.frame_count, 1);
    s.frame_count = u64::MAX;
    s.advance_frame();
    assert_eq!(s.frame_count, 0);
}

#[test]
fn folder_sizes_bound_each_folder_not_the_whole_tree() {
    let big = u64::MAX - 10;
    let items = vec![
        item("a.bin", "file", Some(big)),
        item("b.bin", "file", Some(big)),
        item("d", "dir", None),
        item("d/c.bin", "file", Some(5)),
    ];
    let sizes = ghgrab::ui::folders::folder_sizes_checked(&items).unwrap();
    assert_eq!(sizes.get("d"), Some(5));
    assert_eq!(calculate_folder_sizes(&items).get("d"), Some(5));
    let too_much = vec![item("d/x", "file", Some(big)), item("d/y", "file", Some(20))];
    assert!(ghgrab::ui::folders::folder_sizes_checked(&too_much).is_none());
}

#[test]
fn frames_drop_a_notification_once_its_time_is_up() {
    let mut s = AppState::new();
    s.show_toast("hi".to_string(), ghgrab::ui::toast::ToastType::Info);
    s.advance_frame_after(3);
    assert_eq!(s.frame_count, 1);
    assert!(s.toast.is_some());
    s.advance_frame_after(4);
    assert_eq!(s.frame_count, 2);
    assert!(s.toast.is_none());
}

#[test]
fn language_key_goes_through_each_language_then_back_to_none() {
    let mut s = searching_with_results();
    let languages = s.get_search_languages();
    let mut seen = Vec::new();
    for _ in 0..languages.len() + 1 {
        s.cycle_repo_search_language();
        seen.push(s.search_filters.language.clone());
    }
    assert_eq!(seen, vec![Some("Rust".to_string()), Some("Go".to_string()), None]);
}

#[test]
fn a_notification_of_no_seconds_goes_on_the_next_frame() {
    let mut s = AppState::new();
    s.show_toast("hi".to_string(), ghgrab::ui::toast::ToastType::Info);
    if let Some(t) = s.toast.as_mut() {
        t.duration_secs = 0;
    }
    s.advance_frame();
    assert!(s.toast.is_none());
    assert_eq!(s.frame_count, 1);
}
