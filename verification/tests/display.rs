use ghgrab::config::{mask_token, Config};
use ghgrab::theme::parse_hex_color;
use ghgrab::download::{
    download_error_message, download_kind, file_progress_message, folder_progress_message,
    repo_subfolder, resolve_base_dir, BaseDir, DownloadKind,
};
use ghgrab::github::{GitHubUrl, RepoItem};
use ghgrab::ui::display::{
    build_result_item, format_date, format_min_stars, get_file_type, icon_for, input_display,
    owner_and_repo, searching_message, shorten_name, size_cell, spinner_frame, toast_heading,
    truncate_text, BrowserState, PreviewBody, PreviewState, RepoSearchState, SizeCell,
};
use ghgrab::ui::folders::{calculate_folder_sizes, FolderSizes};
use ghgrab::ui::search::SearchItem;
use ghgrab::ui::toast::ToastType;
use ghgrab::ui::{IconMode, RepoSearchFilters, RepoSearchSort};

fn item(path: &str, kind: &str, size: Option<u64>) -> RepoItem {
    RepoItem {
        name: path.rsplit('/').next().unwrap_or(path).to_string(),
        item_type: kind.to_string(),
        path: path.to_string(),
        download_url: None,
        url: String::new(),
        size,
        selected: false,
        lfs_oid: None,
        lfs_size: None,
        lfs_download_url: None,
    }
}

// --- Settings ---

#[test]
fn test_config_default() {
    let config = Config::default();
    assert!(config.github_token.is_none());
}

#[test]
fn masks_saved_tokens() {
    assert_eq!(mask_token("ghp_1234567890abcd"), "ghp_...abcd");
    assert_eq!(mask_token("short"), "********");
    assert_eq!(mask_token("12345678"), "********");
    assert_eq!(mask_token("123456789"), "1234...6789");
}

#[test]
fn masks_tokens_by_bytes() {
    // Five two-byte characters are ten bytes: two characters from each end.
    assert_eq!(mask_token("\u{e9}\u{e9}\u{e9}\u{e9}\u{e9}"), "\u{e9}\u{e9}...\u{e9}\u{e9}");
    // Four two-byte characters are eight bytes: fully masked.
    assert_eq!(mask_token("\u{e9}\u{e9}\u{e9}\u{e9}"), "********");
}

#[test]
fn reads_theme_colours() {
    assert_eq!(parse_hex_color("#f7768e"), Some((247, 118, 142)));
    assert_eq!(parse_hex_color("#24283B"), Some((36, 40, 59)));
    assert_eq!(parse_hex_color("24283b"), None);
    assert_eq!(parse_hex_color("#24283g"), None);
    assert_eq!(parse_hex_color("#2428"), None);
}

// --- Text helpers ---

#[test]
fn truncates_long_text() {
    assert_eq!(truncate_text("hello", 5), "hello");
    assert_eq!(truncate_text("hello world", 8), "hello...");
    assert_eq!(truncate_text("hello", 2), "...");
    assert_eq!(truncate_text("héllo wörld", 7), "héll...");
}

#[test]
fn formats_filter_labels_and_dates() {
    assert_eq!(format_min_stars(0), "Any");
    assert_eq!(format_min_stars(500), "500+");
    assert_eq!(format_date("2024-05-06T07:08:09Z"), "2024-05-06");
    assert_eq!(format_date("yesterday"), "yesterday");
}

#[test]
fn file_types_come_from_extensions() {
    assert_eq!(get_file_type("src", true), "DIR");
    assert_eq!(get_file_type("main.rs", false), "RS");
    assert_eq!(get_file_type("archive.tar.gz", false), "GZ");
    assert_eq!(get_file_type("Makefile", false), "FILE");
    assert_eq!(get_file_type("noext.", false), "FILE");
    assert_eq!(get_file_type("data.parquet", false), "FILE");
    assert_eq!(get_file_type("x.jsonl", false), "JSONL");
    assert_eq!(get_file_type("x.ééé", false), "FILE");
    assert_eq!(get_file_type("x.éé", false), "ÉÉ");
}

#[test]
fn long_names_are_shortened() {
    let short = "short_name.rs";
    assert_eq!(shorten_name(short), short);
    let long_with_ext = format!("{}.rs", "a".repeat(40));
    assert_eq!(shorten_name(&long_with_ext), format!("{}.....{}", "a".repeat(30), ".rs"));
    let long_no_ext = "b".repeat(40);
    assert_eq!(shorten_name(&long_no_ext), format!("{}.....", "b".repeat(35)));
    let dot_early = format!("ab.{}", "c".repeat(40));
    assert_eq!(shorten_name(&dot_early), dot_early);
}

#[test]
fn icons_follow_the_mode() {
    assert_eq!(icon_for(IconMode::Ascii, true), "[D] ");
    assert_eq!(icon_for(IconMode::Ascii, false), "[F] ");
    assert_eq!(icon_for(IconMode::Emoji, true), "\u{1f4c1} ");
    assert_eq!(icon_for(IconMode::NerdFont, false), "\u{f0214} ");
}

// --- The file list ---

#[test]
fn browser_rows_show_names_types_and_sizes() {
    let tree = vec![
        item("src", "dir", None),
        item("src/main.rs", "file", Some(100)),
        item("docs", "dir", None),
        item("notes.txt", "file", None),
    ];
    let sizes = calculate_folder_sizes(&tree);
    let mut items = vec![item("src", "dir", None), item("docs", "dir", None), item("notes.txt", "file", None)];
    items[2].selected = true;
    let url = GitHubUrl {
        owner: "o".to_string(),
        repo: "r".to_string(),
        branch: "main".to_string(),
        path: "".to_string(),
    };
    let state = BrowserState {
        items: &items,
        current_url: Some(&url),
        cursor: 2,
        scroll_offset: 1,
        status_msg: "",
        is_downloading: true,
        icon_mode: IconMode::Ascii,
        folder_sizes: &sizes,
        is_searching: false,
        search_query: "",
    };
    let rows = state.rows();
    assert_eq!(rows.len(), 2);
    assert_eq!(rows[0].name, "docs");
    assert_eq!(rows[0].file_type, "DIR");
    assert_eq!(rows[0].size, SizeCell::Blank);
    assert!(!rows[0].highlighted);
    assert_eq!(rows[1].name, "notes.txt");
    assert_eq!(rows[1].icon, "[F] ");
    assert_eq!(rows[1].file_type, "TXT");
    assert_eq!(rows[1].size, SizeCell::Unknown);
    assert!(rows[1].highlighted);
    assert!(rows[1].marked);
    assert_eq!(size_cell(&items[0], &sizes), SizeCell::Bytes(100));
    assert_eq!(state.breadcrumb(), " o/r : ");
    assert_eq!(state.files_title(), " Files (3) ");
    assert_eq!(state.download_status(), "Starting download...");
    let empty = FolderSizes::new();
    assert_eq!(empty.get("src"), None);
}

#[test]
fn breadcrumb_while_loading() {
    let sizes = FolderSizes::new();
    let state = BrowserState {
        items: &[],
        current_url: None,
        cursor: 0,
        scroll_offset: 0,
        status_msg: "Downloading: a",
        is_downloading: true,
        icon_mode: IconMode::Emoji,
        folder_sizes: &sizes,
        is_searching: false,
        search_query: "",
    };
    assert_eq!(state.breadcrumb(), " Loading...");
    assert_eq!(state.download_status(), "Downloading: a");
    assert!(state.rows().is_empty());
}

// --- The preview ---

#[test]
fn preview_shows_loading_image_or_text() {
    let p = PreviewState { content: "", path: "a.rs", loading: true, is_image: false };
    assert!(matches!(p.body(), PreviewBody::Loading));
    assert_eq!(p.title(), " Preview: a.rs ");
    let p = PreviewState { content: "", path: "a.png", loading: false, is_image: true };
    assert!(matches!(p.body(), PreviewBody::Image));
    let p = PreviewState { content: "", path: "a.rs", loading: false, is_image: false };
    assert!(matches!(p.body(), PreviewBody::Text(t) if t == "No content available or empty file."));
    let p = PreviewState { content: "fn main() {}", path: "a.rs", loading: false, is_image: false };
    assert!(matches!(p.body(), PreviewBody::Text(t) if t == "fn main() {}"));
}

// --- Repository search ---

fn result(name: &str, description: Option<&str>) -> SearchItem {
    SearchItem {
        full_name: name.to_string(),
        html_url: format!("https://github.com/{}", name),
        description: description.map(|d| d.to_string()),
        language: Some("Rust".to_string()),
        stargazers_count: 1234,
        fork: true,
        pushed_at: "2024-02-03T04:05:06Z".to_string(),
    }
}

#[test]
fn search_screen_texts() {
    let filters = RepoSearchFilters {
        include_forks: true,
        min_stars: 100,
        language: None,
        sort: RepoSearchSort::Updated,
    };
    let results = vec![result("a/b", None)];
    let state = RepoSearchState {
        results: &results,
        total_results: 3,
        cursor: 5,
        query: "tui",
        filters: &filters,
        loading: false,
        status_msg: "",
    };
    assert_eq!(state.query_label(), "\"tui\"");
    assert_eq!(state.shown_label(), "1 shown");
    assert_eq!(state.status_text(), "Choose a repository to open its files.");
    assert!(!state.shows_loading());
    assert_eq!(state.highlighted(), Some(0));
    assert_eq!(state.forks_label(), "Included");
    assert_eq!(state.min_stars_label(), "100+");
    assert_eq!(state.language_label(), "Any");
    assert_eq!(state.sort_label(), "Updated");

    let none: Vec<SearchItem> = vec![];
    let filtered = RepoSearchState { results: &none, total_results: 3, ..state };
    assert_eq!(
        filtered.status_text(),
        "No repositories match the current filters. Press x to reset them."
    );
    assert_eq!(filtered.highlighted(), None);
    let nothing = RepoSearchState { results: &none, total_results: 0, ..state };
    assert_eq!(nothing.status_text(), "No repositories found yet. Try another keyword.");
    let loading = RepoSearchState { results: &none, total_results: 0, loading: true, ..state };
    assert_eq!(loading.status_text(), "Fetching repositories from GitHub...");
    assert!(loading.shows_loading());
}

#[test]
fn result_cards() {
    assert_eq!(owner_and_repo("a/b"), ("a".to_string(), "b".to_string()));
    assert_eq!(owner_and_repo("a/b/c"), (String::new(), "a/b/c".to_string()));
    let card = build_result_item(100, true, &result("owner/repo", None));
    assert_eq!(card.marker, "\u{203a} ");
    assert_eq!(card.owner, "owner/");
    assert_eq!(card.repo, "repo");
    assert_eq!(card.description, "No description provided.");
    assert_eq!(card.stars, " 1234 stars ");
    assert_eq!(card.updated, " updated 2024-02-03");
    assert_eq!(card.language.as_deref(), Some("Rust"));
    assert!(card.fork);
    let long = "x".repeat(100);
    let card = build_result_item(20, false, &result("o/r", Some(&long)));
    assert_eq!(card.marker, "  ");
    assert_eq!(card.description, format!("{}...", "x".repeat(37)));
    let card = build_result_item(80, false, &result("o/r", Some(&long)));
    assert_eq!(card.description, format!("{}...", "x".repeat(63)));
}

// --- Loading screen, input line, notifications ---

#[test]
fn spinner_advances_every_two_frames() {
    assert_eq!(spinner_frame(0), "\u{280b}");
    assert_eq!(spinner_frame(1), "\u{280b}");
    assert_eq!(spinner_frame(2), "\u{2819}");
    assert_eq!(spinner_frame(19), "\u{280f}");
    assert_eq!(spinner_frame(20), "\u{280b}");
}

#[test]
fn loading_and_input_texts() {
    assert_eq!(searching_message(""), "Searching Repository...");
    assert_eq!(searching_message("Fetching"), "Fetching");
    assert_eq!(input_display("abc", true), "abc_");
    assert_eq!(input_display("abc", false), "abc ");
    assert_eq!(toast_heading(ToastType::Success), ("\u{2713}", "Success"));
    assert_eq!(toast_heading(ToastType::Warning), ("\u{26a0}", "Warning"));
}

// --- Downloads ---

#[test]
fn download_decisions_and_messages() {
    let mut f = item("a/b.rs", "file", Some(1));
    assert_eq!(download_kind(&f), DownloadKind::Skip);
    f.selected = true;
    assert_eq!(download_kind(&f), DownloadKind::File);
    let mut d = item("a", "dir", None);
    d.selected = true;
    assert_eq!(download_kind(&d), DownloadKind::Folder);
    assert_eq!(file_progress_message(&f), "Downloading: b.rs");
    f.lfs_oid = Some("x".to_string());
    assert_eq!(file_progress_message(&f), "Downloading [LFS]: b.rs");
    assert_eq!(folder_progress_message(&d), "Scanning folder: a");
    assert_eq!(download_error_message("b.rs", "404"), "Failed to download b.rs: 404");
    assert!(matches!(resolve_base_dir(Some("/x".to_string()), true), BaseDir::CurrentDir));
    assert!(matches!(resolve_base_dir(Some("/x".to_string()), false), BaseDir::Given(p) if p == "/x"));
    assert!(matches!(resolve_base_dir(None, false), BaseDir::Downloads));
    assert_eq!(repo_subfolder("rust", false).as_deref(), Some("rust"));
    assert_eq!(repo_subfolder("rust", true), None);
}
