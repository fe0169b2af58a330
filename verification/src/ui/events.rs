//! What the interface does when outside work (loading a repository, a search,
//! a preview, a download) reports back.
use vstd::prelude::*;

use crate::agent::AgentError;
use crate::github::{GitHubError, GitHubUrl, RepoItem, UrlError, github_error_message, url_error_message};
use crate::sort::seq_views;
use crate::text::{append_str, chars_of, copy_str, has_prefix, push_char, starts_with, trim_white, trim_white_chars};
use crate::ui::browse::{folder_children, folder_children_spec, synced};
use crate::ui::folders::{calculate_folder_sizes, folder_total, folder_totals_fit, has_folder, lookup};
use crate::ui::search::SearchItem;
use crate::ui::toast::{elapsed_secs, Toast, ToastType};
use crate::ui::{AppMode, AppState};

verus! {

// ---------------------------------------------------------------------------
// Numbers as text
// ---------------------------------------------------------------------------

/// The character of a decimal digit.
pub open spec fn digit_char(d: nat) -> char {
    if d == 0 {
        '0'
    } else if d == 1 {
        '1'
    } else if d == 2 {
        '2'
    } else if d == 3 {
        '3'
    } else if d == 4 {
        '4'
    } else if d == 5 {
        '5'
    } else if d == 6 {
        '6'
    } else if d == 7 {
        '7'
    } else if d == 8 {
        '8'
    } else {
        '9'
    }
}

/// The decimal digits of `n`, without leading zeros.
pub open spec fn decimal_digits(n: nat) -> Seq<char>
    decreases n,
{
    if n < 10 {
        seq![digit_char(n)]
    } else {
        decimal_digits(n / 10).push(digit_char(n % 10))
    }
}

/// The character of the decimal digit `d`.
fn digit_char_exec(d: u64) -> (c: char)
    requires
        d < 10,
    ensures
        c == digit_char(d as nat),
{
    match d {
        0 => '0',
        1 => '1',
        2 => '2',
        3 => '3',
        4 => '4',
        5 => '5',
        6 => '6',
        7 => '7',
        8 => '8',
        _ => '9',
    }
}

/// `n` written in decimal.
pub fn decimal_string(n: u64) -> (s: String)
    ensures
        s@ == decimal_digits(n as nat),
    decreases n,
{
    if n < 10 {
        let mut s = String::new();
        push_char(&mut s, digit_char_exec(n));
        assert(s@ =~= decimal_digits(n as nat));
        s
    } else {
        let mut s = decimal_string(n / 10);
        push_char(&mut s, digit_char_exec(n % 10));
        s
    }
}

// ---------------------------------------------------------------------------
// Loading a repository
// ---------------------------------------------------------------------------

/// The message shown when a repository's tree cannot be loaded and there is
/// no falling back to folder-by-folder loading; `None` where there is (an API
/// error or another one).
pub open spec fn tree_failure_message(e: GitHubError) -> Option<Seq<char>> {
    match e {
        GitHubError::RateLimitReached(user) => Some(
            "Rate limit reached for "@ + user@ + ". Add a token in config for more!"@,
        ),
        GitHubError::NotFound(_) => Some("Repository or path not found."@),
        GitHubError::InvalidToken => Some("Invalid token. Please check your configuration."@),
        _ => None,
    }
}

/// The message shown when the folder-by-folder loading fails.
pub open spec fn contents_failure_message(e: AgentError) -> Seq<char> {
    match e {
        AgentError::GitHub(g) => match g {
            GitHubError::RateLimitReached(user) => "Rate limit reached for "@ + user@
                + ". Add a token in config for more!"@,
            GitHubError::NotFound(_) => "Repository or path not found."@,
            _ => "Error: "@ + github_error_message(g),
        },
        AgentError::Message(m) => "Error: "@ + m@,
    }
}

/// The branch to try next when a tree is not found: `master` after `main`.
pub open spec fn retry_branch_spec(e: GitHubError, branch: Seq<char>) -> Option<Seq<char>> {
    if (e is NotFound) && branch == "main"@ {
        Some("master"@)
    } else {
        None
    }
}

/// The branch to try next when loading a tree failed with `e` on `branch`.
pub fn retry_branch(e: &GitHubError, branch: &str) -> (r: Option<String>)
    ensures
        r.deep_view() == retry_branch_spec(*e, branch@),
{
    match e {
        GitHubError::NotFound(_) => {
            if crate::text::str_equal(branch, "main") {
                Some(copy_str("master"))
            } else {
                None
            }
        },
        _ => None,
    }
}

/// The message for an error of the GitHub API.
fn github_message(e: &GitHubError) -> (r: String)
    ensures
        r@ == github_error_message(*e),
{
    e.message()
}

/// The notification left after it has been shown for `elapsed_secs` seconds:
/// none once its time is up.
pub open spec fn toast_after(t: Option<Toast>, elapsed_secs: u64) -> Option<Toast> {
    match t {
        Some(x) => if elapsed_secs >= x.duration_secs {
            None
        } else {
            Some(x)
        },
        None => None,
    }
}

/// A search begins: it gets the next version, is loading, and says so.
pub open spec fn begin_search_step(o: AppState, n: AppState, version: u64) -> bool {
    &&& version == o.search_query_version + 1
    &&& n.status_message@ == "Searching repositories..."@
    &&& n == AppState {
        search_query_version: version,
        search_loading: true,
        status_message: n.status_message,
        ..o
    }
}

/// After the pause, what search `version` looks for: nothing, with the state
/// unchanged, where a newer search was requested; nothing, and no results,
/// where the input is blank or is a URL; else the input.
pub open spec fn search_query_step(o: AppState, n: AppState, version: u64, r: Option<Seq<char>>) -> bool {
    &&& version != o.search_query_version ==> r is None && n == o
    &&& version == o.search_query_version ==> {
        let inp = o.url_input@;
        if trim_white(inp).len() == 0 || has_prefix(inp, "http"@) {
            &&& r is None
            &&& n.search_results@.len() == 0
            &&& n.status_message@.len() == 0
            &&& n == AppState {
                search_results: n.search_results,
                search_loading: false,
                status_message: n.status_message,
                ..o
            }
        } else {
            r == Some(inp) && n == o
        }
    }
}

/// The results of search `version` arrive; they count only where no newer
/// search was requested.
pub open spec fn search_answer_step(o: AppState, n: AppState, version: u64, results: Vec<SearchItem>) -> bool {
    &&& version != o.search_query_version ==> n == o
    &&& version == o.search_query_version ==> {
        &&& n.status_message@ == if results@.len() == 0 {
            "No repositories found for that search."@
        } else {
            "Loaded "@ + decimal_digits(results@.len() as nat) + " repositories"@
        }
        &&& n == AppState {
            search_results: results,
            search_cursor: 0,
            search_loading: false,
            status_message: n.status_message,
            ..o
        }
    }
}

/// Search `version` failed with `message`; this counts only where no newer
/// search was requested.
pub open spec fn search_failure_step(o: AppState, n: AppState, version: u64, message: Seq<char>) -> bool {
    &&& version != o.search_query_version ==> n == o
    &&& version == o.search_query_version ==> {
        &&& n.search_results@.len() == 0
        &&& n.status_message@ == "Search failed"@
        &&& n.toast matches Some(t) && t.duration_secs == 4 && t.toast_type == ToastType::Error
            && t.message@ == "Search failed: "@ + message
        &&& n == AppState {
            search_results: n.search_results,
            search_cursor: 0,
            search_loading: false,
            status_message: n.status_message,
            toast: n.toast,
            ..o
        }
    }
}

/// Once a search has begun as version `v`, whatever comes back for another
/// version (its query after the pause, its results or its failure) leaves
/// the state as it is, and no query is made for it.
pub proof fn law_stale_search_ignored(
    s0: AppState,
    s1: AppState,
    s2: AppState,
    v: u64,
    w: u64,
    results: Vec<SearchItem>,
    message: Seq<char>,
    query: Option<Seq<char>>,
)
    requires
        begin_search_step(s0, s1, v),
        w != v,
    ensures
        search_answer_step(s1, s2, w, results) ==> s2 == s1,
        search_failure_step(s1, s2, w, message) ==> s2 == s1,
        search_query_step(s1, s2, w, query) ==> s2 == s1 && query is None,
{
}

impl AppState {
    /// A URL was typed or chosen that does not name a GitHub location.
    pub fn url_rejected(&mut self, e: UrlError)
        ensures
            final(self).toast matches Some(t) && t.duration_secs == 4 && t.toast_type == ToastType::Error && t.message@
                == "Invalid URL: "@ + url_error_message(e),
            *final(self) == (AppState { mode: AppMode::Input, toast: final(self).toast, ..*old(self) }),
    {
        let mut m = String::new();
        append_str(&mut m, "Invalid URL: ");
        append_str(&mut m, e.message());
        self.mode = AppMode::Input;
        self.show_toast(m, ToastType::Error);
    }

    /// Loading of a repository tree begins.
    pub fn begin_load(&mut self)
        ensures
            final(self).status_message@ == "Fetching repository tree..."@,
            *final(self) == (AppState {
                mode: AppMode::Searching,
                status_message: final(self).status_message,
                ..*old(self)
            }),
    {
        self.status_message = copy_str("Fetching repository tree...");
        self.mode = AppMode::Searching;
    }

    /// The token was refused: the load goes on without it.
    pub fn token_refused(&mut self)
        ensures
            final(self).toast matches Some(t) && t.duration_secs == 4 && t.toast_type == ToastType::Warning && t.message@
                == "Invalid token! Falling back to public API."@,
            *final(self) == (AppState { toast: final(self).toast, ..*old(self) }),
    {
        self.show_toast(copy_str("Invalid token! Falling back to public API."), ToastType::Warning);
    }

    /// The tree of `main` was not found: `master` is tried next.
    pub fn trying_master(&mut self)
        ensures
            final(self).status_message@ == "Trying master branch..."@,
            *final(self) == (AppState { status_message: final(self).status_message, ..*old(self) }),
    {
        self.status_message = copy_str("Trying master branch...");
    }

    /// The whole tree was loaded: it is kept with its folder sizes, and the
    /// items directly in the location's folder are handed back.
    pub fn tree_loaded(&mut self, tree: Vec<RepoItem>, folder: &str) -> (r: Vec<RepoItem>)
        requires
            folder_totals_fit(seq_views(tree@)),
        ensures
            final(self).full_tree == Some(tree),
            forall|f: Seq<char>|
                #[trigger] lookup(final(self).folder_sizes.entry_views(), f) == if has_folder(
                    seq_views(tree@),
                    f,
                ) {
                    Some(folder_total(seq_views(tree@), f) as u64)
                } else {
                    None
                },
            seq_views(r@) == folder_children_spec(seq_views(tree@), folder@),
            *final(self) == (AppState {
                full_tree: final(self).full_tree,
                folder_sizes: final(self).folder_sizes,
                ..*old(self)
            }),
    {
        let sizes = calculate_folder_sizes(tree.as_slice());
        let children = folder_children(tree.as_slice(), folder);
        self.full_tree = Some(tree);
        self.folder_sizes = sizes;
        children
    }

    /// The tree could not be loaded. Where the error allows, loading falls back
    /// to folder by folder (the answer is `true`); else the error is shown.
    pub fn tree_failed(&mut self, e: &GitHubError) -> (fallback: bool)
        ensures
            fallback == (tree_failure_message(*e) is None),
            fallback ==> {
                &&& final(self).status_message@
                    == "Tree too large, falling back to folder-by-folder..."@
                &&& *final(self) == (AppState {
                    status_message: final(self).status_message,
                    full_tree: None,
                    ..*old(self)
                })
            },
            !fallback ==> {
                &&& final(self).toast matches Some(t) && t.duration_secs == 4 && t.toast_type == ToastType::Error
                    && t.message@ == tree_failure_message(*e).unwrap()
                &&& *final(self) == (AppState {
                    mode: AppMode::Input,
                    toast: final(self).toast,
                    ..*old(self)
                })
            },
    {
        let message = match e {
            GitHubError::RateLimitReached(user) => {
                let mut m = String::new();
                append_str(&mut m, "Rate limit reached for ");
                append_str(&mut m, user.as_str());
                append_str(&mut m, ". Add a token in config for more!");
                Some(m)
            },
            GitHubError::NotFound(_) => Some(copy_str("Repository or path not found.")),
            GitHubError::InvalidToken => Some(copy_str("Invalid token. Please check your configuration.")),
            _ => None,
        };
        match message {
            Some(m) => {
                self.mode = AppMode::Input;
                self.show_toast(m, ToastType::Error);
                false
            },
            None => {
                self.status_message = copy_str("Tree too large, falling back to folder-by-folder...");
                self.full_tree = None;
                true
            },
        }
    }

    /// Folder-by-folder loading failed too.
    pub fn contents_failed(&mut self, e: &AgentError)
        ensures
            final(self).toast matches Some(t) && t.duration_secs == 4 && t.toast_type == ToastType::Error && t.message@
                == contents_failure_message(*e),
            *final(self) == (AppState { mode: AppMode::Input, toast: final(self).toast, ..*old(self) }),
    {
        let m = match e {
            AgentError::GitHub(g) => match g {
                GitHubError::RateLimitReached(user) => {
                    let mut m = String::new();
                    append_str(&mut m, "Rate limit reached for ");
                    append_str(&mut m, user.as_str());
                    append_str(&mut m, ". Add a token in config for more!");
                    m
                },
                GitHubError::NotFound(_) => copy_str("Repository or path not found."),
                _ => {
                    let mut m = String::new();
                    append_str(&mut m, "Error: ");
                    let t = github_message(g);
                    append_str(&mut m, t.as_str());
                    m
                },
            },
            AgentError::Message(msg) => {
                let mut m = String::new();
                append_str(&mut m, "Error: ");
                append_str(&mut m, msg.as_str());
                m
            },
        };
        self.mode = AppMode::Input;
        self.show_toast(m, ToastType::Error);
    }

    /// The repository is shown: its items at `url`, on the file list.
    pub fn finish_load(&mut self, items: Vec<RepoItem>, url: GitHubUrl, truncated: bool)
        ensures
            final(self).status_message@.len() == 0,
            final(self).toast matches Some(t) && t.duration_secs == 4 && (if truncated {
                t.toast_type == ToastType::Warning && t.message@
                    == "Warning: Tree was truncated by GitHub API. Some files may be missing."@
            } else {
                t.toast_type == ToastType::Success && t.message@ == "Repository Loaded!"@
            }),
            *final(self) == (AppState {
                items: items,
                current_url: Some(url),
                mode: AppMode::Browse,
                status_message: final(self).status_message,
                toast: final(self).toast,
                ..*old(self)
            }),
    {
        self.items = items;
        self.current_url = Some(url);
        self.mode = AppMode::Browse;
        self.status_message = String::new();
        if truncated {
            self.show_toast(
                copy_str("Warning: Tree was truncated by GitHub API. Some files may be missing."),
                ToastType::Warning,
            );
        } else {
            self.show_toast(copy_str("Repository Loaded!"), ToastType::Success);
        }
    }

    // -----------------------------------------------------------------------
    // Folder navigation without the whole tree
    // -----------------------------------------------------------------------

    /// The contents of a folder arrived: it becomes the current folder.
    pub fn folder_fetched(&mut self, items: Vec<RepoItem>, url: GitHubUrl, cursor: usize)
        ensures
            seq_views(final(self).items@) == synced(seq_views(items@), seq_views(old(self).selected_paths@)),
            *final(self) == (AppState {
                items: final(self).items,
                current_url: Some(url),
                cursor: cursor,
                scroll_offset: 0,
                ..*old(self)
            }),
    {
        self.items = items;
        self.sync_selections();
        self.current_url = Some(url);
        self.cursor = cursor;
        self.scroll_offset = 0;
    }

    /// The contents of a folder could not be fetched. Entering a folder is
    /// undone (its place on the navigation stack goes); the error is shown.
    pub fn folder_fetch_failed(&mut self, message: &str, entering: bool)
        ensures
            final(self).toast matches Some(t) && t.duration_secs == 4 && t.toast_type == ToastType::Error && t.message@
                == "Nav Error: "@ + message@,
            final(self).navigation_stack@ == if entering && old(self).navigation_stack@.len() > 0 {
                old(self).navigation_stack@.drop_last()
            } else {
                old(self).navigation_stack@
            },
            *final(self) == (AppState {
                toast: final(self).toast,
                navigation_stack: final(self).navigation_stack,
                ..*old(self)
            }),
    {
        if entering && self.navigation_stack.len() > 0 {
            self.navigation_stack.pop();
        }
        let mut m = String::new();
        append_str(&mut m, "Nav Error: ");
        append_str(&mut m, message);
        self.show_toast(m, ToastType::Error);
    }

    // -----------------------------------------------------------------------
    // Previews
    // -----------------------------------------------------------------------

    /// A media file is previewed: it is shown as an image, not as text.
    pub fn preview_media(&mut self)
        ensures
            *final(self) == (AppState { preview_is_image: true, preview_loading: false, ..*old(self) }),
    {
        self.preview_is_image = true;
        self.preview_loading = false;
    }

    /// The preview's text arrived.
    pub fn preview_loaded(&mut self, content: String)
        ensures
            *final(self) == (AppState { preview_content: content, preview_loading: false, ..*old(self) }),
    {
        self.preview_content = content;
        self.preview_loading = false;
    }

    /// The preview could not be fetched: the error takes the place of the text.
    pub fn preview_failed(&mut self, message: &str)
        ensures
            final(self).preview_content@ == "Error fetching preview: "@ + message@,
            *final(self) == (AppState {
                preview_content: final(self).preview_content,
                preview_loading: false,
                ..*old(self)
            }),
    {
        let mut m = String::new();
        append_str(&mut m, "Error fetching preview: ");
        append_str(&mut m, message);
        self.preview_content = m;
        self.preview_loading = false;
    }

    // -----------------------------------------------------------------------
    // Downloads
    // -----------------------------------------------------------------------

    /// A download ended: with no error it says where the files went, else how
    /// many errors there were.
    pub fn download_finished(&mut self, error_count: u64, dir: &str)
        ensures
            final(self).status_message@.len() == 0,
            final(self).toast matches Some(t) && t.duration_secs == 4 && (if error_count == 0 {
                t.toast_type == ToastType::Success && t.message@ == "Downloaded to: "@ + dir@
            } else {
                t.toast_type == ToastType::Error && t.message@ == "Completed with "@
                    + decimal_digits(error_count as nat) + " errors"@
            }),
            *final(self) == (AppState {
                downloading: false,
                status_message: final(self).status_message,
                toast: final(self).toast,
                ..*old(self)
            }),
    {
        self.downloading = false;
        self.status_message = String::new();
        let mut m = String::new();
        if error_count == 0 {
            append_str(&mut m, "Downloaded to: ");
            append_str(&mut m, dir);
            self.show_toast(m, ToastType::Success);
        } else {
            append_str(&mut m, "Completed with ");
            let n = decimal_string(error_count);
            append_str(&mut m, n.as_str());
            append_str(&mut m, " errors");
            self.show_toast(m, ToastType::Error);
        }
    }

    /// A download failed as a whole.
    pub fn download_failed(&mut self, message: &str)
        ensures
            final(self).status_message@.len() == 0,
            final(self).toast matches Some(t) && t.duration_secs == 4 && t.toast_type == ToastType::Error && t.message@
                == "Download failed: "@ + message@,
            *final(self) == (AppState {
                downloading: false,
                status_message: final(self).status_message,
                toast: final(self).toast,
                ..*old(self)
            }),
    {
        self.downloading = false;
        self.status_message = String::new();
        let mut m = String::new();
        append_str(&mut m, "Download failed: ");
        append_str(&mut m, message);
        self.show_toast(m, ToastType::Error);
    }

    /// A progress message of a download.
    pub fn download_progress(&mut self, message: String)
        ensures
            *final(self) == (AppState { status_message: message, ..*old(self) }),
    {
        self.status_message = message;
    }

    // -----------------------------------------------------------------------
    // Repository search
    // -----------------------------------------------------------------------

    /// A search is requested: it gets a new version, and answers to older ones
    /// will be ignored.
    pub fn begin_search(&mut self) -> (version: u64)
        requires
            old(self).search_query_version < u64::MAX,
        ensures
            begin_search_step(*old(self), *final(self), version),
    {
        self.search_query_version = self.search_query_version + 1;
        self.search_loading = true;
        self.status_message = copy_str("Searching repositories...");
        self.search_query_version
    }

    /// After the pause, what search `version` should look for: nothing where a
    /// newer search was requested; nothing, and no results, where the input is
    /// blank or is a URL; else the input.
    pub fn search_query_for(&mut self, version: u64) -> (r: Option<String>)
        ensures
            search_query_step(*old(self), *final(self), version, r.deep_view()),
    {
        if version != self.search_query_version {
            return None;
        }
        let input = chars_of(self.url_input.as_str());
        let trimmed = trim_white_chars(input.as_slice());
        let http = chars_of("http");
        if trimmed.len() == 0 || starts_with(input.as_slice(), http.as_slice()) {
            self.search_results.clear();
            self.search_loading = false;
            self.status_message = String::new();
            None
        } else {
            Some(self.url_input.clone())
        }
    }

    /// The results of search `version` arrived; they count only where no newer
    /// search was requested.
    pub fn search_succeeded(&mut self, version: u64, results: Vec<SearchItem>)
        ensures
            search_answer_step(*old(self), *final(self), version, results),
    {
        if version != self.search_query_version {
            return;
        }
        let n = results.len();
        self.search_results = results;
        self.search_cursor = 0;
        self.search_loading = false;
        if n == 0 {
            self.status_message = copy_str("No repositories found for that search.");
        } else {
            let mut m = String::new();
            append_str(&mut m, "Loaded ");
            let d = decimal_string(n as u64);
            append_str(&mut m, d.as_str());
            append_str(&mut m, " repositories");
            self.status_message = m;
        }
    }

    /// Search `version` failed; this counts only where no newer search was
    /// requested.
    pub fn search_failed(&mut self, version: u64, message: &str)
        ensures
            search_failure_step(*old(self), *final(self), version, message@),
    {
        if version != self.search_query_version {
            return;
        }
        self.search_results.clear();
        self.search_cursor = 0;
        self.search_loading = false;
        self.status_message = copy_str("Search failed");
        let mut m = String::new();
        append_str(&mut m, "Search failed: ");
        append_str(&mut m, message);
        self.show_toast(m, ToastType::Error);
    }

    // -----------------------------------------------------------------------
    // Frames
    // -----------------------------------------------------------------------

    /// A new frame after the notification (if any) has been shown for
    /// `elapsed_secs` seconds: the frame counter goes on (wrapping), and the
    /// notification goes away once its time is up.
    pub fn advance_frame_after(&mut self, elapsed_secs: u64)
        ensures
            final(self).frame_count == old(self).frame_count.wrapping_add(1),
            final(self).toast == toast_after(old(self).toast, elapsed_secs),
            *final(self) == (AppState {
                frame_count: final(self).frame_count,
                toast: final(self).toast,
                ..*old(self)
            }),
    {
        self.frame_count = self.frame_count.wrapping_add(1);
        let expired = match &self.toast {
            Some(t) => t.is_expired_after(elapsed_secs),
            None => false,
        };
        if expired {
            self.toast = None;
        }
    }

    /// A new frame, with the time the notification has been shown read from
    /// the clock (see [`AppState::advance_frame_after`]).
    pub fn advance_frame(&mut self)
        ensures
            final(self).frame_count == old(self).frame_count.wrapping_add(1),
            exists|e: u64| final(self).toast == toast_after(old(self).toast, e),
            old(self).toast matches Some(t) && t.duration_secs == 0 ==> final(self).toast is None,
            *final(self) == (AppState {
                frame_count: final(self).frame_count,
                toast: final(self).toast,
                ..*old(self)
            }),
    {
        let elapsed = match &self.toast {
            Some(t) => elapsed_secs(&t.created_at),
            None => 0,
        };
        self.advance_frame_after(elapsed);
    }
}

} // verus!
