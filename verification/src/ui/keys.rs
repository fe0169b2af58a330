//! What each key press does to the interface, by screen.
use vstd::prelude::*;

use crate::github::GitHubUrl;
use crate::sort::seq_views;
use crate::text::{chars_of, has_prefix, push_char, starts_with, string_of};
use crate::github::{actual_download_url_view, is_dir_view, is_file_view, GitHubUrlView};
use crate::ui::{AppMode, AppState, IconMode, RepoSearchFilters, icon_mode_next, is_default_filters, search_sort_next};
use crate::ui::browse::{
    folder_children, folder_children_spec, insert_path, prefix_children, prefix_children_spec,
    remove_path, contains_path, scrolled, selected_of, synced, view_items_spec,
};
use crate::ui::toast::ToastType;
use crate::ui::search::{filtered_results_spec, next_language, next_min_stars, search_languages_spec};

verus! {

/// A key of the keyboard.
#[derive(Debug, Clone, Copy, PartialEq, Eq, Structural)]
pub enum KeyCode {
    Char(char),
    Backspace,
    Delete,
    Left,
    Right,
    Up,
    Down,
    Home,
    End,
    Tab,
    Enter,
    Esc,
    Other,
}

/// A key press with the modifiers held.
#[derive(Debug, Clone, Copy, PartialEq, Eq, Structural)]
pub struct KeyInput {
    pub code: KeyCode,
    pub ctrl: bool,
    pub alt: bool,
    pub super_key: bool,
}

/// What is left to do after a key press, outside the state.
#[derive(Debug)]
pub enum KeyAction {
    /// Nothing.
    Nothing,
    /// Leave the program.
    Quit,
    /// Parse this URL and load the repository.
    OpenUrl(String),
    /// Search repositories for the input.
    StartSearch,
    /// Fetch the contents of this folder and enter it.
    EnterFolder(GitHubUrl),
    /// Fetch the contents of this folder and return to it with the cursor here.
    ReturnToFolder(GitHubUrl, usize),
    /// Load a preview of the file at `path` from `url`.
    Preview { url: String, path: String },
    /// Download the selected items.
    Download,
}

/// The URL that Tab completes the input to.
pub open spec fn github_prefix() -> Seq<char> {
    "https://github.com/"@
}

/// A chord that leaves the program from any screen: Ctrl+Q or Ctrl+C.
pub open spec fn is_quit_chord(key: KeyInput) -> bool {
    key.ctrl && (key.code == KeyCode::Char('q') || key.code == KeyCode::Char('c'))
}

/// The state after the repository search under way is abandoned (see
/// `AppState::cancel_repo_search`) and the results cleared.
pub open spec fn cancelled_fields(o: AppState, n: AppState) -> bool {
    &&& n.search_query_version == o.search_query_version + 1
    &&& !n.search_loading
    &&& n.search_cursor == 0
    &&& n.search_results@.len() == 0
}

/// What a key does on the input screen.
pub open spec fn input_step(o: AppState, n: AppState, key: KeyInput, a: KeyAction) -> bool {
    let inp = o.url_input@;
    let cur = o.url_cursor;
    let plain = !key.ctrl && !key.alt && !key.super_key;
    match key.code {
        KeyCode::Char(c) => if key.ctrl && (c == 'w' || c == 'u') {
            &&& n.url_input@.len() == 0
            &&& n == AppState { url_input: n.url_input, url_cursor: 0, ..o }
            &&& a is Nothing
        } else if plain {
            &&& n.url_input@ == inp.insert(if cur <= inp.len() { cur as int } else { inp.len() as int }, c)
            &&& n == AppState { url_input: n.url_input, url_cursor: (cur + 1) as usize, ..o }
            &&& a is Nothing
        } else {
            n == o && a is Nothing
        },
        KeyCode::Backspace => if key.ctrl || key.alt || key.super_key {
            &&& n.url_input@.len() == 0
            &&& n.search_results@.len() == 0
            &&& n == AppState {
                url_input: n.url_input,
                url_cursor: 0,
                search_results: n.search_results,
                ..o
            }
            &&& a is Nothing
        } else if cur > 0 {
            &&& n.url_input@ == inp.remove(cur - 1)
            &&& n == AppState { url_input: n.url_input, url_cursor: (cur - 1) as usize, ..o }
            &&& a is Nothing
        } else {
            n == o && a is Nothing
        },
        KeyCode::Delete => if cur < inp.len() {
            &&& n.url_input@ == inp.remove(cur as int)
            &&& n == AppState { url_input: n.url_input, ..o }
            &&& a is StartSearch
        } else {
            n == o && a is Nothing
        },
        KeyCode::Left => {
            &&& n == AppState {
                url_cursor: if cur > 0 {
                    (cur - 1) as usize
                } else {
                    cur
                },
                ..o
            }
            &&& a is Nothing
        },
        KeyCode::Right => {
            &&& n == AppState {
                url_cursor: if cur < inp.len() {
                    (cur + 1) as usize
                } else {
                    cur
                },
                ..o
            }
            &&& a is Nothing
        },
        KeyCode::Tab => if inp.len() == 0 || (has_prefix(github_prefix(), inp) && inp.len()
            < github_prefix().len()) {
            &&& cancelled_fields(o, n)
            &&& n.url_input@ == github_prefix()
            &&& n == AppState {
                url_input: n.url_input,
                url_cursor: 19,
                search_query_version: n.search_query_version,
                search_loading: n.search_loading,
                search_cursor: n.search_cursor,
                search_results: n.search_results,
                ..o
            }
            &&& a is Nothing
        } else {
            n == o && a is Nothing
        },
        KeyCode::Esc => if inp.len() > 0 {
            &&& cancelled_fields(o, n)
            &&& n.url_input@.len() == 0
            &&& n == AppState {
                url_input: n.url_input,
                url_cursor: 0,
                search_query_version: n.search_query_version,
                search_loading: n.search_loading,
                search_cursor: n.search_cursor,
                search_results: n.search_results,
                ..o
            }
            &&& a is Nothing
        } else {
            n == o && a is Quit
        },
        KeyCode::Enter => if inp.len() == 0 {
            n == o && a is Nothing
        } else if has_prefix(inp, "http"@) {
            &&& cancelled_fields(o, n)
            &&& n.status_message@ == "Parsing URL..."@
            &&& n == AppState {
                mode: AppMode::Searching,
                status_message: n.status_message,
                search_query_version: n.search_query_version,
                search_loading: n.search_loading,
                search_cursor: n.search_cursor,
                search_results: n.search_results,
                ..o
            }
            &&& a matches KeyAction::OpenUrl(u) && u@ == inp
        } else {
            &&& n.search_results@.len() == 0
            &&& is_default_filters(n.search_filters)
            &&& n == AppState {
                mode: AppMode::RepositorySearch,
                search_results: n.search_results,
                search_cursor: 0,
                search_filters: n.search_filters,
                ..o
            }
            &&& a is StartSearch
        },
        _ => n == o && a is Nothing,
    }
}

/// What a key does on the repository search screen.
pub open spec fn repo_search_step(o: AppState, n: AppState, key: KeyInput, a: KeyAction) -> bool {
    let shown = filtered_results_spec(seq_views(o.search_results@), o.search_filters);
    let sc = o.search_cursor;
    if key.code == KeyCode::Up || key.code == KeyCode::Char('k') {
        &&& n == AppState {
            search_cursor: if shown.len() > 0 && sc > 0 {
                (sc - 1) as usize
            } else {
                sc
            },
            ..o
        }
        &&& a is Nothing
    } else if key.code == KeyCode::Down || key.code == KeyCode::Char('j') {
        &&& n == AppState {
            search_cursor: if shown.len() > 0 && sc < shown.len() - 1 {
                (sc + 1) as usize
            } else {
                sc
            },
            ..o
        }
        &&& a is Nothing
    } else if key.code == KeyCode::Char('f') {
        &&& n == AppState {
            search_filters: RepoSearchFilters {
                include_forks: !o.search_filters.include_forks,
                ..o.search_filters
            },
            search_cursor: 0,
            ..o
        }
        &&& a is Nothing
    } else if key.code == KeyCode::Char('l') {
        &&& n.search_filters.language.deep_view() == next_language(
            search_languages_spec(seq_views(o.search_results@)),
            o.search_filters.language.deep_view(),
        )
        &&& n == AppState {
            search_filters: RepoSearchFilters { language: n.search_filters.language, ..o.search_filters },
            search_cursor: 0,
            ..o
        }
        &&& a is Nothing
    } else if key.code == KeyCode::Char('m') {
        &&& n == AppState {
            search_filters: RepoSearchFilters {
                min_stars: next_min_stars(o.search_filters.min_stars),
                ..o.search_filters
            },
            search_cursor: 0,
            ..o
        }
        &&& a is Nothing
    } else if key.code == KeyCode::Char('s') {
        &&& n == AppState {
            search_filters: RepoSearchFilters {
                sort: search_sort_next(o.search_filters.sort),
                ..o.search_filters
            },
            search_cursor: 0,
            ..o
        }
        &&& a is Nothing
    } else if key.code == KeyCode::Char('x') {
        &&& is_default_filters(n.search_filters)
        &&& n == AppState { search_filters: n.search_filters, search_cursor: 0, ..o }
        &&& a is Nothing
    } else if key.code == KeyCode::Char('r') {
        &&& n.search_results@.len() == 0
        &&& n == AppState { search_results: n.search_results, search_cursor: 0, ..o }
        &&& a is StartSearch
    } else if key.code == KeyCode::Enter {
        if shown.len() > 0 && sc < shown.len() {
            &&& n.status_message@ == "Parsing URL..."@
            &&& n == AppState { mode: AppMode::Searching, status_message: n.status_message, ..o }
            &&& a matches KeyAction::OpenUrl(u) && u@ == shown[sc as int].html_url
        } else {
            n == o && a is Nothing
        }
    } else if key.code == KeyCode::Esc {
        &&& n == AppState {
            mode: AppMode::Input,
            search_query_version: (o.search_query_version + 1) as u64,
            search_loading: false,
            search_cursor: 0,
            ..o
        }
        &&& a is Nothing
    } else {
        n == o && a is Nothing
    }
}

/// What a key does while a repository is being loaded: Esc gives up.
pub open spec fn searching_step(o: AppState, n: AppState, key: KeyInput, a: KeyAction) -> bool {
    if key.code == KeyCode::Esc {
        &&& n.status_message@ == "Search cancelled"@
        &&& n == AppState { mode: AppMode::Input, status_message: n.status_message, ..o }
        &&& a is Nothing
    } else {
        n == o && a is Nothing
    }
}

/// What a key does on the preview: Esc, q, Q, Backspace, Left or h goes back
/// to the file list.
pub open spec fn preview_step(o: AppState, n: AppState, key: KeyInput, a: KeyAction) -> bool {
    &&& a is Nothing
    &&& if key.code == KeyCode::Esc || key.code == KeyCode::Char('q') || key.code == KeyCode::Char(
        'Q',
    ) || key.code == KeyCode::Backspace || key.code == KeyCode::Left || key.code == KeyCode::Char(
        'h',
    ) {
        n == AppState { mode: AppMode::Browse, ..o }
    } else {
        n == o
    }
}

/// The cursor and scroll offset after a move to row `c`.
pub open spec fn moved_to(o: AppState, n: AppState, c: usize) -> bool {
    n == AppState { cursor: c, scroll_offset: scrolled(c, o.scroll_offset), ..o }
}

/// The selection after some paths were added (or taken out), as a set.
pub open spec fn selection_changed(o: AppState, n: AppState, paths: Seq<Seq<char>>, add: bool) -> bool {
    &&& n.wf()
    &&& forall|q: Seq<char>|
        #[trigger] seq_views(n.selected_paths@).contains(q) <==> (if add {
            seq_views(o.selected_paths@).contains(q) || paths.contains(q)
        } else {
            seq_views(o.selected_paths@).contains(q) && !paths.contains(q)
        })
    &&& n == AppState { selected_paths: n.selected_paths, ..o }
}

/// The paths of items.
pub open spec fn paths_of(items: Seq<crate::github::RepoItemView>) -> Seq<Seq<char>> {
    items.map_values(|i: crate::github::RepoItemView| i.path)
}

/// The items that the selection stands for (see `AppState::get_selected_items`).
pub open spec fn selected_items_spec(o: AppState) -> Seq<crate::github::RepoItemView> {
    selected_of(
        seq_views(match o.full_tree {
            Some(t) => t@,
            None => o.items@,
        }),
        seq_views(o.selected_paths@),
    )
}

/// Going back up a level: to the folder on top of the navigation stack, or to
/// the input screen when there is none.
pub open spec fn back_step(o: AppState, n: AppState, a: KeyAction) -> bool {
    if o.navigation_stack@.len() == 0 {
        n == AppState { mode: AppMode::Input, ..o } && a is Nothing
    } else {
        let (prev_url, prev_cursor) = o.navigation_stack@.last();
        &&& n.navigation_stack@ == o.navigation_stack@.drop_last()
        &&& match o.full_tree {
            Some(t) => {
                &&& seq_views(n.items@) == synced(
                    folder_children_spec(seq_views(t@), prev_url.path@),
                    seq_views(o.selected_paths@),
                )
                &&& n.status_message@.len() == 0
                &&& n == AppState {
                    items: n.items,
                    navigation_stack: n.navigation_stack,
                    current_url: Some(prev_url),
                    cursor: prev_cursor,
                    scroll_offset: 0,
                    status_message: n.status_message,
                    ..o
                }
                &&& a is Nothing
            },
            None => {
                &&& n.status_message@ == "Heading back..."@
                &&& n == AppState {
                    navigation_stack: n.navigation_stack,
                    status_message: n.status_message,
                    ..o
                }
                &&& a matches KeyAction::ReturnToFolder(u, c) && u == prev_url && c == prev_cursor
            },
        }
    }
}

/// The path of the folder that the item under the cursor leads into.
pub open spec fn entered_path(cur: GitHubUrlView, name: Seq<char>) -> Seq<char> {
    if cur.path.len() == 0 {
        name
    } else {
        cur.path + "/"@ + name
    }
}

/// Entering the directory under the cursor, remembering where it was left.
pub open spec fn enter_step(o: AppState, n: AppState, a: KeyAction) -> bool {
    let v = view_items_spec(o);
    if o.cursor < v.len() && is_dir_view(v[o.cursor as int]) && o.current_url is Some {
        let cur = o.current_url.unwrap();
        let new_path = entered_path(cur@, v[o.cursor as int].name);
        let new_url = GitHubUrlView { path: new_path, ..cur@ };
        &&& n.navigation_stack@ == o.navigation_stack@.push((cur, o.cursor))
        &&& match o.full_tree {
            Some(t) => {
                &&& seq_views(n.items@) == synced(
                    prefix_children_spec(seq_views(t@), new_path.push('/')),
                    seq_views(o.selected_paths@),
                )
                &&& n.current_url matches Some(u) && u@ == new_url
                &&& n == AppState {
                    items: n.items,
                    navigation_stack: n.navigation_stack,
                    current_url: n.current_url,
                    cursor: 0,
                    scroll_offset: 0,
                    ..o
                }
                &&& a is Nothing
            },
            None => {
                &&& n == AppState { navigation_stack: n.navigation_stack, ..o }
                &&& a matches KeyAction::EnterFolder(u) && u@ == new_url
            },
        }
    } else {
        n == o && a is Nothing
    }
}

/// Opening the preview of the file under the cursor.
pub open spec fn preview_open_step(o: AppState, n: AppState, a: KeyAction) -> bool {
    let v = view_items_spec(o);
    if o.cursor < v.len() && is_file_view(v[o.cursor as int]) && actual_download_url_view(
        v[o.cursor as int],
    ) is Some {
        let item = v[o.cursor as int];
        &&& n.preview_path@ == item.path
        &&& n.preview_content@.len() == 0
        &&& n == AppState {
            mode: AppMode::Preview,
            preview_path: n.preview_path,
            preview_content: n.preview_content,
            preview_is_image: false,
            preview_loading: true,
            ..o
        }
        &&& a matches KeyAction::Preview { url, path } && url@ == actual_download_url_view(
            item,
        ).unwrap() && path@ == item.path
    } else {
        n == o && a is Nothing
    }
}

/// Starting a download of the selection, or saying that nothing is selected.
pub open spec fn download_step(o: AppState, n: AppState, a: KeyAction) -> bool {
    if selected_items_spec(o).len() == 0 {
        &&& n.toast matches Some(t) && t.duration_secs == 4 && t.message@ == "No items selected!"@ && t.toast_type
            == ToastType::Info
        &&& n == AppState { toast: n.toast, ..o }
        &&& a is Nothing
    } else {
        n == AppState { downloading: true, ..o } && a is Download
    }
}

/// What a key does on the file list.
pub open spec fn browse_step(o: AppState, n: AppState, key: KeyInput, a: KeyAction) -> bool {
    let s = o.is_searching;
    let c = key.code;
    let v = view_items_spec(o);
    if c == KeyCode::Char('q') || c == KeyCode::Char('Q') {
        n == o && a is Quit
    } else if c == KeyCode::Esc && !s {
        n == AppState { mode: AppMode::Input, ..o } && a is Nothing
    } else if c == KeyCode::Esc && s {
        &&& n.search_query@.len() == 0
        &&& n.status_message@.len() == 0
        &&& n == AppState {
            is_searching: false,
            search_query: n.search_query,
            status_message: n.status_message,
            ..o
        }
        &&& a is Nothing
    } else if c == KeyCode::Enter && s {
        &&& n.status_message@.len() == 0
        &&& n == AppState { is_searching: false, status_message: n.status_message, ..o }
        &&& a is Nothing
    } else if c == KeyCode::Char('i') && !s {
        &&& n.toast matches Some(t) && t.duration_secs == 4 && t.toast_type == ToastType::Info && t.message@ == match icon_mode_next(o.icon_mode) {
            IconMode::Emoji => "Emoji Icons"@,
            IconMode::Ascii => "ASCII Icons"@,
            IconMode::NerdFont => "Nerd Font Icons"@,
        }
        &&& n == AppState { icon_mode: icon_mode_next(o.icon_mode), toast: n.toast, ..o }
        &&& a is Nothing
    } else if c == KeyCode::Up || (c == KeyCode::Char('k') && !s) {
        moved_to(o, n, if o.cursor > 0 { (o.cursor - 1) as usize } else { o.cursor }) && a is Nothing
    } else if c == KeyCode::Down || (c == KeyCode::Char('j') && !s) {
        moved_to(o, n, if v.len() > 0 && o.cursor < v.len() - 1 { (o.cursor + 1) as usize } else { o.cursor })
            && a is Nothing
    } else if c == KeyCode::Home || (c == KeyCode::Char('g') && !s) {
        moved_to(o, n, 0) && a is Nothing
    } else if c == KeyCode::End || (c == KeyCode::Char('G') && !s) {
        moved_to(o, n, if v.len() > 0 { (v.len() - 1) as usize } else { o.cursor }) && a is Nothing
    } else if c == KeyCode::Char(' ') {
        &&& a is Nothing
        &&& if o.cursor < v.len() {
            let p = v[o.cursor as int].path;
            selection_changed(o, n, seq![p], !seq_views(o.selected_paths@).contains(p))
        } else {
            n == o
        }
    } else if c == KeyCode::Char('a') && !s {
        selection_changed(o, n, paths_of(v), true) && a is Nothing
    } else if c == KeyCode::Char('u') && !s {
        selection_changed(o, n, paths_of(v), false) && a is Nothing
    } else if c == KeyCode::Char('/') {
        &&& n.search_query@ == if s { Seq::<char>::empty() } else { o.search_query@ }
        &&& n == AppState { is_searching: !s, search_query: n.search_query, ..o }
        &&& a is Nothing
    } else if (c is Char) && s {
        &&& n.search_query@ == o.search_query@.push(c->0)
        &&& n == AppState { search_query: n.search_query, cursor: 0, scroll_offset: 0, ..o }
        &&& a is Nothing
    } else if c == KeyCode::Backspace && s {
        &&& n.search_query@ == if o.search_query@.len() > 0 {
            o.search_query@.drop_last()
        } else {
            o.search_query@
        }
        &&& n == AppState { search_query: n.search_query, cursor: 0, scroll_offset: 0, ..o }
        &&& a is Nothing
    } else if (c == KeyCode::Backspace || c == KeyCode::Left || c == KeyCode::Char('h')) && !s {
        back_step(o, n, a)
    } else if (c == KeyCode::Char('p') || c == KeyCode::Char('P')) && !s {
        preview_open_step(o, n, a)
    } else if (c == KeyCode::Enter || c == KeyCode::Right || c == KeyCode::Char('l')) && !s {
        enter_step(o, n, a)
    } else if (c == KeyCode::Char('d') || c == KeyCode::Char('D')) && !s {
        download_step(o, n, a)
    } else {
        n == o && a is Nothing
    }
}

/// What a key press does: Ctrl+Q or Ctrl+C leaves from anywhere; otherwise
/// the screen decides.
pub open spec fn key_step(o: AppState, n: AppState, key: KeyInput, a: KeyAction) -> bool {
    if is_quit_chord(key) {
        n == o && a is Quit
    } else {
        match o.mode {
            AppMode::Input => input_step(o, n, key, a),
            AppMode::RepositorySearch => repo_search_step(o, n, key, a),
            AppMode::Searching => searching_step(o, n, key, a),
            AppMode::Browse => browse_step(o, n, key, a),
            AppMode::Preview => preview_step(o, n, key, a),
        }
    }
}

/// The characters of `s` with `c` put in at index `i`.
fn insert_char_at(s: &str, i: usize, c: char) -> (r: String)
    requires
        i <= s@.len(),
    ensures
        r@ == s@.insert(i as int, c),
{
    let v = chars_of(s);
    let mut out: Vec<char> = Vec::new();
    for k in 0..i
        invariant
            i <= v@.len(),
            out@ == v@.take(k as int),
    {
        out.push(v[k]);
        assert(out@ =~= v@.take(k + 1));
    }
    out.push(c);
    for k in i..v.len()
        invariant
            i <= v@.len(),
            out@ == v@.take(i as int).push(c) + v@.subrange(i as int, k as int),
    {
        out.push(v[k]);
        assert(out@ =~= v@.take(i as int).push(c) + v@.subrange(i as int, k + 1));
    }
    assert(out@ =~= s@.insert(i as int, c));
    string_of(out.as_slice())
}

/// The characters of `s` without the one at index `i`.
fn remove_char_at(s: &str, i: usize) -> (r: String)
    requires
        i < s@.len(),
    ensures
        r@ == s@.remove(i as int),
{
    let v = chars_of(s);
    let mut out: Vec<char> = Vec::new();
    for k in 0..v.len()
        invariant
            i < v@.len(),
            out@ == (if k <= i {
                v@.take(k as int)
            } else {
                v@.take(i as int) + v@.subrange(i + 1, k as int)
            }),
    {
        if k != i {
            out.push(v[k]);
        }
        if k < i {
            assert(out@ =~= v@.take(k + 1));
        } else if k == i {
            assert(out@ =~= v@.take(i as int) + v@.subrange(i + 1, k + 1));
        } else {
            assert(out@ =~= v@.take(i as int) + v@.subrange(i + 1, k + 1));
        }
    }
    assert(out@ =~= s@.remove(i as int));
    string_of(out.as_slice())
}

impl AppState {
    /// Abandons the search under way and clears its results.
    fn cancel_and_clear(&mut self)
        requires
            old(self).search_query_version < u64::MAX,
        ensures
            cancelled_fields(*old(self), *final(self)),
            *final(self) == (AppState {
                search_query_version: final(self).search_query_version,
                search_loading: final(self).search_loading,
                search_cursor: final(self).search_cursor,
                search_results: final(self).search_results,
                ..*old(self)
            }),
    {
        self.cancel_repo_search(true);
    }

    /// A character typed on the input screen.
    fn input_char(&mut self, key: KeyInput, c: char) -> (a: KeyAction)
        requires
            old(self).wf(),
            old(self).url_input@.len() < usize::MAX,
            key.code == KeyCode::Char(c),
        ensures
            input_step(*old(self), *final(self), key, a),
            final(self).wf(),
    {
        let plain = !key.ctrl && !key.alt && !key.super_key;
        if key.ctrl && (c == 'w' || c == 'u') {
            self.url_input = String::new();
            self.url_cursor = 0;
        } else if key.ctrl && c == 'v' {
        } else if plain {
            let len = self.url_input.as_str().unicode_len();
            let at = if self.url_cursor <= len {
                self.url_cursor
            } else {
                len
            };
            self.url_input = insert_char_at(self.url_input.as_str(), at, c);
            self.url_cursor = self.url_cursor + 1;
        }
        KeyAction::Nothing
    }

    /// Backspace on the input screen.
    fn input_backspace(&mut self, key: KeyInput) -> (a: KeyAction)
        requires
            old(self).wf(),
            key.code == KeyCode::Backspace,
        ensures
            input_step(*old(self), *final(self), key, a),
            final(self).wf(),
    {
        if key.ctrl || key.alt || key.super_key {
            self.url_input = String::new();
            self.url_cursor = 0;
            self.search_results.clear();
        } else if self.url_cursor > 0 {
            self.url_input = remove_char_at(self.url_input.as_str(), self.url_cursor - 1);
            self.url_cursor = self.url_cursor - 1;
        }
        KeyAction::Nothing
    }

    /// Delete, Left or Right on the input screen.
    fn input_edit(&mut self, key: KeyInput) -> (a: KeyAction)
        requires
            old(self).wf(),
            key.code == KeyCode::Delete || key.code == KeyCode::Left || key.code == KeyCode::Right,
        ensures
            input_step(*old(self), *final(self), key, a),
            final(self).wf(),
    {
        let len = self.url_input.as_str().unicode_len();
        if key.code == KeyCode::Delete {
            if self.url_cursor < len {
                self.url_input = remove_char_at(self.url_input.as_str(), self.url_cursor);
                KeyAction::StartSearch
            } else {
                KeyAction::Nothing
            }
        } else if key.code == KeyCode::Left {
            if self.url_cursor > 0 {
                self.url_cursor = self.url_cursor - 1;
            }
            KeyAction::Nothing
        } else {
            if self.url_cursor < len {
                self.url_cursor = self.url_cursor + 1;
            }
            KeyAction::Nothing
        }
    }

    /// Tab or Esc on the input screen.
    fn input_tab_esc(&mut self, key: KeyInput) -> (a: KeyAction)
        requires
            old(self).wf(),
            old(self).search_query_version < u64::MAX,
            key.code == KeyCode::Tab || key.code == KeyCode::Esc,
        ensures
            input_step(*old(self), *final(self), key, a),
            final(self).wf(),
    {
        if key.code == KeyCode::Tab {
            let target = chars_of("https://github.com/");
            let input = chars_of(self.url_input.as_str());
            proof {
                reveal_strlit("https://github.com/");
            }
            if input.len() == 0 || (starts_with(target.as_slice(), input.as_slice()) && input.len()
                < target.len()) {
                self.cancel_and_clear();
                self.url_input = string_of(target.as_slice());
                self.url_cursor = 19;
            }
            KeyAction::Nothing
        } else {
            if self.url_input.as_str().unicode_len() > 0 {
                self.cancel_and_clear();
                self.url_input = String::new();
                self.url_cursor = 0;
                KeyAction::Nothing
            } else {
                KeyAction::Quit
            }
        }
    }

    /// Enter on the input screen.
    fn input_enter(&mut self, key: KeyInput) -> (a: KeyAction)
        requires
            old(self).wf(),
            old(self).search_query_version < u64::MAX,
            key.code == KeyCode::Enter,
        ensures
            input_step(*old(self), *final(self), key, a),
            final(self).wf(),
    {
        let input = chars_of(self.url_input.as_str());
        let http = chars_of("http");
        if input.len() == 0 {
            KeyAction::Nothing
        } else if starts_with(input.as_slice(), http.as_slice()) {
            let url = self.url_input.clone();
            self.cancel_and_clear();
            self.mode = AppMode::Searching;
            self.status_message = crate::text::copy_str("Parsing URL...");
            KeyAction::OpenUrl(url)
        } else {
            self.mode = AppMode::RepositorySearch;
            self.search_results.clear();
            self.search_cursor = 0;
            self.reset_repo_search_filters();
            KeyAction::StartSearch
        }
    }

    /// A key press on the input screen.
    fn handle_input_key(&mut self, key: KeyInput) -> (a: KeyAction)
        requires
            old(self).wf(),
            old(self).url_input@.len() < usize::MAX,
            old(self).search_query_version < u64::MAX,
        ensures
            input_step(*old(self), *final(self), key, a),
            final(self).wf(),
    {
        match key.code {
            KeyCode::Char(c) => self.input_char(key, c),
            KeyCode::Backspace => self.input_backspace(key),
            KeyCode::Delete | KeyCode::Left | KeyCode::Right => self.input_edit(key),
            KeyCode::Tab | KeyCode::Esc => self.input_tab_esc(key),
            KeyCode::Enter => self.input_enter(key),
            _ => KeyAction::Nothing,
        }
    }
}

impl AppState {
    /// Up, Down or Enter on the repository search screen.
    fn repo_search_move(&mut self, key: KeyInput) -> (a: KeyAction)
        requires
            key.code == KeyCode::Up || key.code == KeyCode::Char('k') || key.code == KeyCode::Down
                || key.code == KeyCode::Char('j') || key.code == KeyCode::Enter,
        ensures
            repo_search_step(*old(self), *final(self), key, a),
    {
        let shown = self.get_filtered_search_results();
        if key.code == KeyCode::Up || key.code == KeyCode::Char('k') {
            if shown.len() > 0 && self.search_cursor > 0 {
                self.search_cursor = self.search_cursor - 1;
            }
            KeyAction::Nothing
        } else if key.code == KeyCode::Down || key.code == KeyCode::Char('j') {
            if shown.len() > 0 && self.search_cursor < shown.len() - 1 {
                self.search_cursor = self.search_cursor + 1;
            }
            KeyAction::Nothing
        } else {
            if shown.len() > 0 && self.search_cursor < shown.len() {
                assert(seq_views(shown@)[self.search_cursor as int]
                    == shown@[self.search_cursor as int]@);
                let url = shown[self.search_cursor].html_url.clone();
                self.mode = AppMode::Searching;
                self.status_message = crate::text::copy_str("Parsing URL...");
                KeyAction::OpenUrl(url)
            } else {
                KeyAction::Nothing
            }
        }
    }

    /// A filter key (f, l, m, s, x) on the repository search screen.
    fn repo_search_filter(&mut self, key: KeyInput) -> (a: KeyAction)
        requires
            key.code == KeyCode::Char('f') || key.code == KeyCode::Char('l') || key.code
                == KeyCode::Char('m') || key.code == KeyCode::Char('s') || key.code
                == KeyCode::Char('x'),
        ensures
            repo_search_step(*old(self), *final(self), key, a),
    {
        if key.code == KeyCode::Char('f') {
            self.search_filters.include_forks = !self.search_filters.include_forks;
            self.search_cursor = 0;
        } else if key.code == KeyCode::Char('l') {
            self.cycle_repo_search_language();
        } else if key.code == KeyCode::Char('m') {
            self.cycle_repo_search_min_stars();
        } else if key.code == KeyCode::Char('s') {
            self.search_filters.sort = self.search_filters.sort.next();
            self.search_cursor = 0;
        } else {
            self.reset_repo_search_filters();
        }
        KeyAction::Nothing
    }

    /// A key press on the repository search screen.
    fn handle_repo_search_key(&mut self, key: KeyInput) -> (a: KeyAction)
        requires
            old(self).search_query_version < u64::MAX,
        ensures
            repo_search_step(*old(self), *final(self), key, a),
    {
        if key.code == KeyCode::Up || key.code == KeyCode::Char('k') || key.code == KeyCode::Down
            || key.code == KeyCode::Char('j') || key.code == KeyCode::Enter {
            self.repo_search_move(key)
        } else if key.code == KeyCode::Char('f') || key.code == KeyCode::Char('l') || key.code
            == KeyCode::Char('m') || key.code == KeyCode::Char('s') || key.code == KeyCode::Char(
            'x',
        ) {
            self.repo_search_filter(key)
        } else if key.code == KeyCode::Char('r') {
            self.search_results.clear();
            self.search_cursor = 0;
            KeyAction::StartSearch
        } else if key.code == KeyCode::Esc {
            self.cancel_repo_search(false);
            self.mode = AppMode::Input;
            KeyAction::Nothing
        } else {
            KeyAction::Nothing
        }
    }

    /// A key press while a repository is being loaded.
    fn handle_searching_key(&mut self, key: KeyInput) -> (a: KeyAction)
        ensures
            searching_step(*old(self), *final(self), key, a),
    {
        if key.code == KeyCode::Esc {
            self.mode = AppMode::Input;
            self.status_message = crate::text::copy_str("Search cancelled");
        }
        KeyAction::Nothing
    }

    /// A key press on the preview.
    fn handle_preview_key(&mut self, key: KeyInput) -> (a: KeyAction)
        ensures
            preview_step(*old(self), *final(self), key, a),
    {
        if key.code == KeyCode::Esc || key.code == KeyCode::Char('q') || key.code == KeyCode::Char(
            'Q',
        ) || key.code == KeyCode::Backspace || key.code == KeyCode::Left || key.code
            == KeyCode::Char('h') {
            self.mode = AppMode::Browse;
        }
        KeyAction::Nothing
    }
}

/// A single-element sequence contains only its element.
proof fn lemma_single_contains(p: Seq<char>, q: Seq<char>)
    ensures
        seq![p].contains(q) <==> q == p,
{
    if q == p {
        assert(seq![p][0] == q);
    }
}

impl AppState {
    /// q, Esc, Enter while searching, i, / and the keys that edit the query.
    fn browse_simple(&mut self, key: KeyInput) -> (a: KeyAction)
        requires
            ({
                let s = old(self).is_searching;
                let c = key.code;
                ||| c == KeyCode::Char('q') || c == KeyCode::Char('Q')
                ||| c == KeyCode::Esc
                ||| c == KeyCode::Enter && s
                ||| c == KeyCode::Char('i') && !s
                ||| c == KeyCode::Char('/')
                ||| (c is Char) && s && c != KeyCode::Char(' ')
                ||| c == KeyCode::Backspace && s
            }),
        ensures
            browse_step(*old(self), *final(self), key, a),
    {
        let s = self.is_searching;
        let c = key.code;
        if c == KeyCode::Char('q') || c == KeyCode::Char('Q') {
            KeyAction::Quit
        } else if c == KeyCode::Esc && !s {
            self.mode = AppMode::Input;
            KeyAction::Nothing
        } else if c == KeyCode::Esc {
            self.is_searching = false;
            self.search_query = String::new();
            self.status_message = String::new();
            KeyAction::Nothing
        } else if c == KeyCode::Enter {
            self.is_searching = false;
            self.status_message = String::new();
            KeyAction::Nothing
        } else if c == KeyCode::Char('i') && !s {
            let next = self.icon_mode.next();
            self.icon_mode = next;
            let msg = crate::text::copy_str(next.as_str());
            self.show_toast(msg, ToastType::Info);
            KeyAction::Nothing
        } else if c == KeyCode::Char('/') {
            self.is_searching = !s;
            if s {
                self.search_query = String::new();
            }
            KeyAction::Nothing
        } else if c == KeyCode::Backspace {
            let q = chars_of(self.search_query.as_str());
            if q.len() > 0 {
                let mut kept: Vec<char> = Vec::new();
                for k in 0..q.len() - 1
                    invariant
                        q@.len() > 0,
                        kept@ == q@.take(k as int),
                {
                    kept.push(q[k]);
                    assert(kept@ =~= q@.take(k + 1));
                }
                assert(kept@ =~= q@.drop_last());
                self.search_query = string_of(kept.as_slice());
            }
            self.cursor = 0;
            self.scroll_offset = 0;
            KeyAction::Nothing
        } else {
            match c {
                KeyCode::Char(ch) => {
                    push_char(&mut self.search_query, ch);
                },
                _ => {},
            }
            self.cursor = 0;
            self.scroll_offset = 0;
            KeyAction::Nothing
        }
    }

    /// The keys that move the cursor on the file list.
    fn browse_move(&mut self, key: KeyInput) -> (a: KeyAction)
        requires
            ({
                let s = old(self).is_searching;
                let c = key.code;
                ||| c == KeyCode::Up || (c == KeyCode::Char('k') && !s)
                ||| c == KeyCode::Down || (c == KeyCode::Char('j') && !s)
                ||| c == KeyCode::Home || (c == KeyCode::Char('g') && !s)
                ||| c == KeyCode::End || (c == KeyCode::Char('G') && !s)
            }),
        ensures
            browse_step(*old(self), *final(self), key, a),
    {
        let s = self.is_searching;
        let c = key.code;
        if c == KeyCode::Up || (c == KeyCode::Char('k') && !s) {
            self.move_up();
        } else if c == KeyCode::Down || (c == KeyCode::Char('j') && !s) {
            let count = self.get_view_items().len();
            self.move_down(count);
        } else if c == KeyCode::Home || (c == KeyCode::Char('g') && !s) {
            self.move_top();
        } else {
            let count = self.get_view_items().len();
            self.move_bottom(count);
        }
        KeyAction::Nothing
    }

    /// Space, a and u: the selection.
    fn browse_select(&mut self, key: KeyInput) -> (a: KeyAction)
        requires
            old(self).wf(),
            key.code == KeyCode::Char(' ') || (key.code == KeyCode::Char('a')
                && !old(self).is_searching) || (key.code == KeyCode::Char('u')
                && !old(self).is_searching),
        ensures
            browse_step(*old(self), *final(self), key, a),
    {
        let items = self.get_view_items();
        let ghost v = seq_views(items@);
        if key.code == KeyCode::Char(' ') {
            if self.cursor < items.len() {
                assert(v[self.cursor as int] == items@[self.cursor as int]@);
                let path = items[self.cursor].path.clone();
                let ghost p = path@;
                if contains_path(self.selected_paths.as_slice(), path.as_str()) {
                    remove_path(&mut self.selected_paths, path.as_str());
                } else {
                    insert_path(&mut self.selected_paths, path.as_str());
                }
                assert forall|q: Seq<char>| #[trigger] seq![p].contains(q) <==> q == p by {
                    lemma_single_contains(p, q);
                }
            }
            KeyAction::Nothing
        } else {
            let add = key.code == KeyCode::Char('a');
            let ghost sel0 = seq_views(self.selected_paths@);
            let ghost o = *self;
            assert(paths_of(v).take(0) =~= Seq::<Seq<char>>::empty());
            for i in 0..items.len()
                invariant
                    v == seq_views(items@),
                    sel0 == seq_views(o.selected_paths@),
                    self.wf(),
                    *self == (AppState { selected_paths: self.selected_paths, ..o }),
                    forall|q: Seq<char>|
                        #[trigger] seq_views(self.selected_paths@).contains(q) <==> (if add {
                            sel0.contains(q) || paths_of(v).take(i as int).contains(q)
                        } else {
                            sel0.contains(q) && !paths_of(v).take(i as int).contains(q)
                        }),
            {
                assert(v[i as int] == items@[i as int]@);
                let path = items[i].path.clone();
                if add {
                    insert_path(&mut self.selected_paths, path.as_str());
                } else {
                    remove_path(&mut self.selected_paths, path.as_str());
                }
                assert(paths_of(v).take(i + 1) =~= paths_of(v).take(i as int).push(path@));
                assert forall|q: Seq<char>| #[trigger] paths_of(v).take(i + 1).contains(q) <==> (
                paths_of(v).take(i as int).contains(q) || q == path@) by {
                    let t = paths_of(v).take(i as int);
                    if t.push(path@).contains(q) {
                        let k = choose|k: int| 0 <= k < t.push(path@).len() && t.push(path@)[k] == q;
                        if k < t.len() {
                            assert(t[k] == q);
                        }
                    }
                    if t.contains(q) {
                        let k = choose|k: int| 0 <= k < t.len() && t[k] == q;
                        assert(t.push(path@)[k] == q);
                    }
                    if q == path@ {
                        assert(t.push(path@)[t.len() as int] == q);
                    }
                }
            }
            assert(paths_of(v).take(items@.len() as int) =~= paths_of(v));
            KeyAction::Nothing
        }
    }

    /// Going back up a level.
    fn browse_back(&mut self) -> (a: KeyAction)
        ensures
            back_step(*old(self), *final(self), a),
    {
        let ghost o = *self;
        if self.navigation_stack.len() == 0 {
            self.mode = AppMode::Input;
            return KeyAction::Nothing;
        }
        match self.navigation_stack.pop() {
            None => KeyAction::Nothing,
            Some((prev_url, prev_cursor)) => {
                assert((prev_url, prev_cursor) == o.navigation_stack@.last());
                assert(self.navigation_stack@ == o.navigation_stack@.drop_last());
                self.status_message = crate::text::copy_str("Heading back...");
                let next = match &self.full_tree {
                    Some(t) => Some(folder_children(t.as_slice(), prev_url.path.as_str())),
                    None => None,
                };
                match next {
                    Some(items) => {
                        self.items = items;
                        self.sync_selections();
                        self.current_url = Some(prev_url);
                        self.cursor = prev_cursor;
                        self.scroll_offset = 0;
                        self.status_message = String::new();
                        assert(o.full_tree is Some);
                        assert(seq_views(self.items@) == synced(
                            folder_children_spec(seq_views(o.full_tree.unwrap()@), prev_url.path@),
                            seq_views(o.selected_paths@),
                        ));
                        assert(self.status_message@.len() == 0);
                        assert(*self == AppState {
                            items: self.items,
                            navigation_stack: self.navigation_stack,
                            current_url: Some(prev_url),
                            cursor: prev_cursor,
                            scroll_offset: 0,
                            status_message: self.status_message,
                            ..o
                        });
                        KeyAction::Nothing
                    },
                    None => {
                        assert(*self == AppState {
                            navigation_stack: self.navigation_stack,
                            status_message: self.status_message,
                            ..o
                        });
                        KeyAction::ReturnToFolder(prev_url, prev_cursor)
                    },
                }
            },
        }
    }

    /// Entering the directory under the cursor.
    fn browse_enter(&mut self) -> (a: KeyAction)
        ensures
            enter_step(*old(self), *final(self), a),
    {
        let items = self.get_view_items();
        let ghost v = seq_views(items@);
        if self.cursor >= items.len() {
            return KeyAction::Nothing;
        }
        assert(v[self.cursor as int] == items@[self.cursor as int]@);
        let item = &items[self.cursor];
        if !item.is_dir() {
            return KeyAction::Nothing;
        }
        let cur = match &self.current_url {
            Some(u) => u.clone(),
            None => {
                return KeyAction::Nothing;
            },
        };
        self.navigation_stack.push((cur.clone(), self.cursor));
        let mut new_path = String::new();
        if cur.path.as_str().unicode_len() > 0 {
            crate::text::append_str(&mut new_path, cur.path.as_str());
            crate::text::append_str(&mut new_path, "/");
        }
        crate::text::append_str(&mut new_path, item.name.as_str());
        assert(new_path@ =~= entered_path(cur@, item@.name));
        let new_url = GitHubUrl {
            owner: cur.owner,
            repo: cur.repo,
            branch: cur.branch,
            path: new_path,
        };
        let next = match &self.full_tree {
            Some(t) => {
                let mut prefix = chars_of(new_url.path.as_str());
                prefix.push('/');
                Some(prefix_children(t.as_slice(), prefix.as_slice()))
            },
            None => None,
        };
        match next {
            Some(children) => {
                self.items = children;
                self.sync_selections();
                self.current_url = Some(new_url);
                self.cursor = 0;
                self.scroll_offset = 0;
                KeyAction::Nothing
            },
            None => KeyAction::EnterFolder(new_url),
        }
    }

    /// Opening the preview of the file under the cursor.
    fn browse_preview(&mut self) -> (a: KeyAction)
        ensures
            preview_open_step(*old(self), *final(self), a),
    {
        let items = self.get_view_items();
        let ghost v = seq_views(items@);
        if self.cursor >= items.len() {
            return KeyAction::Nothing;
        }
        assert(v[self.cursor as int] == items@[self.cursor as int]@);
        let item = &items[self.cursor];
        if !item.is_file() {
            return KeyAction::Nothing;
        }
        match item.actual_download_url() {
            None => KeyAction::Nothing,
            Some(u) => {
                let url = u.clone();
                let path = item.path.clone();
                self.mode = AppMode::Preview;
                self.preview_path = item.path.clone();
                self.preview_content = String::new();
                self.preview_is_image = false;
                self.preview_loading = true;
                KeyAction::Preview { url, path }
            },
        }
    }

    /// Starting a download.
    fn browse_download(&mut self) -> (a: KeyAction)
        ensures
            download_step(*old(self), *final(self), a),
    {
        let selected = self.get_selected_items();
        if selected.len() == 0 {
            self.show_toast(crate::text::copy_str("No items selected!"), ToastType::Info);
            KeyAction::Nothing
        } else {
            self.downloading = true;
            KeyAction::Download
        }
    }
}

impl AppState {
    /// A key press on the file list.
    fn handle_browse_key(&mut self, key: KeyInput) -> (a: KeyAction)
        requires
            old(self).wf(),
        ensures
            browse_step(*old(self), *final(self), key, a),
    {
        let s = self.is_searching;
        let c = key.code;
        let is_char = match c {
            KeyCode::Char(_) => true,
            _ => false,
        };
        if c == KeyCode::Char('q') || c == KeyCode::Char('Q') || c == KeyCode::Esc || (c
            == KeyCode::Enter && s) || (c == KeyCode::Char('i') && !s) {
            self.browse_simple(key)
        } else if c == KeyCode::Up || (c == KeyCode::Char('k') && !s) || c == KeyCode::Down || (c
            == KeyCode::Char('j') && !s) || c == KeyCode::Home || (c == KeyCode::Char('g') && !s)
            || c == KeyCode::End || (c == KeyCode::Char('G') && !s) {
            self.browse_move(key)
        } else if c == KeyCode::Char(' ') || (c == KeyCode::Char('a') && !s) || (c
            == KeyCode::Char('u') && !s) {
            self.browse_select(key)
        } else if c == KeyCode::Char('/') || (is_char && s) || (c == KeyCode::Backspace && s) {
            self.browse_simple(key)
        } else if (c == KeyCode::Backspace || c == KeyCode::Left || c == KeyCode::Char('h')) && !s {
            self.browse_back()
        } else if (c == KeyCode::Char('p') || c == KeyCode::Char('P')) && !s {
            self.browse_preview()
        } else if (c == KeyCode::Enter || c == KeyCode::Right || c == KeyCode::Char('l')) && !s {
            self.browse_enter()
        } else if (c == KeyCode::Char('d') || c == KeyCode::Char('D')) && !s {
            self.browse_download()
        } else {
            KeyAction::Nothing
        }
    }

    /// Handles a key press: Ctrl+Q or Ctrl+C leaves from anywhere; otherwise
    /// what the key does depends on the screen (see [`key_step`]). Work that
    /// lies outside the state is handed back as the action.
    pub fn handle_key(&mut self, key: KeyInput) -> (a: KeyAction)
        requires
            old(self).wf(),
            old(self).url_input@.len() < usize::MAX,
            old(self).search_query_version < u64::MAX,
        ensures
            key_step(*old(self), *final(self), key, a),
            final(self).wf(),
    {
        if key.ctrl && (key.code == KeyCode::Char('q') || key.code == KeyCode::Char('c')) {
            return KeyAction::Quit;
        }
        match self.mode {
            AppMode::Input => self.handle_input_key(key),
            AppMode::RepositorySearch => self.handle_repo_search_key(key),
            AppMode::Searching => self.handle_searching_key(key),
            AppMode::Browse => self.handle_browse_key(key),
            AppMode::Preview => self.handle_preview_key(key),
        }
    }
}

} // verus!
