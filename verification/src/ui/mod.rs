//! The state of the terminal interface and the decisions it makes.
use vstd::prelude::*;

pub mod browse;
pub mod display;
pub mod events;
pub mod folders;
pub mod keys;
pub mod search;
pub mod toast;

use crate::github::{GitHubUrl, RepoItem};
use crate::ui::search::SearchItem;
use crate::ui::toast::{Toast, ToastType};
pub use crate::ui::folders::FolderSizes;

verus! {

/// The screen that the interface shows.
#[derive(Debug, Clone, Copy, PartialEq, Eq, Structural)]
pub enum AppMode {
    Input,
    Searching,
    RepositorySearch,
    Browse,
    Preview,
}

/// How file icons are drawn.
#[derive(Debug, Clone, Copy, PartialEq, Eq, Structural)]
pub enum IconMode {
    Emoji,
    Ascii,
    NerdFont,
}

/// The icon mode that the icon key switches to from `m`: it toggles between
/// Emoji and ASCII; from Nerd Font it goes to Emoji.
pub open spec fn icon_mode_next(m: IconMode) -> IconMode {
    match m {
        IconMode::Emoji => IconMode::Ascii,
        IconMode::Ascii => IconMode::Emoji,
        IconMode::NerdFont => IconMode::Emoji,
    }
}

impl IconMode {
    /// The icon mode that the icon key switches to: Emoji and ASCII toggle;
    /// Nerd Font goes to Emoji.
    pub fn next(self) -> (r: Self)
        ensures
            r == icon_mode_next(self),
    {
        match self {
            IconMode::Emoji => IconMode::Ascii,
            IconMode::Ascii => IconMode::Emoji,
            IconMode::NerdFont => IconMode::Emoji,
        }
    }

    /// The mode's label.
    pub fn as_str(self) -> (r: &'static str)
        ensures
            r@ == match self {
                IconMode::Emoji => "Emoji Icons"@,
                IconMode::Ascii => "ASCII Icons"@,
                IconMode::NerdFont => "Nerd Font Icons"@,
            },
    {
        match self {
            IconMode::Emoji => "Emoji Icons",
            IconMode::Ascii => "ASCII Icons",
            IconMode::NerdFont => "Nerd Font Icons",
        }
    }
}

/// How repository search results are ordered.
#[derive(Debug, Clone, Copy, PartialEq, Eq, Structural)]
pub enum RepoSearchSort {
    Stars,
    Updated,
    Name,
}

/// The order that follows `s` in the cycle Stars, Updated, Name.
pub open spec fn search_sort_next(s: RepoSearchSort) -> RepoSearchSort {
    match s {
        RepoSearchSort::Stars => RepoSearchSort::Updated,
        RepoSearchSort::Updated => RepoSearchSort::Name,
        RepoSearchSort::Name => RepoSearchSort::Stars,
    }
}

impl RepoSearchSort {
    /// The next order: Stars, then Updated, then Name, then Stars again.
    pub fn next(self) -> (r: Self)
        ensures
            r == search_sort_next(self),
    {
        match self {
            RepoSearchSort::Stars => RepoSearchSort::Updated,
            RepoSearchSort::Updated => RepoSearchSort::Name,
            RepoSearchSort::Name => RepoSearchSort::Stars,
        }
    }
}

/// The filters of repository search.
#[derive(Debug)]
pub struct RepoSearchFilters {
    pub include_forks: bool,
    pub min_stars: u32,
    pub language: Option<String>,
    pub sort: RepoSearchSort,
}

/// The filters are the defaults: no forks, any star count, any language, by stars.
pub open spec fn is_default_filters(f: RepoSearchFilters) -> bool {
    &&& !f.include_forks
    &&& f.min_stars == 0
    &&& f.language is None
    &&& f.sort == RepoSearchSort::Stars
}

impl Default for RepoSearchFilters {
    /// No forks, any star count, any language, sorted by stars.
    fn default() -> (r: Self)
        ensures
            is_default_filters(r),
    {
        RepoSearchFilters {
            include_forks: false,
            min_stars: 0,
            language: None,
            sort: RepoSearchSort::Stars,
        }
    }
}

impl Clone for RepoSearchFilters {
    fn clone(&self) -> (r: Self)
        ensures
            r == *self,
    {
        RepoSearchFilters {
            include_forks: self.include_forks,
            min_stars: self.min_stars,
            language: crate::github::copy_opt_string(&self.language),
            sort: self.sort,
        }
    }
}


/// The whole state of the interface.
pub struct AppState {
    pub mode: AppMode,
    pub url_input: String,
    pub url_cursor: usize,
    pub current_url: Option<GitHubUrl>,
    pub items: Vec<RepoItem>,
    pub cursor: usize,
    pub scroll_offset: usize,
    pub status_message: String,
    pub downloading: bool,
    pub navigation_stack: Vec<(GitHubUrl, usize)>,
    pub frame_count: u64,
    pub toast: Option<Toast>,
    pub icon_mode: IconMode,
    pub github_token: Option<String>,
    pub download_path: Option<String>,
    pub full_tree: Option<Vec<RepoItem>>,
    pub folder_sizes: FolderSizes,
    pub cwd: bool,
    pub no_folder: bool,
    pub is_searching: bool,
    pub search_query: String,
    pub selected_paths: Vec<String>,
    pub preview_content: String,
    pub preview_path: String,
    pub preview_loading: bool,
    pub preview_is_image: bool,
    pub search_results: Vec<SearchItem>,
    pub search_cursor: usize,
    pub search_query_version: u64,
    pub search_loading: bool,
    pub search_filters: RepoSearchFilters,
}

impl AppState {
    /// The selected paths hold no path twice, and the input cursor stands
    /// within the input.
    pub open spec fn wf(&self) -> bool {
        &&& crate::sort::seq_views(self.selected_paths@).no_duplicates()
        &&& self.url_cursor <= self.url_input@.len()
    }

    /// The state at start-up: the input screen, empty everywhere, emoji icons,
    /// default search filters.
    pub fn new() -> (r: Self)
        ensures
            r.mode == AppMode::Input,
            r.url_input@.len() == 0,
            r.url_cursor == 0,
            r.current_url is None,
            r.items@.len() == 0,
            r.cursor == 0,
            r.scroll_offset == 0,
            r.status_message@.len() == 0,
            !r.downloading,
            r.navigation_stack@.len() == 0,
            r.frame_count == 0,
            r.toast is None,
            r.icon_mode == IconMode::Emoji,
            r.github_token is None,
            r.download_path is None,
            r.full_tree is None,
            r.folder_sizes.entry_views().len() == 0,
            !r.cwd,
            !r.no_folder,
            !r.is_searching,
            r.search_query@.len() == 0,
            r.selected_paths@.len() == 0,
            r.preview_content@.len() == 0,
            r.preview_path@.len() == 0,
            !r.preview_loading,
            !r.preview_is_image,
            r.search_results@.len() == 0,
            r.search_cursor == 0,
            r.search_query_version == 0,
            !r.search_loading,
            is_default_filters(r.search_filters),
            r.wf(),
    {
        AppState {
            mode: AppMode::Input,
            url_input: String::new(),
            url_cursor: 0,
            current_url: None,
            items: Vec::new(),
            cursor: 0,
            scroll_offset: 0,
            status_message: String::new(),
            downloading: false,
            navigation_stack: Vec::new(),
            frame_count: 0,
            toast: None,
            icon_mode: IconMode::Emoji,
            github_token: None,
            download_path: None,
            full_tree: None,
            folder_sizes: FolderSizes::new(),
            cwd: false,
            no_folder: false,
            is_searching: false,
            search_query: String::new(),
            selected_paths: Vec::new(),
            preview_content: String::new(),
            preview_path: String::new(),
            preview_loading: false,
            preview_is_image: false,
            search_results: Vec::new(),
            search_cursor: 0,
            search_query_version: 0,
            search_loading: false,
            search_filters: RepoSearchFilters::default(),
        }
    }

    /// Shows a new notification.
    pub fn show_toast(&mut self, message: String, type_: ToastType)
        ensures
            final(self).toast matches Some(t) && t.message == message && t.toast_type == type_
                && t.duration_secs == 4,
            *final(self) == (AppState { toast: final(self).toast, ..*old(self) }),
    {
        self.toast = Some(Toast::new(message, type_));
    }
}

} // verus!
