//! What the screens show: the texts and choices that drawing needs, computed
//! from the interface's state. Drawing itself is left to the terminal layer.
use vstd::prelude::*;

use crate::text::{
    append_str, chars_of, copy_str, lemma_split_nonempty, push_char, split_chars, split_on,
    string_of, to_uppercase, uppercase_of, utf8_len, utf8_len_at_most,
};
use crate::github::{GitHubUrl, RepoItem, RepoItemView, actual_size_view, is_dir_view};
use crate::sort::seq_views;
use crate::ui::events::{decimal_digits, decimal_string};
use crate::ui::folders::{FolderSizes, lookup};
use crate::ui::search::{SearchItem, SearchItemView};
use crate::ui::toast::ToastType;
use crate::ui::{IconMode, RepoSearchFilters, RepoSearchSort};

verus! {

// ---------------------------------------------------------------------------
// Text helpers
// ---------------------------------------------------------------------------

/// `t` cut to `max` characters: where it is longer, its first `max - 3`
/// characters (none where `max` is below 3) followed by `...`.
pub open spec fn truncated(t: Seq<char>, max: nat) -> Seq<char> {
    if t.len() <= max {
        t
    } else {
        t.take(if max >= 3 { max - 3 } else { 0 }) + "..."@
    }
}

/// The first `n` characters of `v`, as a string.
fn prefix_string(v: &[char], n: usize) -> (r: String)
    requires
        n <= v@.len(),
    ensures
        r@ == v@.take(n as int),
{
    let mut r = String::new();
    for i in 0..n
        invariant
            n <= v@.len(),
            r@ == v@.take(i as int),
    {
        push_char(&mut r, v[i]);
        assert(v@.take(i + 1) == v@.take(i as int).push(v@[i as int]));
    }
    r
}

/// `text` cut to at most `max_chars` characters, marked with `...` where it
/// was cut.
pub fn truncate_text(text: &str, max_chars: usize) -> (r: String)
    ensures
        r@ == truncated(text@, max_chars as nat),
{
    let v = chars_of(text);
    if v.len() <= max_chars {
        copy_str(text)
    } else {
        let keep: usize = if max_chars >= 3 { max_chars - 3 } else { 0 };
        let mut r = prefix_string(v.as_slice(), keep);
        append_str(&mut r, "...");
        r
    }
}

/// The label of a minimum star count: `Any` for none, else the count and `+`.
pub open spec fn min_stars_label(n: u32) -> Seq<char> {
    if n == 0 {
        "Any"@
    } else {
        decimal_digits(n as nat) + "+"@
    }
}

/// The label of the minimum star count filter.
pub fn format_min_stars(min_stars: u32) -> (r: String)
    ensures
        r@ == min_stars_label(min_stars),
{
    if min_stars == 0 {
        copy_str("Any")
    } else {
        let mut r = decimal_string(min_stars as u64);
        append_str(&mut r, "+");
        r
    }
}

/// The date part of a timestamp: what comes before its first `T`.
pub open spec fn date_part(d: Seq<char>) -> Seq<char> {
    split_on(d, 'T')[0]
}

/// The date part of an ISO 8601 timestamp such as `2024-01-02T03:04:05Z`.
pub fn format_date(date: &str) -> (r: String)
    ensures
        r@ == date_part(date@),
{
    let v = chars_of(date);
    let parts = split_chars(v.as_slice(), 'T');
    proof {
        lemma_split_nonempty(v@, 'T');
    }
    string_of(parts[0].as_slice())
}

// ---------------------------------------------------------------------------
// File names and types
// ---------------------------------------------------------------------------

/// The extension of a file name: what follows its last `.` (the whole name
/// where there is none).
pub open spec fn extension_of(name: Seq<char>) -> Seq<char> {
    split_on(name, '.').last()
}

/// The type shown for an entry: `DIR` for a directory; else its extension in
/// upper case where it has one of at most five bytes; else `FILE`.
pub open spec fn file_type_spec(name: Seq<char>, is_dir: bool) -> Seq<char> {
    if is_dir {
        "DIR"@
    } else {
        let ext = extension_of(name);
        if ext.len() > 0 && utf8_len(ext) <= 5 {
            uppercase_of(ext)
        } else {
            "FILE"@
        }
    }
}

/// The type shown for an entry named `name`.
pub fn get_file_type(name: &str, is_dir: bool) -> (r: String)
    ensures
        r@ == file_type_spec(name@, is_dir),
{
    if is_dir {
        return copy_str("DIR");
    }
    let v = chars_of(name);
    let parts = split_chars(v.as_slice(), '.');
    proof {
        lemma_split_nonempty(v@, '.');
    }
    let ext = &parts[parts.len() - 1];
    if ext.len() > 0 && utf8_len_at_most(ext.as_slice(), 5) {
        let e = string_of(ext.as_slice());
        to_uppercase(e.as_str())
    } else {
        copy_str("FILE")
    }
}

/// The index of the last `c` in `s`, or -1 where there is none.
pub open spec fn last_index_of(s: Seq<char>, c: char) -> int
    decreases s.len(),
{
    if s.len() == 0 {
        -1
    } else if s.last() == c {
        s.len() - 1
    } else {
        last_index_of(s.drop_last(), c)
    }
}

/// The index of the last `c` in `s`, if any.
fn last_index_of_exec(s: &[char], c: char) -> (r: Option<usize>)
    ensures
        match r {
            Some(k) => k < s@.len() && k == last_index_of(s@, c),
            None => last_index_of(s@, c) == -1,
        },
{
    let mut i = s.len();
    assert(s@.take(i as int) =~= s@);
    while i > 0
        invariant
            i <= s@.len(),
            last_index_of(s@, c) == last_index_of(s@.take(i as int), c),
        decreases i,
    {
        assert(s@.take(i as int).drop_last() =~= s@.take(i - 1));
        if s[i - 1] == c {
            return Some(i - 1);
        }
        i = i - 1;
    }
    None
}

/// How a long name is shown in the file list: one of more than 35
/// characters keeps its first 30 and its extension where the part before
/// the last `.` is longer than 30, is kept whole where that part is shorter,
/// and keeps its first 35 where it has no `.`; `.....` marks the cut.
pub open spec fn shortened_name(s: Seq<char>) -> Seq<char> {
    if s.len() <= 35 {
        s
    } else {
        let dot = last_index_of(s, '.');
        if dot >= 0 {
            if dot > 30 {
                s.take(30) + "....."@ + s.skip(dot)
            } else {
                s
            }
        } else {
            s.take(35) + "....."@
        }
    }
}

/// The name as the file list shows it.
pub fn shorten_name(source: &str) -> (r: String)
    ensures
        r@ == shortened_name(source@),
{
    let v = chars_of(source);
    if v.len() <= 35 {
        return copy_str(source);
    }
    match last_index_of_exec(v.as_slice(), '.') {
        Some(dot) => {
            if dot > 30 {
                let mut r = prefix_string(v.as_slice(), 30);
                append_str(&mut r, ".....");
                let ghost before = r@;
                for i in dot..v.len()
                    invariant
                        dot <= v@.len(),
                        r@ == before + v@.subrange(dot as int, i as int),
                {
                    push_char(&mut r, v[i]);
                    assert(v@.subrange(dot as int, i + 1) == v@.subrange(dot as int, i as int).push(
                        v@[i as int],
                    ));
                }
                assert(v@.subrange(dot as int, v@.len() as int) =~= v@.skip(dot as int));
                r
            } else {
                copy_str(source)
            }
        },
        None => {
            let mut r = prefix_string(v.as_slice(), 35);
            append_str(&mut r, ".....");
            r
        },
    }
}

// ---------------------------------------------------------------------------
// The file list
// ---------------------------------------------------------------------------

/// The icon drawn before an entry's name.
pub open spec fn icon_spec(mode: IconMode, is_dir: bool) -> Seq<char> {
    match mode {
        IconMode::Ascii => if is_dir {
            "[D] "@
        } else {
            "[F] "@
        },
        IconMode::Emoji => if is_dir {
            "\u{1f4c1} "@
        } else {
            "\u{1f4c4} "@
        },
        IconMode::NerdFont => if is_dir {
            "\u{f024b} "@
        } else {
            "\u{f0214} "@
        },
    }
}

/// The icon drawn before an entry's name.
pub fn icon_for(mode: IconMode, is_dir: bool) -> (r: &'static str)
    ensures
        r@ == icon_spec(mode, is_dir),
{
    match mode {
        IconMode::Ascii => if is_dir {
            "[D] "
        } else {
            "[F] "
        },
        IconMode::Emoji => if is_dir {
            "\u{1f4c1} "
        } else {
            "\u{1f4c4} "
        },
        IconMode::NerdFont => if is_dir {
            "\u{f024b} "
        } else {
            "\u{f0214} "
        },
    }
}

/// What the size column shows for an entry.
#[derive(Debug, Clone, Copy, PartialEq, Eq, Structural)]
pub enum SizeCell {
    /// A size in bytes.
    Bytes(u64),
    /// A file whose size is not known (drawn as `-`).
    Unknown,
    /// A folder with no stored size (drawn empty).
    Blank,
}

/// The size column of an entry: a file's own size; a folder's stored total.
pub open spec fn size_cell_spec(i: RepoItemView, sizes: Seq<(Seq<char>, u64)>) -> SizeCell {
    if !is_dir_view(i) {
        match actual_size_view(i) {
            Some(s) => SizeCell::Bytes(s),
            None => SizeCell::Unknown,
        }
    } else {
        match lookup(sizes, i.path) {
            Some(s) => SizeCell::Bytes(s),
            None => SizeCell::Blank,
        }
    }
}

/// The size column of `item`.
pub fn size_cell(item: &RepoItem, sizes: &FolderSizes) -> (r: SizeCell)
    ensures
        r == size_cell_spec(item@, sizes.entry_views()),
{
    if !item.is_dir() {
        match item.actual_size() {
            Some(s) => SizeCell::Bytes(s),
            None => SizeCell::Unknown,
        }
    } else {
        match sizes.get(item.path.as_str()) {
            Some(s) => SizeCell::Bytes(s),
            None => SizeCell::Blank,
        }
    }
}

/// One line of the file list.
#[derive(Debug)]
pub struct BrowserRow {
    /// The entry is marked for download.
    pub marked: bool,
    /// The cursor is on the entry.
    pub highlighted: bool,
    pub is_dir: bool,
    pub icon: &'static str,
    /// The name as shown (the path while searching), shortened.
    pub name: String,
    pub file_type: String,
    pub size: SizeCell,
}

/// The abstract value of a [`BrowserRow`].
pub struct BrowserRowView {
    pub marked: bool,
    pub highlighted: bool,
    pub is_dir: bool,
    pub icon: Seq<char>,
    pub name: Seq<char>,
    pub file_type: Seq<char>,
    pub size: SizeCell,
}

impl View for BrowserRow {
    type V = BrowserRowView;

    open spec fn view(&self) -> BrowserRowView {
        BrowserRowView {
            marked: self.marked,
            highlighted: self.highlighted,
            is_dir: self.is_dir,
            icon: self.icon@,
            name: self.name@,
            file_type: self.file_type@,
            size: self.size,
        }
    }
}

/// The line of the file list for entry `i`.
pub open spec fn row_spec(
    i: RepoItemView,
    highlighted: bool,
    mode: IconMode,
    searching: bool,
    sizes: Seq<(Seq<char>, u64)>,
) -> BrowserRowView {
    BrowserRowView {
        marked: i.selected,
        highlighted: highlighted,
        is_dir: is_dir_view(i),
        icon: icon_spec(mode, is_dir_view(i)),
        name: shortened_name(
            if searching {
                i.path
            } else {
                i.name
            },
        ),
        file_type: file_type_spec(i.name, is_dir_view(i)),
        size: size_cell_spec(i, sizes),
    }
}

/// What the file browser draws from.
pub struct BrowserState<'a> {
    pub items: &'a [RepoItem],
    pub current_url: Option<&'a GitHubUrl>,
    pub cursor: usize,
    pub scroll_offset: usize,
    pub status_msg: &'a str,
    pub is_downloading: bool,
    pub icon_mode: IconMode,
    pub folder_sizes: &'a FolderSizes,
    pub is_searching: bool,
    pub search_query: &'a str,
}

impl<'a> BrowserState<'a> {
    /// The lines of the file list: one for each entry from the scroll offset on.
    pub open spec fn rows_spec(&self) -> Seq<BrowserRowView> {
        let start = self.scroll_offset as int;
        let n = self.items@.len() as int;
        if start >= n {
            Seq::empty()
        } else {
            Seq::new(
                (n - start) as nat,
                |j: int|
                    row_spec(
                        self.items@[start + j]@,
                        start + j == self.cursor,
                        self.icon_mode,
                        self.is_searching,
                        self.folder_sizes.entry_views(),
                    ),
            )
        }
    }

    /// The lines of the file list.
    pub fn rows(&self) -> (r: Vec<BrowserRow>)
        ensures
            seq_views(r@) == self.rows_spec(),
    {
        let mut r: Vec<BrowserRow> = Vec::new();
        let mut idx = self.scroll_offset;
        while idx < self.items.len()
            invariant
                self.scroll_offset <= idx || self.items@.len() <= self.scroll_offset,
                idx >= self.scroll_offset,
                idx <= self.items@.len() || idx == self.scroll_offset,
                r@.len() == idx - self.scroll_offset,
                forall|j: int|
                    0 <= j < r@.len() ==> #[trigger] r@[j]@ == row_spec(
                        self.items@[self.scroll_offset + j]@,
                        self.scroll_offset + j == self.cursor,
                        self.icon_mode,
                        self.is_searching,
                        self.folder_sizes.entry_views(),
                    ),
            decreases self.items@.len() - idx,
        {
            let item = &self.items[idx];
            let is_dir = item.is_dir();
            let name = if self.is_searching {
                shorten_name(item.path.as_str())
            } else {
                shorten_name(item.name.as_str())
            };
            let row = BrowserRow {
                marked: item.selected,
                highlighted: idx == self.cursor,
                is_dir: is_dir,
                icon: icon_for(self.icon_mode, is_dir),
                name: name,
                file_type: get_file_type(item.name.as_str(), is_dir),
                size: size_cell(item, self.folder_sizes),
            };
            r.push(row);
            idx = idx + 1;
        }
        assert(seq_views(r@) =~= self.rows_spec());
        r
    }

    /// The line above the list: the repository and the path, or that it is
    /// still loading.
    pub fn breadcrumb(&self) -> (r: String)
        ensures
            r@ == match self.current_url {
                Some(u) => " "@ + u.owner@ + "/"@ + u.repo@ + " : "@ + u.path@,
                None => " Loading..."@,
            },
    {
        match self.current_url {
            Some(u) => {
                let mut r = String::new();
                append_str(&mut r, " ");
                append_str(&mut r, u.owner.as_str());
                append_str(&mut r, "/");
                append_str(&mut r, u.repo.as_str());
                append_str(&mut r, " : ");
                append_str(&mut r, u.path.as_str());
                r
            },
            None => copy_str(" Loading..."),
        }
    }

    /// The title of the file list, with the number of entries.
    pub fn files_title(&self) -> (r: String)
        ensures
            r@ == " Files ("@ + decimal_digits(self.items@.len() as nat) + ") "@,
    {
        let mut r = copy_str(" Files (");
        let n = decimal_string(self.items.len() as u64);
        append_str(&mut r, n.as_str());
        append_str(&mut r, ") ");
        r
    }

    /// The line shown while downloading: the latest progress message, or
    /// that the download is starting.
    pub fn download_status(&self) -> (r: String)
        ensures
            r@ == if self.status_msg@.len() == 0 {
                "Starting download..."@
            } else {
                self.status_msg@
            },
    {
        if self.status_msg.unicode_len() == 0 {
            copy_str("Starting download...")
        } else {
            copy_str(self.status_msg)
        }
    }
}

// ---------------------------------------------------------------------------
// The preview
// ---------------------------------------------------------------------------

/// What the preview draws from.
pub struct PreviewState<'a> {
    pub content: &'a str,
    pub path: &'a str,
    pub loading: bool,
    pub is_image: bool,
}

/// What the preview window holds.
#[derive(Debug)]
pub enum PreviewBody {
    /// The content is still on its way.
    Loading,
    /// A media file, which the terminal cannot show.
    Image,
    /// Text to show.
    Text(String),
}

impl<'a> PreviewState<'a> {
    /// The title of the preview window.
    pub fn title(&self) -> (r: String)
        ensures
            r@ == " Preview: "@ + self.path@ + " "@,
    {
        let mut r = copy_str(" Preview: ");
        append_str(&mut r, self.path);
        append_str(&mut r, " ");
        r
    }

    /// What the window holds: a loading note, the note for media files, or
    /// the text (a note where it is empty).
    pub fn body(&self) -> (r: PreviewBody)
        ensures
            match r {
                PreviewBody::Loading => self.loading,
                PreviewBody::Image => !self.loading && self.is_image,
                PreviewBody::Text(t) => !self.loading && !self.is_image && t@ == if self.content@.len()
                    == 0 {
                    "No content available or empty file."@
                } else {
                    self.content@
                },
            },
    {
        if self.loading {
            PreviewBody::Loading
        } else if self.is_image {
            PreviewBody::Image
        } else if self.content.unicode_len() == 0 {
            PreviewBody::Text(copy_str("No content available or empty file."))
        } else {
            PreviewBody::Text(copy_str(self.content))
        }
    }
}

// ---------------------------------------------------------------------------
// Repository search
// ---------------------------------------------------------------------------

/// What the repository search screen draws from.
pub struct RepoSearchState<'a> {
    pub results: &'a [SearchItem],
    pub total_results: usize,
    pub cursor: usize,
    pub query: &'a str,
    pub filters: &'a RepoSearchFilters,
    pub loading: bool,
    pub status_msg: &'a str,
}

/// The line under the filters of the search screen.
pub open spec fn search_status_spec(
    loading: bool,
    shown: nat,
    total: nat,
    status: Seq<char>,
) -> Seq<char> {
    if loading {
        "Fetching repositories from GitHub..."@
    } else if shown == 0 && total > 0 {
        "No repositories match the current filters. Press x to reset them."@
    } else if shown == 0 {
        "No repositories found yet. Try another keyword."@
    } else if status.len() == 0 {
        "Choose a repository to open its files."@
    } else {
        status
    }
}

/// The name of an order of results.
pub open spec fn sort_label_spec(s: RepoSearchSort) -> Seq<char> {
    match s {
        RepoSearchSort::Stars => "Stars"@,
        RepoSearchSort::Updated => "Updated"@,
        RepoSearchSort::Name => "Name"@,
    }
}

impl<'a> RepoSearchState<'a> {
    /// The query as the title shows it, in double quotes.
    pub fn query_label(&self) -> (r: String)
        ensures
            r@ == "\""@ + self.query@ + "\""@,
    {
        let mut r = copy_str("\"");
        append_str(&mut r, self.query);
        append_str(&mut r, "\"");
        r
    }

    /// How many results are shown.
    pub fn shown_label(&self) -> (r: String)
        ensures
            r@ == decimal_digits(self.results@.len() as nat) + " shown"@,
    {
        let mut r = decimal_string(self.results.len() as u64);
        append_str(&mut r, " shown");
        r
    }

    /// The status line.
    pub fn status_text(&self) -> (r: String)
        ensures
            r@ == search_status_spec(
                self.loading,
                self.results@.len(),
                self.total_results as nat,
                self.status_msg@,
            ),
    {
        if self.loading {
            copy_str("Fetching repositories from GitHub...")
        } else if self.results.len() == 0 && self.total_results > 0 {
            copy_str("No repositories match the current filters. Press x to reset them.")
        } else if self.results.len() == 0 {
            copy_str("No repositories found yet. Try another keyword.")
        } else if self.status_msg.unicode_len() == 0 {
            copy_str("Choose a repository to open its files.")
        } else {
            copy_str(self.status_msg)
        }
    }

    /// The results area shows the loading note: a search runs and nothing
    /// has come yet.
    pub fn shows_loading(&self) -> (r: bool)
        ensures
            r == (self.loading && self.total_results == 0),
    {
        self.loading && self.total_results == 0
    }

    /// The result the list highlights: the cursor's, kept within the list.
    pub fn highlighted(&self) -> (r: Option<usize>)
        ensures
            r == if self.results@.len() == 0 {
                None::<usize>
            } else if self.cursor < self.results@.len() {
                Some(self.cursor)
            } else {
                Some((self.results@.len() - 1) as usize)
            },
    {
        if self.results.len() == 0 {
            None
        } else if self.cursor < self.results.len() {
            Some(self.cursor)
        } else {
            Some(self.results.len() - 1)
        }
    }

    /// The value of the forks filter.
    pub fn forks_label(&self) -> (r: &'static str)
        ensures
            r@ == if self.filters.include_forks {
                "Included"@
            } else {
                "Hidden"@
            },
    {
        if self.filters.include_forks {
            "Included"
        } else {
            "Hidden"
        }
    }

    /// The value of the minimum stars filter.
    pub fn min_stars_label(&self) -> (r: String)
        ensures
            r@ == min_stars_label(self.filters.min_stars),
    {
        format_min_stars(self.filters.min_stars)
    }

    /// The value of the language filter.
    pub fn language_label(&self) -> (r: String)
        ensures
            r@ == match self.filters.language {
                Some(l) => l@,
                None => "Any"@,
            },
    {
        match &self.filters.language {
            Some(l) => l.clone(),
            None => copy_str("Any"),
        }
    }

    /// The value of the order.
    pub fn sort_label(&self) -> (r: &'static str)
        ensures
            r@ == sort_label_spec(self.filters.sort),
    {
        match self.filters.sort {
            RepoSearchSort::Stars => "Stars",
            RepoSearchSort::Updated => "Updated",
            RepoSearchSort::Name => "Name",
        }
    }
}

/// The owner and the repository of a full name `owner/repo`; a name of any
/// other shape is all repository.
pub open spec fn owner_and_repo_spec(full_name: Seq<char>) -> (Seq<char>, Seq<char>) {
    let parts = split_on(full_name, '/');
    if parts.len() == 2 {
        (parts[0], parts[1])
    } else {
        (Seq::<char>::empty(), full_name)
    }
}

/// The owner and the repository of a full name.
pub fn owner_and_repo(full_name: &str) -> (r: (String, String))
    ensures
        (r.0@, r.1@) == owner_and_repo_spec(full_name@),
{
    let v = chars_of(full_name);
    let parts = split_chars(v.as_slice(), '/');
    if parts.len() == 2 {
        (string_of(parts[0].as_slice()), string_of(parts[1].as_slice()))
    } else {
        (String::new(), copy_str(full_name))
    }
}

/// How many characters of a description fit a result card `width` wide: the
/// width less 14, and at least 40.
pub open spec fn description_limit(width: u16) -> nat {
    let w: int = if width >= 14 { width - 14 } else { 0 };
    if w >= 40 {
        w as nat
    } else {
        40
    }
}

/// One result of a repository search, as its card shows it.
#[derive(Debug)]
pub struct ResultCard {
    pub selected: bool,
    /// `› ` before a selected result, two spaces before the others.
    pub marker: &'static str,
    /// The owner followed by `/`.
    pub owner: String,
    pub repo: String,
    pub description: String,
    /// The star count, as ` N stars `.
    pub stars: String,
    /// The day of the last push, as ` updated YYYY-MM-DD`.
    pub updated: String,
    pub language: Option<String>,
    pub fork: bool,
}

/// The abstract value of a [`ResultCard`].
pub struct ResultCardView {
    pub selected: bool,
    pub marker: Seq<char>,
    pub owner: Seq<char>,
    pub repo: Seq<char>,
    pub description: Seq<char>,
    pub stars: Seq<char>,
    pub updated: Seq<char>,
    pub language: Option<Seq<char>>,
    pub fork: bool,
}

impl View for ResultCard {
    type V = ResultCardView;

    open spec fn view(&self) -> ResultCardView {
        ResultCardView {
            selected: self.selected,
            marker: self.marker@,
            owner: self.owner@,
            repo: self.repo@,
            description: self.description@,
            stars: self.stars@,
            updated: self.updated@,
            language: self.language.deep_view(),
            fork: self.fork,
        }
    }
}

/// The card of result `item` on a screen `width` wide.
pub open spec fn result_card_spec(width: u16, selected: bool, item: SearchItemView) -> ResultCardView {
    ResultCardView {
        selected: selected,
        marker: if selected {
            "\u{203a} "@
        } else {
            "  "@
        },
        owner: owner_and_repo_spec(item.full_name).0 + "/"@,
        repo: owner_and_repo_spec(item.full_name).1,
        description: truncated(
            match item.description {
                Some(d) => d,
                None => "No description provided."@,
            },
            description_limit(width),
        ),
        stars: " "@ + decimal_digits(item.stargazers_count as nat) + " stars "@,
        updated: " updated "@ + date_part(item.pushed_at),
        language: item.language,
        fork: item.fork,
    }
}

/// The card of result `item`.
pub fn build_result_item(width: u16, is_selected: bool, item: &SearchItem) -> (r: ResultCard)
    ensures
        r@ == result_card_spec(width, is_selected, item@),
{
    let (owner, repo) = owner_and_repo(item.full_name.as_str());
    let mut owner_label = owner;
    append_str(&mut owner_label, "/");
    let w: u16 = if width >= 14 { width - 14 } else { 0 };
    let limit: usize = if w >= 40 { w as usize } else { 40 };
    let description = match &item.description {
        Some(d) => truncate_text(d.as_str(), limit),
        None => truncate_text("No description provided.", limit),
    };
    let mut stars = copy_str(" ");
    let n = decimal_string(item.stargazers_count as u64);
    append_str(&mut stars, n.as_str());
    append_str(&mut stars, " stars ");
    let mut updated = copy_str(" updated ");
    let d = format_date(item.pushed_at.as_str());
    append_str(&mut updated, d.as_str());
    ResultCard {
        selected: is_selected,
        marker: if is_selected {
            "\u{203a} "
        } else {
            "  "
        },
        owner: owner_label,
        repo: repo,
        description: description,
        stars: stars,
        updated: updated,
        language: crate::github::copy_opt_string(&item.language),
        fork: item.fork,
    }
}

// ---------------------------------------------------------------------------
// The loading screen, the input line and notifications
// ---------------------------------------------------------------------------

/// The frames of the loading spinner.
pub open spec fn spinner_frames() -> Seq<Seq<char>> {
    seq![
        "\u{280b}"@,
        "\u{2819}"@,
        "\u{2839}"@,
        "\u{2838}"@,
        "\u{283c}"@,
        "\u{2834}"@,
        "\u{2826}"@,
        "\u{2827}"@,
        "\u{2807}"@,
        "\u{280f}"@,
    ]
}

/// The spinner frame for frame `frame_count`: each is shown for two frames.
pub fn spinner_frame(frame_count: u64) -> (r: &'static str)
    ensures
        r@ == spinner_frames()[((frame_count / 2) % 10) as int],
{
    let k = (frame_count / 2) % 10;
    if k == 0 {
        "\u{280b}"
    } else if k == 1 {
        "\u{2819}"
    } else if k == 2 {
        "\u{2839}"
    } else if k == 3 {
        "\u{2838}"
    } else if k == 4 {
        "\u{283c}"
    } else if k == 5 {
        "\u{2834}"
    } else if k == 6 {
        "\u{2826}"
    } else if k == 7 {
        "\u{2827}"
    } else if k == 8 {
        "\u{2807}"
    } else {
        "\u{280f}"
    }
}

/// The message of the loading screen: the status, or a default.
pub fn searching_message(status_msg: &str) -> (r: String)
    ensures
        r@ == if status_msg@.len() == 0 {
            "Searching Repository..."@
        } else {
            status_msg@
        },
{
    if status_msg.unicode_len() == 0 {
        copy_str("Searching Repository...")
    } else {
        copy_str(status_msg)
    }
}

/// The input line: the text, then `_` where the cursor shows, else a space.
pub fn input_display(input_text: &str, cursor_visible: bool) -> (r: String)
    ensures
        r@ == input_text@ + if cursor_visible {
            "_"@
        } else {
            " "@
        },
{
    let mut r = copy_str(input_text);
    if cursor_visible {
        append_str(&mut r, "_");
    } else {
        append_str(&mut r, " ");
    }
    r
}

/// The icon and the title of a notification of type `t`.
pub open spec fn toast_heading_spec(t: ToastType) -> (Seq<char>, Seq<char>) {
    match t {
        ToastType::Info => ("\u{2139}"@, "Info"@),
        ToastType::Success => ("\u{2713}"@, "Success"@),
        ToastType::Error => ("\u{2715}"@, "Error"@),
        ToastType::Warning => ("\u{26a0}"@, "Warning"@),
    }
}

/// The icon and the title of a notification of type `t`.
pub fn toast_heading(t: ToastType) -> (r: (&'static str, &'static str))
    ensures
        (r.0@, r.1@) == toast_heading_spec(t),
{
    match t {
        ToastType::Info => ("\u{2139}", "Info"),
        ToastType::Success => ("\u{2713}", "Success"),
        ToastType::Error => ("\u{2715}", "Error"),
        ToastType::Warning => ("\u{26a0}", "Warning"),
    }
}

} // verus!
