//! Browsing a repository: the cursor, the selection and folder contents.
use vstd::prelude::*;

use crate::github::{RepoItem, RepoItemView, is_dir_view, is_file_view};
use crate::sort::seq_views;
use crate::text::{
    chars_of, contains_char, contains_chars, contains_seq, copy_chars, ends_with, has_prefix,
    has_suffix, lowercase_of, starts_with, str_equal, to_lowercase,
};
use crate::ui::AppState;

verus! {

// ---------------------------------------------------------------------------
// The set of selected paths
// ---------------------------------------------------------------------------

/// Whether `p` is among the selected paths.
pub fn contains_path(paths: &[String], p: &str) -> (r: bool)
    ensures
        r == seq_views(paths@).contains(p@),
{
    let ghost views = seq_views(paths@);
    for i in 0..paths.len()
        invariant
            views == seq_views(paths@),
            forall|j: int| 0 <= j < i ==> #[trigger] views[j] != p@,
    {
        assert(views[i as int] == paths@[i as int]@);
        if str_equal(paths[i].as_str(), p) {
            return true;
        }
    }
    false
}

/// Adds `p` to the selected paths unless it is there already.
pub fn insert_path(paths: &mut Vec<String>, p: &str)
    requires
        seq_views(old(paths)@).no_duplicates(),
    ensures
        seq_views(final(paths)@).no_duplicates(),
        forall|q: Seq<char>|
            #[trigger] seq_views(final(paths)@).contains(q) <==> (seq_views(old(paths)@).contains(q)
                || q == p@),
{
    if !contains_path(paths.as_slice(), p) {
        let ghost before = seq_views(paths@);
        paths.push(crate::text::copy_str(p));
        assert(seq_views(paths@) =~= before.push(p@));
        assert forall|q: Seq<char>| #[trigger] seq_views(paths@).contains(q) <==> (before.contains(q)
            || q == p@) by {
            if seq_views(paths@).contains(q) {
                let k = choose|k: int| 0 <= k < seq_views(paths@).len() && seq_views(paths@)[k] == q;
                if k < before.len() {
                    assert(before[k] == q);
                }
            }
            if before.contains(q) {
                let k = choose|k: int| 0 <= k < before.len() && before[k] == q;
                assert(seq_views(paths@)[k] == q);
            }
            if q == p@ {
                assert(seq_views(paths@)[before.len() as int] == q);
            }
        }
    }
}

/// Takes `p` out of the selected paths.
pub fn remove_path(paths: &mut Vec<String>, p: &str)
    requires
        seq_views(old(paths)@).no_duplicates(),
    ensures
        seq_views(final(paths)@).no_duplicates(),
        forall|q: Seq<char>|
            #[trigger] seq_views(final(paths)@).contains(q) <==> (seq_views(old(paths)@).contains(q)
                && q != p@),
{
    let ghost before = seq_views(paths@);
    let found = crate::ui::search::position_of(paths.as_slice(), p);
    if let Some(i) = found {
        assert(before[i as int] == paths@[i as int]@);
        assert(before[i as int] == p@);
        paths.remove(i);
        assert(seq_views(paths@) =~= before.remove(i as int));
        assert forall|q: Seq<char>| #[trigger] seq_views(paths@).contains(q) <==> (before.contains(q)
            && q != p@) by {
            let after = seq_views(paths@);
            if after.contains(q) {
                let k = choose|k: int| 0 <= k < after.len() && after[k] == q;
                if k < i {
                    assert(before[k] == q);
                } else {
                    assert(before[k + 1] == q);
                }
                assert(q != p@);
            }
            if before.contains(q) && q != p@ {
                let k = choose|k: int| 0 <= k < before.len() && before[k] == q;
                assert(k != i);
                if k < i {
                    assert(after[k] == q);
                } else {
                    assert(after[k - 1] == q);
                }
            }
        }
        assert(seq_views(paths@).no_duplicates()) by {
            let after = seq_views(paths@);
            assert forall|a: int, b: int| 0 <= a < after.len() && 0 <= b < after.len() && a != b
                implies after[a] != after[b] by {
                let a0 = if a < i { a } else { a + 1 };
                let b0 = if b < i { b } else { b + 1 };
                assert(after[a] == before[a0]);
                assert(after[b] == before[b0]);
            }
        }
    } else {
        assert forall|q: Seq<char>| #[trigger] seq_views(paths@).contains(q) <==> (before.contains(q)
            && q != p@) by {
            if before.contains(q) {
                let k = choose|k: int| 0 <= k < before.len() && before[k] == q;
                assert(before[k] == paths@[k]@);
            }
        }
    }
}


// ---------------------------------------------------------------------------
// The cursor
// ---------------------------------------------------------------------------

/// The number of rows of the file list that the scroll offset accounts for.
pub open spec fn visible_height() -> int {
    10
}

/// The scroll offset after the cursor moved: it follows the cursor up, and
/// down so that the cursor stays on one of the visible rows.
pub open spec fn scrolled(cursor: usize, scroll: usize) -> usize {
    if cursor < scroll {
        cursor
    } else if cursor - scroll >= visible_height() {
        (cursor - visible_height() + 1) as usize
    } else {
        scroll
    }
}

impl AppState {
    /// Brings the scroll offset to the cursor.
    fn adjust_scroll(&mut self)
        ensures
            *final(self) == (AppState {
                scroll_offset: scrolled(old(self).cursor, old(self).scroll_offset),
                ..*old(self)
            }),
    {
        let visible_height: usize = 10;
        if self.cursor < self.scroll_offset {
            self.scroll_offset = self.cursor;
        } else if self.cursor - self.scroll_offset >= visible_height {
            self.scroll_offset = self.cursor - visible_height + 1;
        }
    }

    /// Moves the cursor one row up, unless it is on the first row.
    pub fn move_up(&mut self)
        ensures
            final(self).cursor == (if old(self).cursor > 0 {
                (old(self).cursor - 1) as usize
            } else {
                old(self).cursor
            }),
            *final(self) == (AppState {
                cursor: final(self).cursor,
                scroll_offset: scrolled(final(self).cursor, old(self).scroll_offset),
                ..*old(self)
            }),
    {
        if self.cursor > 0 {
            self.cursor = self.cursor - 1;
        }
        self.adjust_scroll();
    }

    /// Moves the cursor one row down, unless it is on the last of `item_count` rows.
    pub fn move_down(&mut self, item_count: usize)
        ensures
            final(self).cursor == (if item_count > 0 && old(self).cursor < item_count - 1 {
                (old(self).cursor + 1) as usize
            } else {
                old(self).cursor
            }),
            *final(self) == (AppState {
                cursor: final(self).cursor,
                scroll_offset: scrolled(final(self).cursor, old(self).scroll_offset),
                ..*old(self)
            }),
    {
        if self.cursor < item_count.saturating_sub(1) {
            self.cursor = self.cursor + 1;
        }
        self.adjust_scroll();
    }

    /// Moves the cursor to the first row.
    pub fn move_top(&mut self)
        ensures
            *final(self) == (AppState {
                cursor: 0,
                scroll_offset: scrolled(0, old(self).scroll_offset),
                ..*old(self)
            }),
    {
        self.cursor = 0;
        self.adjust_scroll();
    }

    /// Moves the cursor to the last of `item_count` rows (nowhere when there are none).
    pub fn move_bottom(&mut self, item_count: usize)
        ensures
            final(self).cursor == (if item_count > 0 {
                (item_count - 1) as usize
            } else {
                old(self).cursor
            }),
            *final(self) == (AppState {
                cursor: final(self).cursor,
                scroll_offset: scrolled(final(self).cursor, old(self).scroll_offset),
                ..*old(self)
            }),
    {
        if item_count > 0 {
            self.cursor = item_count - 1;
        }
        self.adjust_scroll();
    }
}

// ---------------------------------------------------------------------------
// What the file list shows
// ---------------------------------------------------------------------------

/// An item marked selected exactly when its path is among `selected`.
pub open spec fn with_selection(i: RepoItemView, selected: Seq<Seq<char>>) -> RepoItemView {
    RepoItemView { selected: selected.contains(i.path), ..i }
}

/// The items whose lowercased path contains the lowercased query `q`.
pub open spec fn search_matches(items: Seq<RepoItemView>, q: Seq<char>) -> Seq<RepoItemView>
    decreases items.len(),
{
    if items.len() == 0 {
        items
    } else {
        let r = search_matches(items.drop_last(), q);
        if contains_seq(lowercase_of(items.last().path), q) {
            r.push(items.last())
        } else {
            r
        }
    }
}

/// The items that a search runs over: the whole tree where it is loaded, else
/// the current folder.
pub open spec fn search_source(s: AppState) -> Seq<RepoItem> {
    match s.full_tree {
        Some(t) => t@,
        None => s.items@,
    }
}

/// What the file list shows: the current folder, or while searching the items
/// of the whole tree whose lowercased path contains the lowercased query; each
/// marked selected exactly when its path is.
pub open spec fn view_items_spec(s: AppState) -> Seq<RepoItemView> {
    let shown = if s.is_searching {
        search_matches(seq_views(search_source(s)), lowercase_of(s.search_query@))
    } else {
        seq_views(s.items@)
    };
    shown.map_values(|i: RepoItemView| with_selection(i, seq_views(s.selected_paths@)))
}

/// The items marked selected exactly when their paths are among `selected`.
pub open spec fn synced(items: Seq<RepoItemView>, selected: Seq<Seq<char>>) -> Seq<RepoItemView> {
    items.map_values(|i: RepoItemView| with_selection(i, selected))
}

/// The items of `items` whose paths are selected, each marked selected.
pub open spec fn selected_of(items: Seq<RepoItemView>, selected: Seq<Seq<char>>) -> Seq<RepoItemView>
    decreases items.len(),
{
    if items.len() == 0 {
        items
    } else {
        let r = selected_of(items.drop_last(), selected);
        if selected.contains(items.last().path) {
            r.push(RepoItemView { selected: true, ..items.last() })
        } else {
            r
        }
    }
}

/// A copy of `item` marked selected as its path says.
fn marked(item: &RepoItem, selected: &Vec<String>) -> (r: RepoItem)
    ensures
        r@ == with_selection(item@, seq_views(selected@)),
{
    let mut c = item.clone();
    c.selected = contains_path(selected.as_slice(), item.path.as_str());
    c
}

impl AppState {
    /// What the file list shows (see [`view_items_spec`]).
    pub fn get_view_items(&self) -> (r: Vec<RepoItem>)
        ensures
            seq_views(r@) == view_items_spec(*self),
    {
        let ghost sel = seq_views(self.selected_paths@);
        let mut r: Vec<RepoItem> = Vec::new();
        if self.is_searching {
            let source: &Vec<RepoItem> = match &self.full_tree {
                Some(t) => t,
                None => &self.items,
            };
            let ghost src = seq_views(source@);
            assert(src == seq_views(search_source(*self)));
            let ghost q = lowercase_of(self.search_query@);
            let mut matched: Vec<RepoItem> = Vec::new();
            assert(src.take(0) =~= Seq::<RepoItemView>::empty());
            for i in 0..source.len()
                invariant
                    src == seq_views(source@),
                    q == lowercase_of(self.search_query@),
                    sel == seq_views(self.selected_paths@),
                    seq_views(matched@) == search_matches(src.take(i as int), q),
                    seq_views(r@) == search_matches(src.take(i as int), q).map_values(
                        |x: RepoItemView| with_selection(x, sel),
                    ),
            {
                let item = &source[i];
                assert(src.take(i + 1).drop_last() =~= src.take(i as int));
                assert(src.take(i + 1).last() == item@);
                let lower_path = to_lowercase(item.path.as_str());
                let lower_query = to_lowercase(self.search_query.as_str());
                let lp = chars_of(lower_path.as_str());
                let lq = chars_of(lower_query.as_str());
                if contains_chars(lp.as_slice(), lq.as_slice()) {
                    let ghost before_m = seq_views(matched@);
                    let ghost before_r = seq_views(r@);
                    matched.push(item.clone());
                    r.push(marked(item, &self.selected_paths));
                    assert(seq_views(matched@) =~= before_m.push(item@));
                    assert(seq_views(r@) =~= before_r.push(with_selection(item@, sel)));
                    assert(search_matches(src.take(i + 1), q).map_values(
                        |x: RepoItemView| with_selection(x, sel),
                    ) =~= search_matches(src.take(i as int), q).map_values(
                        |x: RepoItemView| with_selection(x, sel),
                    ).push(with_selection(item@, sel)));
                }
            }
            assert(src.take(source@.len() as int) =~= src);
        } else {
            let ghost src = seq_views(self.items@);
            for i in 0..self.items.len()
                invariant
                    src == seq_views(self.items@),
                    sel == seq_views(self.selected_paths@),
                    seq_views(r@) == src.take(i as int).map_values(
                        |x: RepoItemView| with_selection(x, sel),
                    ),
            {
                let ghost before = seq_views(r@);
                assert(src[i as int] == self.items@[i as int]@);
                r.push(marked(&self.items[i], &self.selected_paths));
                assert(seq_views(r@) =~= before.push(with_selection(src[i as int], sel)));
                assert(src.take(i + 1).map_values(|x: RepoItemView| with_selection(x, sel))
                    =~= src.take(i as int).map_values(|x: RepoItemView| with_selection(x, sel)).push(
                    with_selection(src[i as int], sel),
                ));
                assert(seq_views(r@) =~= src.take(i + 1).map_values(
                    |x: RepoItemView| with_selection(x, sel),
                ));
            }
            assert(src.take(self.items@.len() as int) =~= src);
        }
        r
    }

    /// Marks each item of the current folder selected exactly when its path is.
    pub fn sync_selections(&mut self)
        ensures
            seq_views(final(self).items@) == synced(seq_views(old(self).items@), seq_views(old(self).selected_paths@)),
            *final(self) == (AppState { items: final(self).items, ..*old(self) }),
    {
        let ghost src = seq_views(self.items@);
        let ghost sel = seq_views(self.selected_paths@);
        let n = self.items.len();
        for i in 0..n
            invariant
                n == self.items@.len(),
                src.len() == n,
                sel == seq_views(self.selected_paths@),
                forall|k: int| 0 <= k < i ==> #[trigger] seq_views(self.items@)[k] == with_selection(src[k], sel),
                forall|k: int| i <= k < n ==> #[trigger] seq_views(self.items@)[k] == src[k],
                *self == (AppState { items: self.items, ..*old(self) }),
        {
            let ghost before = seq_views(self.items@);
            assert(before[i as int] == self.items@[i as int]@);
            let updated = marked(&self.items[i], &self.selected_paths);
            self.items.set(i, updated);
            assert(seq_views(self.items@) =~= before.update(i as int, with_selection(src[i as int], sel)));
        }
        assert(seq_views(self.items@) =~= synced(src, sel));
    }

    /// The selected items: of the whole tree where it is loaded, else of the
    /// current folder; each marked selected.
    pub fn get_selected_items(&self) -> (r: Vec<RepoItem>)
        ensures
            seq_views(r@) == selected_of(
                seq_views(match self.full_tree {
                    Some(t) => t@,
                    None => self.items@,
                }),
                seq_views(self.selected_paths@),
            ),
    {
        let source: &Vec<RepoItem> = match &self.full_tree {
            Some(t) => t,
            None => &self.items,
        };
        let ghost src = seq_views(source@);
        let ghost sel = seq_views(self.selected_paths@);
        let mut r: Vec<RepoItem> = Vec::new();
        assert(src.take(0) =~= Seq::<RepoItemView>::empty());
        for i in 0..source.len()
            invariant
                src == seq_views(source@),
                sel == seq_views(self.selected_paths@),
                seq_views(r@) == selected_of(src.take(i as int), sel),
        {
            let item = &source[i];
            assert(src.take(i + 1).drop_last() =~= src.take(i as int));
            assert(src.take(i + 1).last() == item@);
            if contains_path(self.selected_paths.as_slice(), item.path.as_str()) {
                let mut c = item.clone();
                c.selected = true;
                let ghost before = seq_views(r@);
                r.push(c);
                assert(seq_views(r@) =~= before.push(RepoItemView { selected: true, ..item@ }));
            }
        }
        assert(src.take(source@.len() as int) =~= src);
        r
    }

    /// Selects (or unselects) every item of the current folder.
    pub fn loop_selection(&mut self, select: bool)
        requires
            old(self).wf(),
        ensures
            final(self).wf(),
            seq_views(final(self).items@) == seq_views(old(self).items@).map_values(
                |i: RepoItemView| RepoItemView { selected: select, ..i },
            ),
            forall|q: Seq<char>|
                #[trigger] seq_views(final(self).selected_paths@).contains(q) <==> (if select {
                    seq_views(old(self).selected_paths@).contains(q) || exists|k: int|
                        0 <= k < old(self).items@.len() && seq_views(old(self).items@)[k].path == q
                } else {
                    seq_views(old(self).selected_paths@).contains(q) && !exists|k: int|
                        0 <= k < old(self).items@.len() && seq_views(old(self).items@)[k].path == q
                }),
            *final(self) == (AppState {
                items: final(self).items,
                selected_paths: final(self).selected_paths,
                ..*old(self)
            }),
    {
        let ghost src = seq_views(self.items@);
        let ghost sel0 = seq_views(self.selected_paths@);
        let n = self.items.len();
        for i in 0..n
            invariant
                n == self.items@.len(),
                src.len() == n,
                src == seq_views(old(self).items@),
                sel0 == seq_views(old(self).selected_paths@),
                self.wf(),
                forall|k: int| 0 <= k < i ==> #[trigger] seq_views(self.items@)[k] == (RepoItemView { selected: select, ..src[k] }),
                forall|k: int| i <= k < n ==> #[trigger] seq_views(self.items@)[k] == src[k],
                forall|q: Seq<char>|
                    #[trigger] seq_views(self.selected_paths@).contains(q) <==> (if select {
                        sel0.contains(q) || exists|k: int| 0 <= k < i && src[k].path == q
                    } else {
                        sel0.contains(q) && !exists|k: int| 0 <= k < i && src[k].path == q
                    }),
                *self == (AppState {
                    items: self.items,
                    selected_paths: self.selected_paths,
                    ..*old(self)
                }),
        {
            let ghost before = seq_views(self.items@);
            let ghost sel_before = seq_views(self.selected_paths@);
            assert(before[i as int] == self.items@[i as int]@);
            let mut c = self.items[i].clone();
            c.selected = select;
            let path = self.items[i].path.clone();
            self.items.set(i, c);
            assert(seq_views(self.items@) =~= before.update(i as int, RepoItemView { selected: select, ..src[i as int] }));
            if select {
                insert_path(&mut self.selected_paths, path.as_str());
            } else {
                remove_path(&mut self.selected_paths, path.as_str());
            }
            assert forall|q: Seq<char>|
                #[trigger] seq_views(self.selected_paths@).contains(q) <==> (if select {
                    sel0.contains(q) || exists|k: int| 0 <= k < i + 1 && src[k].path == q
                } else {
                    sel0.contains(q) && !exists|k: int| 0 <= k < i + 1 && src[k].path == q
                }) by {
                if exists|k: int| 0 <= k < i + 1 && src[k].path == q {
                    let k = choose|k: int| 0 <= k < i + 1 && src[k].path == q;
                    if k < i {
                        assert(exists|k2: int| 0 <= k2 < i && src[k2].path == q);
                    }
                }
                if exists|k: int| 0 <= k < i && src[k].path == q {
                    let k = choose|k: int| 0 <= k < i && src[k].path == q;
                    assert(0 <= k < i + 1 && src[k].path == q);
                }
                if q == src[i as int].path {
                    assert(0 <= i < i + 1 && src[i as int].path == q);
                }
            }
        }
        assert(seq_views(self.items@) =~= src.map_values(
            |i: RepoItemView| RepoItemView { selected: select, ..i },
        ));
    }
}


impl AppState {
    /// Flips the selection of the item under the cursor in the file list (if
    /// there is one) and marks the current folder's items anew.
    pub fn toggle_selection(&mut self)
        requires
            old(self).wf(),
        ensures
            final(self).wf(),
            forall|q: Seq<char>|
                #[trigger] seq_views(final(self).selected_paths@).contains(q) <==> (if old(self).cursor
                    < view_items_spec(*old(self)).len() {
                    seq_views(old(self).selected_paths@).contains(q) != (q == view_items_spec(
                        *old(self),
                    )[old(self).cursor as int].path)
                } else {
                    seq_views(old(self).selected_paths@).contains(q)
                }),
            seq_views(final(self).items@) == synced(
                seq_views(old(self).items@),
                seq_views(final(self).selected_paths@),
            ),
            *final(self) == (AppState {
                items: final(self).items,
                selected_paths: final(self).selected_paths,
                ..*old(self)
            }),
    {
        let items = self.get_view_items();
        let ghost v = view_items_spec(*self);
        if self.cursor < items.len() {
            assert(seq_views(items@)[self.cursor as int] == items@[self.cursor as int]@);
            let path = items[self.cursor].path.clone();
            if contains_path(self.selected_paths.as_slice(), path.as_str()) {
                remove_path(&mut self.selected_paths, path.as_str());
            } else {
                insert_path(&mut self.selected_paths, path.as_str());
            }
        }
        self.sync_selections();
    }
}

// ---------------------------------------------------------------------------
// Folders
// ---------------------------------------------------------------------------

/// `path` lies directly in `folder` (the root where `folder` is empty).
pub open spec fn in_folder(path: Seq<char>, folder: Seq<char>) -> bool {
    if folder.len() == 0 {
        !path.contains('/')
    } else {
        has_prefix(path, folder.push('/')) && !path.skip(folder.len() + 1int).contains('/')
    }
}

/// The items that lie directly in `folder`, in order.
pub open spec fn folder_children_spec(items: Seq<RepoItemView>, folder: Seq<char>) -> Seq<RepoItemView>
    decreases items.len(),
{
    if items.len() == 0 {
        items
    } else {
        let r = folder_children_spec(items.drop_last(), folder);
        if in_folder(items.last().path, folder) {
            r.push(items.last())
        } else {
            r
        }
    }
}

/// The items of a tree that lie directly in `folder` (the root where it is empty).
pub fn folder_children(items: &[RepoItem], folder: &str) -> (r: Vec<RepoItem>)
    ensures
        seq_views(r@) == folder_children_spec(seq_views(items@), folder@),
{
    let ghost src = seq_views(items@);
    let fv = chars_of(folder);
    let mut prefix = copy_chars(fv.as_slice());
    prefix.push('/');
    let mut r: Vec<RepoItem> = Vec::new();
    assert(src.take(0) =~= Seq::<RepoItemView>::empty());
    for i in 0..items.len()
        invariant
            src == seq_views(items@),
            fv@ == folder@,
            prefix@ == folder@.push('/'),
            seq_views(r@) == folder_children_spec(src.take(i as int), folder@),
    {
        let item = &items[i];
        assert(src.take(i + 1).drop_last() =~= src.take(i as int));
        assert(src.take(i + 1).last() == item@);
        let pv = chars_of(item.path.as_str());
        let inside = if fv.len() == 0 {
            !contains_char(pv.as_slice(), '/')
        } else if starts_with(pv.as_slice(), prefix.as_slice()) {
            let mut rest: Vec<char> = Vec::new();
            for q in prefix.len()..pv.len()
                invariant
                    prefix@.len() <= pv@.len(),
                    rest@ == pv@.subrange(prefix@.len() as int, q as int),
            {
                rest.push(pv[q]);
                assert(rest@ =~= pv@.subrange(prefix@.len() as int, q + 1));
            }
            assert(rest@ =~= pv@.skip(folder@.len() + 1int));
            !contains_char(rest.as_slice(), '/')
        } else {
            false
        };
        if inside {
            let ghost before = seq_views(r@);
            r.push(item.clone());
            assert(seq_views(r@) =~= before.push(item@));
        }
    }
    assert(src.take(items@.len() as int) =~= src);
    r
}

/// The items just below `prefix`: their path begins with it and has no slash
/// after it.
pub open spec fn prefix_children_spec(items: Seq<RepoItemView>, prefix: Seq<char>) -> Seq<RepoItemView>
    decreases items.len(),
{
    if items.len() == 0 {
        items
    } else {
        let r = prefix_children_spec(items.drop_last(), prefix);
        let p = items.last().path;
        if has_prefix(p, prefix) && !p.skip(prefix.len() as int).contains('/') {
            r.push(items.last())
        } else {
            r
        }
    }
}

/// The items of a tree just below `prefix`.
pub fn prefix_children(items: &[RepoItem], prefix: &[char]) -> (r: Vec<RepoItem>)
    ensures
        seq_views(r@) == prefix_children_spec(seq_views(items@), prefix@),
{
    let ghost src = seq_views(items@);
    let mut r: Vec<RepoItem> = Vec::new();
    assert(src.take(0) =~= Seq::<RepoItemView>::empty());
    for i in 0..items.len()
        invariant
            src == seq_views(items@),
            seq_views(r@) == prefix_children_spec(src.take(i as int), prefix@),
    {
        let item = &items[i];
        assert(src.take(i + 1).drop_last() =~= src.take(i as int));
        assert(src.take(i + 1).last() == item@);
        let pv = chars_of(item.path.as_str());
        let inside = if starts_with(pv.as_slice(), prefix) {
            let mut rest: Vec<char> = Vec::new();
            for q in prefix.len()..pv.len()
                invariant
                    prefix@.len() <= pv@.len(),
                    rest@ == pv@.subrange(prefix@.len() as int, q as int),
            {
                rest.push(pv[q]);
                assert(rest@ =~= pv@.subrange(prefix@.len() as int, q + 1));
            }
            assert(rest@ =~= pv@.skip(prefix@.len() as int));
            !contains_char(rest.as_slice(), '/')
        } else {
            false
        };
        if inside {
            let ghost before = seq_views(r@);
            r.push(item.clone());
            assert(seq_views(r@) =~= before.push(item@));
        }
    }
    assert(src.take(items@.len() as int) =~= src);
    r
}

/// The items marked selected.
pub open spec fn all_selected(items: Seq<RepoItemView>) -> Seq<RepoItemView> {
    items.map_values(|i: RepoItemView| RepoItemView { selected: true, ..i })
}

/// The files of `tree` that a selected item stands for when it is downloaded:
/// a directory stands for the files below it, named by their path from the
/// directory's own name on; anything else stands for itself.
pub open spec fn expand_for_download(tree: Seq<RepoItemView>, top: RepoItemView) -> Seq<RepoItemView> {
    if is_dir_view(top) {
        all_selected(crate::agent::files_under(tree, top.path.push('/'), crate::text::last_slash_end(top.path)))
    } else {
        seq![top]
    }
}

/// The files that the selected items stand for, in order.
pub open spec fn expand_all_for_download(tree: Seq<RepoItemView>, selected: Seq<RepoItemView>) -> Seq<
    RepoItemView,
>
    decreases selected.len(),
{
    if selected.len() == 0 {
        selected
    } else {
        expand_all_for_download(tree, selected.drop_last()) + expand_for_download(tree, selected.last())
    }
}

impl AppState {
    /// The items to download: the selected ones, where the whole tree is known
    /// with each selected directory replaced by the files below it.
    pub fn items_to_download(&self) -> (r: Vec<RepoItem>)
        ensures
            seq_views(r@) == match self.full_tree {
                Some(t) => expand_all_for_download(
                    seq_views(t@),
                    selected_of(seq_views(t@), seq_views(self.selected_paths@)),
                ),
                None => selected_of(seq_views(self.items@), seq_views(self.selected_paths@)),
            },
    {
        let selected = self.get_selected_items();
        match &self.full_tree {
            None => selected,
            Some(tree) => {
                let ghost tv = seq_views(tree@);
                let ghost sv = seq_views(selected@);
                let mut r: Vec<RepoItem> = Vec::new();
                assert(sv.take(0) =~= Seq::<RepoItemView>::empty());
                for i in 0..selected.len()
                    invariant
                        tv == seq_views(tree@),
                        sv == seq_views(selected@),
                        seq_views(r@) == expand_all_for_download(tv, sv.take(i as int)),
                {
                    let top = &selected[i];
                    assert(sv.take(i + 1).drop_last() =~= sv.take(i as int));
                    assert(sv.take(i + 1).last() == top@);
                    let ghost before = seq_views(r@);
                    if top.is_dir() {
                        let pv = chars_of(top.path.as_str());
                        let mut prefix = copy_chars(pv.as_slice());
                        prefix.push('/');
                        let k = crate::text::last_slash_end_exec(pv.as_slice());
                        proof {
                            crate::text::lemma_last_slash_end(pv@);
                        }
                        let files = crate::agent::files_under_exec(tree.as_slice(), prefix.as_slice(), k);
                        let ghost fv = seq_views(files@);
                        let mut j: usize = 0;
                        while j < files.len()
                            invariant
                                j <= files@.len(),
                                fv == seq_views(files@),
                                seq_views(r@) == before + all_selected(fv.take(j as int)),
                            decreases files@.len() - j,
                        {
                            let mut c = files[j].clone();
                            c.selected = true;
                            assert(fv[j as int] == files@[j as int]@);
                            let ghost mid = seq_views(r@);
                            r.push(c);
                            assert(seq_views(r@) =~= mid.push(RepoItemView { selected: true, ..fv[j as int] }));
                            assert(all_selected(fv.take(j + 1)) =~= all_selected(fv.take(j as int)).push(
                                RepoItemView { selected: true, ..fv[j as int] },
                            ));
                            j = j + 1;
                        }
                        assert(fv.take(files@.len() as int) =~= fv);
                    } else {
                        r.push(top.clone());
                        assert(seq_views(r@) =~= before + seq![top@]);
                    }
                }
                assert(sv.take(selected@.len() as int) =~= sv);
                r
            },
        }
    }
}

// ---------------------------------------------------------------------------
// Media files
// ---------------------------------------------------------------------------

/// A lowercased path names an image: it ends in `.png`, `.jpg`, `.jpeg`,
/// `.gif`, `.bmp` or `.webp`.
pub open spec fn has_image_extension(lower: Seq<char>) -> bool {
    ||| has_suffix(lower, ".png"@)
    ||| has_suffix(lower, ".jpg"@)
    ||| has_suffix(lower, ".jpeg"@)
    ||| has_suffix(lower, ".gif"@)
    ||| has_suffix(lower, ".bmp"@)
    ||| has_suffix(lower, ".webp"@)
}

/// A lowercased path names a video: it ends in `.mp4`, `.mkv`, `.avi` or `.webm`.
pub open spec fn has_video_extension(lower: Seq<char>) -> bool {
    ||| has_suffix(lower, ".mp4"@)
    ||| has_suffix(lower, ".mkv"@)
    ||| has_suffix(lower, ".avi"@)
    ||| has_suffix(lower, ".webm"@)
}

/// Whether `s` ends with the literal `lit`.
fn ends_with_literal(s: &[char], lit: &str) -> (r: bool)
    ensures
        r == has_suffix(s@, lit@),
{
    let l = chars_of(lit);
    ends_with(s, l.as_slice())
}

/// Whether a lowercased path names an image.
pub fn image_extension(lower: &str) -> (r: bool)
    ensures
        r == has_image_extension(lower@),
{
    let v = chars_of(lower);
    let s = v.as_slice();
    ends_with_literal(s, ".png") || ends_with_literal(s, ".jpg") || ends_with_literal(s, ".jpeg")
        || ends_with_literal(s, ".gif") || ends_with_literal(s, ".bmp") || ends_with_literal(
        s,
        ".webp",
    )
}

/// Whether a lowercased path names a video.
pub fn video_extension(lower: &str) -> (r: bool)
    ensures
        r == has_video_extension(lower@),
{
    let v = chars_of(lower);
    let s = v.as_slice();
    ends_with_literal(s, ".mp4") || ends_with_literal(s, ".mkv") || ends_with_literal(s, ".avi")
        || ends_with_literal(s, ".webm")
}

/// Whether the path names an image, whatever the case of its extension.
pub fn is_media_file(path: &str) -> (r: bool)
    ensures
        r == has_image_extension(lowercase_of(path@)),
{
    let lower = to_lowercase(path);
    image_extension(lower.as_str())
}

/// Whether the path names a video, whatever the case of its extension.
pub fn is_video_file(path: &str) -> (r: bool)
    ensures
        r == has_video_extension(lowercase_of(path@)),
{
    let lower = to_lowercase(path);
    video_extension(lower.as_str())
}

} // verus!
