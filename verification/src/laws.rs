//! Properties of the library that span several of its functions or calls.
use vstd::prelude::*;

use crate::agent::{
    dedup_by_path, files_under, normalize_path_spec, renamed, path_order, resolve_all_spec, resolve_one_spec,
    resolve_spec,
};
use crate::github::{is_dir_view, is_file_view, response_outcome_spec, RepoItemView};
use crate::sort::{
    is_sorted_by, is_strict_weak_order, lemma_sort_stable_permutes, lemma_sort_stable_sorted,
    seq_views, sort_stable,
};
use crate::text::{
    has_prefix, lemma_last_slash_end, lemma_seq_le_transitive, lemma_seq_lt_irreflexive, lemma_seq_lt_total, lemma_seq_lt_transitive,
    contains_seq, last_slash_end, lowercase_of, replace_char, seq_lt, trim_char,
};
use crate::ui::display::{size_cell_spec, SizeCell};
use crate::ui::browse::{
    expand_all_for_download, expand_for_download, in_folder, prefix_children_spec, scrolled, search_matches, search_source, synced, view_items_spec,
    visible_height, with_selection,
};
use crate::ui::keys::{
    browse_step, enter_step, entered_path, github_prefix, is_quit_chord, key_step, paths_of, KeyAction,
    KeyCode, KeyInput,
};
use crate::ui::search::{
    filter_results, filtered_results_spec, first_index_of_name, is_first_name, language_counts,
    language_order, next_language, next_min_stars, passes_filters, search_languages_spec,
    search_order, SearchItemView,
};
use crate::ui::{
    icon_mode_next, search_sort_next, AppMode, AppState, IconMode, RepoSearchFilters,
    RepoSearchSort,
};

verus! {

// ---------------------------------------------------------------------------
// Cycles of settings
// ---------------------------------------------------------------------------

/// The icon key toggles between Emoji and ASCII: each press changes the
/// icons, two presses bring them back, and from Nerd Font a press gives Emoji.
pub proof fn law_icon_modes_toggle(m: IconMode)
    ensures
        icon_mode_next(m) != m,
        m != IconMode::NerdFont ==> icon_mode_next(icon_mode_next(m)) == m,
        icon_mode_next(m) != IconMode::NerdFont,
        m == IconMode::NerdFont ==> icon_mode_next(m) == IconMode::Emoji,
{
}

/// The orders of repository search form a cycle of three: Stars, Updated,
/// Name.
pub proof fn law_search_sorts_cycle(s: RepoSearchSort)
    ensures
        search_sort_next(search_sort_next(search_sort_next(s))) == s,
        search_sort_next(s) != s,
        search_sort_next(search_sort_next(s)) != s,
{
}

/// The minimum star filter goes round Any, 10+, 50+, 100+, 500+ and 1000+:
/// from any value one step lands on one of them, and six steps from one of
/// them come back to it.
pub proof fn law_min_stars_cycle(m: u32)
    ensures
        ({
            let n = next_min_stars(m);
            n == 0 || n == 10 || n == 50 || n == 100 || n == 500 || n == 1000
        }),
        (m == 0 || m == 10 || m == 50 || m == 100 || m == 500 || m == 1000) ==> next_min_stars(
            next_min_stars(next_min_stars(next_min_stars(next_min_stars(next_min_stars(m))))),
        ) == m,
{
}

// ---------------------------------------------------------------------------
// The cursor
// ---------------------------------------------------------------------------

/// Wherever the cursor moves, the scroll offset that follows keeps it on one
/// of the visible rows: at or below the first, and less than ten rows down.
pub proof fn law_cursor_stays_visible(cursor: usize, scroll: usize)
    ensures
        scrolled(cursor, scroll) <= cursor < scrolled(cursor, scroll) + visible_height(),
{
}

// ---------------------------------------------------------------------------
// Keys
// ---------------------------------------------------------------------------

/// Ctrl+Q (and Ctrl+C) quits from every screen and changes nothing.
pub proof fn law_quit_chord_quits(o: AppState, n: AppState, key: KeyInput, a: KeyAction)
    requires
        is_quit_chord(key),
        key_step(o, n, key, a),
    ensures
        a is Quit,
        n == o,
{
}

/// On the home screen with nothing typed, Esc quits.
pub proof fn law_escape_on_empty_home_quits(o: AppState, n: AppState, key: KeyInput, a: KeyAction)
    requires
        o.mode == AppMode::Input,
        o.url_input@.len() == 0,
        key.code == KeyCode::Esc,
        !key.ctrl,
        key_step(o, n, key, a),
    ensures
        a is Quit,
        n == o,
{
}

/// On the home screen with nothing typed, Tab fills in `https://github.com/`
/// and puts the cursor after it.
pub proof fn law_tab_fills_github(o: AppState, n: AppState, key: KeyInput, a: KeyAction)
    requires
        o.mode == AppMode::Input,
        o.url_input@.len() == 0,
        key.code == KeyCode::Tab,
        key_step(o, n, key, a),
    ensures
        n.url_input@ == github_prefix(),
        n.url_cursor == n.url_input@.len(),
        a is Nothing,
{
    reveal_strlit("https://github.com/");
}

/// On the file list, pressing Space twice leaves the set of selected paths
/// as it was: the first press toggles the entry under the cursor and the
/// second toggles it back.
pub proof fn law_space_twice_restores_selection(
    s0: AppState,
    s1: AppState,
    s2: AppState,
    key: KeyInput,
    a1: KeyAction,
    a2: KeyAction,
)
    requires
        s0.mode == AppMode::Browse,
        key.code == KeyCode::Char(' '),
        key_step(s0, s1, key, a1),
        key_step(s1, s2, key, a2),
    ensures
        forall|q: Seq<char>|
            #[trigger] seq_views(s2.selected_paths@).contains(q) == seq_views(
                s0.selected_paths@,
            ).contains(q),
{
}

// ---------------------------------------------------------------------------
// Requested paths
// ---------------------------------------------------------------------------

/// A sequence that `replace_char` came out of no longer holds `from`.
proof fn lemma_replace_removes(s: Seq<char>, from: char, to: char)
    requires
        from != to,
    ensures
        !replace_char(s, from, to).contains(from),
{
    if replace_char(s, from, to).contains(from) {
        let k = choose|k: int| 0 <= k < s.len() && replace_char(s, from, to)[k] == from;
        assert(replace_char(s, from, to)[k] == (if s[k] == from { to } else { s[k] }));
    }
}

/// `trim_char` keeps a stretch of the sequence that neither starts nor ends
/// with `c`.
proof fn lemma_trim_char_shape(s: Seq<char>, c: char)
    ensures
        exists|i: int, j: int| 0 <= i <= j <= s.len() && trim_char(s, c) == s.subrange(i, j),
        trim_char(s, c).len() > 0 ==> trim_char(s, c)[0] != c && trim_char(s, c).last() != c,
    decreases s.len(),
{
    if s.len() > 0 && s[0] == c {
        lemma_trim_char_shape(s.drop_first(), c);
        let (i, j) = choose|i: int, j: int|
            0 <= i <= j <= s.drop_first().len() && trim_char(s.drop_first(), c)
                == s.drop_first().subrange(i, j);
        assert(s.drop_first().subrange(i, j) =~= s.subrange(i + 1, j + 1));
    } else if s.len() > 0 && s.last() == c {
        lemma_trim_char_shape(s.drop_last(), c);
        let (i, j) = choose|i: int, j: int|
            0 <= i <= j <= s.drop_last().len() && trim_char(s.drop_last(), c)
                == s.drop_last().subrange(i, j);
        assert(s.drop_last().subrange(i, j) =~= s.subrange(i, j));
    } else {
        assert(s.subrange(0, s.len() as int) =~= s);
    }
}

/// Normalizing a requested path twice gives what normalizing it once gives.
pub proof fn law_normalize_idempotent(p: Seq<char>)
    ensures
        normalize_path_spec(normalize_path_spec(p)) == normalize_path_spec(p),
{
    let r = replace_char(p, '\\', '/');
    let t = trim_char(r, '/');
    lemma_replace_removes(p, '\\', '/');
    lemma_trim_char_shape(r, '/');
    let (i, j) = choose|i: int, j: int| 0 <= i <= j <= r.len() && t == r.subrange(i, j);
    assert(!t.contains('\\')) by {
        if t.contains('\\') {
            let k = choose|k: int| 0 <= k < t.len() && t[k] == '\\';
            assert(r[i + k] == '\\');
        }
    }
    assert(replace_char(t, '\\', '/') =~= t);
}

// ---------------------------------------------------------------------------
// Orders
// ---------------------------------------------------------------------------

/// Ordering items by path is a strict weak order.
pub proof fn lemma_path_order_weak()
    ensures
        is_strict_weak_order(path_order()),
{
    let lt = path_order();
    assert forall|a: RepoItemView| !#[trigger] lt(a, a) by {
        lemma_seq_lt_irreflexive(a.path);
    }
    assert forall|a: RepoItemView, b: RepoItemView, c: RepoItemView|
        #[trigger] lt(a, b) && #[trigger] lt(b, c) implies lt(a, c) by {
        lemma_seq_lt_transitive(a.path, b.path, c.path);
    }
    assert forall|a: RepoItemView, b: RepoItemView, c: RepoItemView|
        #![trigger lt(a, b), lt(b, c)]
        !lt(a, b) && !lt(b, c) implies !lt(a, c) by {
        lemma_seq_le_transitive(c.path, b.path, a.path);
    }
}

/// Each order of search results is a strict weak order.
pub proof fn lemma_search_order_weak(s: RepoSearchSort)
    ensures
        is_strict_weak_order(search_order(s)),
{
    let lt = search_order(s);
    assert forall|a: SearchItemView| !#[trigger] lt(a, a) by {
        lemma_seq_lt_irreflexive(a.full_name);
        lemma_seq_lt_irreflexive(a.pushed_at);
    }
    assert forall|a: SearchItemView, b: SearchItemView, c: SearchItemView|
        #[trigger] lt(a, b) && #[trigger] lt(b, c) implies lt(a, c) by {
        match s {
            RepoSearchSort::Updated => {
                if seq_lt(b.pushed_at, a.pushed_at) && seq_lt(c.pushed_at, b.pushed_at) {
                    lemma_seq_lt_transitive(c.pushed_at, b.pushed_at, a.pushed_at);
                }
            },
            _ => {
                if seq_lt(a.full_name, b.full_name) && seq_lt(b.full_name, c.full_name) {
                    lemma_seq_lt_transitive(a.full_name, b.full_name, c.full_name);
                }
            },
        }
    }
    assert forall|a: SearchItemView, b: SearchItemView, c: SearchItemView|
        #![trigger lt(a, b), lt(b, c)]
        !lt(a, b) && !lt(b, c) implies !lt(a, c) by {
        match s {
            RepoSearchSort::Updated => {
                lemma_seq_le_transitive(a.pushed_at, b.pushed_at, c.pushed_at);
                if a.pushed_at != b.pushed_at {
                    lemma_seq_lt_total(a.pushed_at, b.pushed_at);
                }
                if b.pushed_at != c.pushed_at {
                    lemma_seq_lt_total(b.pushed_at, c.pushed_at);
                }
                if seq_lt(a.pushed_at, b.pushed_at) && seq_lt(b.pushed_at, c.pushed_at) {
                    lemma_seq_lt_transitive(a.pushed_at, b.pushed_at, c.pushed_at);
                }
                if seq_lt(a.pushed_at, b.pushed_at) && b.pushed_at == c.pushed_at {
                    lemma_seq_lt_irreflexive(a.pushed_at);
                }
                if seq_lt(c.pushed_at, a.pushed_at) {
                    if seq_lt(a.pushed_at, b.pushed_at) {
                        lemma_seq_lt_transitive(c.pushed_at, a.pushed_at, b.pushed_at);
                    }
                    if seq_lt(b.pushed_at, c.pushed_at) {
                        lemma_seq_lt_transitive(b.pushed_at, c.pushed_at, a.pushed_at);
                    }
                }
            },
            RepoSearchSort::Stars => {
                if a.stargazers_count == b.stargazers_count && b.stargazers_count
                    == c.stargazers_count {
                    lemma_seq_le_transitive(c.full_name, b.full_name, a.full_name);
                }
            },
            RepoSearchSort::Name => {
                lemma_seq_le_transitive(c.full_name, b.full_name, a.full_name);
            },
        }
    }
}

// ---------------------------------------------------------------------------
// Resolving a selection
// ---------------------------------------------------------------------------

/// Dropping repeated paths from a sequence sorted by path leaves the paths in
/// strictly ascending order, ending with the last path of the sequence.
proof fn lemma_dedup_ascending(s: Seq<RepoItemView>)
    requires
        is_sorted_by(s, path_order()),
    ensures
        forall|i: int, j: int|
            0 <= i < j < dedup_by_path(s).len() ==> seq_lt(
                #[trigger] dedup_by_path(s)[i].path,
                #[trigger] dedup_by_path(s)[j].path,
            ),
        dedup_by_path(s).len() > 0 <==> s.len() > 0,
        s.len() > 0 ==> dedup_by_path(s).last().path == s.last().path,
    decreases s.len(),
{
    if s.len() > 0 {
        let s0 = s.drop_last();
        assert(is_sorted_by(s0, path_order())) by {
            assert forall|i: int, j: int| 0 <= i < j < s0.len() implies !path_order()(
                s0[j],
                s0[i],
            ) by {
                assert(s0[j] == s[j] && s0[i] == s[i]);
            }
        }
        lemma_dedup_ascending(s0);
        let r = dedup_by_path(s0);
        if r.len() > 0 && r.last().path == s.last().path {
        } else {
            let x = s.last();
            if r.len() > 0 {
                let l = r.last();
                assert(l.path == s0.last().path);
                assert(!path_order()(s[s.len() - 1], s[s.len() - 2]));
                assert(s0.last() == s[s.len() - 2]);
                lemma_seq_lt_total(l.path, x.path);
                let r2 = r.push(x);
                assert forall|i: int, j: int| 0 <= i < j < r2.len() implies seq_lt(
                    #[trigger] r2[i].path,
                    #[trigger] r2[j].path,
                ) by {
                    if j < r.len() {
                        assert(r2[i] == r[i] && r2[j] == r[j]);
                    } else if i < r.len() - 1 {
                        assert(r2[i] == r[i]);
                        assert(seq_lt(r[i].path, r[r.len() - 1].path));
                        lemma_seq_lt_transitive(r[i].path, l.path, x.path);
                    }
                }
            }
        }
    }
}

/// Every item that `files_under` gives is a file.
proof fn lemma_files_under_files(items: Seq<RepoItemView>, prefix: Seq<char>, k: int)
    ensures
        forall|i: int|
            0 <= i < files_under(items, prefix, k).len() ==> is_file_view(
                #[trigger] files_under(items, prefix, k)[i],
            ),
    decreases items.len(),
{
    if items.len() > 0 {
        let r0 = files_under(items.drop_last(), prefix, k);
        lemma_files_under_files(items.drop_last(), prefix, k);
        let r = files_under(items, prefix, k);
        assert forall|i: int| 0 <= i < r.len() implies is_file_view(#[trigger] r[i]) by {
            if i < r0.len() {
                assert(r[i] == r0[i]);
            }
        }
    }
}

/// Every item that a resolved request gives is a file.
proof fn lemma_resolve_all_files(items: Seq<RepoItemView>, reqs: Seq<Seq<char>>)
    requires
        resolve_all_spec(items, reqs) is Ok,
    ensures
        forall|i: int|
            0 <= i < resolve_all_spec(items, reqs)->Ok_0.len() ==> is_file_view(
                #[trigger] resolve_all_spec(items, reqs)->Ok_0[i],
            ),
    decreases reqs.len(),
{
    if reqs.len() > 0 {
        lemma_resolve_all_files(items, reqs.drop_last());
        let n = normalize_path_spec(reqs.last());
        lemma_files_under_files(items, n.push('/'), last_slash_end(n));
        lemma_files_under_files(items, n.push('/'), 0);
        let acc = resolve_all_spec(items, reqs.drop_last())->Ok_0;
        let f = resolve_one_spec(items, n)->Ok_0;
        let r = resolve_all_spec(items, reqs)->Ok_0;
        assert forall|i: int| 0 <= i < r.len() implies is_file_view(#[trigger] r[i]) by {
            if i < acc.len() {
                assert(r[i] == acc[i]);
            } else {
                assert(r[i] == f[i - acc.len()]);
            }
        }
    }
}

/// Each item that dropping repeated paths keeps was in the sequence.
proof fn lemma_dedup_from(s: Seq<RepoItemView>)
    ensures
        forall|i: int| 0 <= i < dedup_by_path(s).len() ==> s.contains(#[trigger] dedup_by_path(s)[i]),
    decreases s.len(),
{
    if s.len() > 0 {
        let s0 = s.drop_last();
        lemma_dedup_from(s0);
        let r = dedup_by_path(s);
        assert forall|i: int| 0 <= i < r.len() implies s.contains(#[trigger] r[i]) by {
            let r0 = dedup_by_path(s0);
            if i < r0.len() {
                assert(r[i] == r0[i]);
                let k = choose|k: int| 0 <= k < s0.len() && s0[k] == r0[i];
                assert(s[k] == s0[k]);
            } else {
                assert(r[i] == s.last());
                assert(s[s.len() - 1] == s.last());
            }
        }
    }
}

/// A resolved selection is made of files only, and lists each path once, in
/// strictly ascending order, so that nothing is downloaded twice.
pub proof fn law_resolved_paths_ascending(items: Seq<RepoItemView>, reqs: Seq<Seq<char>>)
    requires
        reqs.len() > 0,
        resolve_spec(items, reqs) is Ok,
    ensures
        forall|i: int|
            0 <= i < resolve_spec(items, reqs)->Ok_0.len() ==> is_file_view(
                #[trigger] resolve_spec(items, reqs)->Ok_0[i],
            ),
        forall|i: int, j: int|
            0 <= i < j < resolve_spec(items, reqs)->Ok_0.len() ==> seq_lt(
                #[trigger] resolve_spec(items, reqs)->Ok_0[i].path,
                #[trigger] resolve_spec(items, reqs)->Ok_0[j].path,
            ),
{
    broadcast use vstd::seq_lib::group_to_multiset_ensures;

    let all = resolve_all_spec(items, reqs)->Ok_0;
    let sorted = sort_stable(all, path_order());
    let r = resolve_spec(items, reqs)->Ok_0;
    lemma_path_order_weak();
    lemma_sort_stable_sorted(all, path_order());
    lemma_dedup_ascending(sorted);
    lemma_resolve_all_files(items, reqs);
    lemma_sort_stable_permutes(all, path_order());
    lemma_dedup_from(sorted);
    assert forall|i: int| 0 <= i < r.len() implies is_file_view(#[trigger] r[i]) by {
        let k = choose|k: int| 0 <= k < sorted.len() && sorted[k] == r[i];
        assert(sorted.contains(r[i]));
        assert(sorted.to_multiset().count(r[i]) > 0);
        assert(all.contains(r[i]));
        let m = choose|m: int| 0 <= m < all.len() && all[m] == r[i];
        assert(is_file_view(all[m]));
    }
}

/// Requests written in their normalized spelling resolve as the requests do.
proof fn lemma_resolve_all_normalized(items: Seq<RepoItemView>, reqs: Seq<Seq<char>>)
    ensures
        resolve_all_spec(items, reqs.map_values(|p: Seq<char>| normalize_path_spec(p)))
            == resolve_all_spec(items, reqs),
    decreases reqs.len(),
{
    let normed = reqs.map_values(|p: Seq<char>| normalize_path_spec(p));
    if reqs.len() > 0 {
        lemma_resolve_all_normalized(items, reqs.drop_last());
        assert(normed.drop_last() =~= reqs.drop_last().map_values(
            |p: Seq<char>| normalize_path_spec(p),
        ));
        law_normalize_idempotent(reqs.last());
    }
}

/// The requests resolve exactly where each of them does on its own.
proof fn lemma_resolve_all_ok(items: Seq<RepoItemView>, reqs: Seq<Seq<char>>)
    ensures
        (resolve_all_spec(items, reqs) is Ok) <==> forall|i: int|
            0 <= i < reqs.len() ==> (#[trigger] resolve_one_spec(
                items,
                normalize_path_spec(reqs[i]),
            )) is Ok,
    decreases reqs.len(),
{
    if reqs.len() > 0 {
        lemma_resolve_all_ok(items, reqs.drop_last());
        assert forall|i: int| 0 <= i < reqs.len() - 1 implies #[trigger] reqs.drop_last()[i]
            == reqs[i] by {}
        if resolve_all_spec(items, reqs) is Ok {
            assert forall|i: int| 0 <= i < reqs.len() implies (#[trigger] resolve_one_spec(
                items,
                normalize_path_spec(reqs[i]),
            )) is Ok by {
                if i < reqs.len() - 1 {
                    assert(reqs.drop_last()[i] == reqs[i]);
                }
            }
        } else {
            if resolve_all_spec(items, reqs.drop_last()) is Err {
                let i = choose|i: int|
                    0 <= i < reqs.drop_last().len() && !((#[trigger] resolve_one_spec(
                        items,
                        normalize_path_spec(reqs.drop_last()[i]),
                    )) is Ok);
                assert(reqs.drop_last()[i] == reqs[i]);
            } else {
                assert(!(resolve_one_spec(items, normalize_path_spec(reqs[reqs.len() - 1])) is Ok));
            }
        }
    }
}

/// The paths that resolved requests give are those that some request gives.
proof fn lemma_resolve_all_paths(items: Seq<RepoItemView>, reqs: Seq<Seq<char>>, x: Seq<char>)
    requires
        resolve_all_spec(items, reqs) is Ok,
    ensures
        paths_of(resolve_all_spec(items, reqs)->Ok_0).contains(x) <==> exists|i: int|
            0 <= i < reqs.len() && paths_of(
                resolve_one_spec(items, normalize_path_spec(reqs[i]))->Ok_0,
            ).contains(x),
    decreases reqs.len(),
{
    if reqs.len() > 0 {
        let d = reqs.drop_last();
        lemma_resolve_all_paths(items, d, x);
        let acc = resolve_all_spec(items, d)->Ok_0;
        let f = resolve_one_spec(items, normalize_path_spec(reqs.last()))->Ok_0;
        let r = resolve_all_spec(items, reqs)->Ok_0;
        assert(r == acc + f);
        assert(paths_of(r) =~= paths_of(acc) + paths_of(f));
        if paths_of(r).contains(x) {
            let k = choose|k: int| 0 <= k < paths_of(r).len() && paths_of(r)[k] == x;
            if k < acc.len() {
                assert(paths_of(acc)[k] == x);
                let i = choose|i: int|
                    0 <= i < d.len() && paths_of(
                        resolve_one_spec(items, normalize_path_spec(d[i]))->Ok_0,
                    ).contains(x);
                assert(d[i] == reqs[i]);
            } else {
                assert(paths_of(f)[k - acc.len()] == x);
                assert(reqs[reqs.len() - 1] == reqs.last());
            }
        }
        if exists|i: int|
            0 <= i < reqs.len() && paths_of(
                resolve_one_spec(items, normalize_path_spec(reqs[i]))->Ok_0,
            ).contains(x) {
            let i = choose|i: int|
                0 <= i < reqs.len() && paths_of(
                    resolve_one_spec(items, normalize_path_spec(reqs[i]))->Ok_0,
                ).contains(x);
            if i < d.len() {
                assert(d[i] == reqs[i]);
                assert(paths_of(acc).contains(x));
                let k = choose|k: int| 0 <= k < paths_of(acc).len() && paths_of(acc)[k] == x;
                assert(paths_of(r)[k] == x);
            } else {
                let k = choose|k: int| 0 <= k < paths_of(f).len() && paths_of(f)[k] == x;
                assert(paths_of(r)[acc.len() + k] == x);
            }
        }
    }
}

/// Dropping repeated paths keeps every path.
proof fn lemma_dedup_paths(s: Seq<RepoItemView>, x: Seq<char>)
    ensures
        paths_of(dedup_by_path(s)).contains(x) <==> paths_of(s).contains(x),
    decreases s.len(),
{
    broadcast use vstd::seq_lib::group_seq_properties;

    if s.len() > 0 {
        let d = s.drop_last();
        lemma_dedup_paths(d, x);
        let r0 = dedup_by_path(d);
        let r = dedup_by_path(s);
        assert(paths_of(s) =~= paths_of(d).push(s.last().path));
        if r0.len() > 0 && r0.last().path == s.last().path {
            assert(r == r0);
            if x == s.last().path {
                assert(paths_of(r0)[r0.len() - 1] == x);
            }
        } else {
            assert(r == r0.push(s.last()));
            assert(paths_of(r) =~= paths_of(r0).push(s.last().path));
        }
    }
}

/// Two sequences in strictly ascending order that hold the same paths are
/// the same.
proof fn lemma_ascending_unique(a: Seq<Seq<char>>, b: Seq<Seq<char>>)
    requires
        forall|i: int, j: int| 0 <= i < j < a.len() ==> seq_lt(#[trigger] a[i], #[trigger] a[j]),
        forall|i: int, j: int| 0 <= i < j < b.len() ==> seq_lt(#[trigger] b[i], #[trigger] b[j]),
        forall|x: Seq<char>| a.contains(x) <==> b.contains(x),
    ensures
        a == b,
    decreases a.len() + b.len(),
{
    if a.len() == 0 || b.len() == 0 {
        if a.len() > 0 {
            assert(a.contains(a[0]));
        }
        if b.len() > 0 {
            assert(b.contains(b[0]));
        }
        assert(a =~= b);
    } else {
        let la = a.last();
        let lb = b.last();
        assert(a.contains(la));
        assert(b.contains(lb));
        if la != lb {
            lemma_seq_lt_total(la, lb);
            if seq_lt(la, lb) {
                let k = choose|k: int| 0 <= k < a.len() && a[k] == lb;
                if k < a.len() - 1 {
                    assert(seq_lt(a[k], a[a.len() - 1]));
                    lemma_seq_lt_transitive(la, lb, la);
                }
                lemma_seq_lt_irreflexive(la);
            } else {
                let k = choose|k: int| 0 <= k < b.len() && b[k] == la;
                if k < b.len() - 1 {
                    assert(seq_lt(b[k], b[b.len() - 1]));
                    lemma_seq_lt_transitive(lb, la, lb);
                }
                lemma_seq_lt_irreflexive(lb);
            }
        }
        let da = a.drop_last();
        let db = b.drop_last();
        assert forall|x: Seq<char>| da.contains(x) <==> db.contains(x) by {
            if da.contains(x) {
                let k = choose|k: int| 0 <= k < da.len() && da[k] == x;
                assert(a[k] == x);
                assert(seq_lt(a[k], a[a.len() - 1]));
                assert(x != la) by {
                    if x == la {
                        lemma_seq_lt_irreflexive(la);
                    }
                }
                assert(a.contains(x));
                let m = choose|m: int| 0 <= m < b.len() && b[m] == x;
                assert(m != b.len() - 1);
                assert(db[m] == x);
            }
            if db.contains(x) {
                let k = choose|k: int| 0 <= k < db.len() && db[k] == x;
                assert(b[k] == x);
                assert(seq_lt(b[k], b[b.len() - 1]));
                assert(x != lb) by {
                    if x == lb {
                        lemma_seq_lt_irreflexive(lb);
                    }
                }
                assert(b.contains(x));
                let m = choose|m: int| 0 <= m < a.len() && a[m] == x;
                assert(m != a.len() - 1);
                assert(da[m] == x);
            }
        }
        lemma_ascending_unique(da, db);
        assert(a =~= da.push(la));
        assert(b =~= db.push(lb));
    }
}

/// Resolving requested paths does not depend on how they are spelled or in
/// what order they come: the normalized spellings give the very same result,
/// and requests in another order succeed or fail alike and, when they
/// succeed, list the same paths in the same order.
pub proof fn law_resolve_order_and_spelling(
    items: Seq<RepoItemView>,
    reqs: Seq<Seq<char>>,
    reordered: Seq<Seq<char>>,
)
    requires
        reordered.to_multiset() == reqs.to_multiset(),
    ensures
        resolve_spec(items, reqs.map_values(|p: Seq<char>| normalize_path_spec(p))) == resolve_spec(
            items,
            reqs,
        ),
        (resolve_spec(items, reordered) is Ok) == (resolve_spec(items, reqs) is Ok),
        resolve_spec(items, reqs) is Ok ==> paths_of(resolve_spec(items, reordered)->Ok_0)
            == paths_of(resolve_spec(items, reqs)->Ok_0),
{
    broadcast use vstd::seq_lib::group_to_multiset_ensures;

    lemma_resolve_all_normalized(items, reqs);
    assert(reqs.map_values(|p: Seq<char>| normalize_path_spec(p)).len() == reqs.len());
    // The same requests, each as often: one holds a request where the other does.
    assert forall|q: Seq<char>| reqs.contains(q) <==> reordered.contains(q) by {
        vstd::seq_lib::to_multiset_contains(reqs, q);
        vstd::seq_lib::to_multiset_contains(reordered, q);
    }
    vstd::seq_lib::to_multiset_len(reqs);
    vstd::seq_lib::to_multiset_len(reordered);
    assert(reordered.len() == reqs.len());
    lemma_resolve_all_ok(items, reqs);
    lemma_resolve_all_ok(items, reordered);
    assert((resolve_all_spec(items, reqs) is Ok) == (resolve_all_spec(items, reordered) is Ok)) by {
        if resolve_all_spec(items, reqs) is Ok {
            assert forall|i: int| 0 <= i < reordered.len() implies (#[trigger] resolve_one_spec(
                items,
                normalize_path_spec(reordered[i]),
            )) is Ok by {
                assert(reordered.contains(reordered[i]));
                let j = choose|j: int| 0 <= j < reqs.len() && reqs[j] == reordered[i];
                assert(resolve_one_spec(items, normalize_path_spec(reqs[j])) is Ok);
            }
        }
        if resolve_all_spec(items, reordered) is Ok {
            assert forall|i: int| 0 <= i < reqs.len() implies (#[trigger] resolve_one_spec(
                items,
                normalize_path_spec(reqs[i]),
            )) is Ok by {
                assert(reqs.contains(reqs[i]));
                let j = choose|j: int| 0 <= j < reordered.len() && reordered[j] == reqs[i];
                assert(resolve_one_spec(items, normalize_path_spec(reordered[j])) is Ok);
            }
        }
    }
    if reqs.len() > 0 && resolve_spec(items, reqs) is Ok {
        let a = resolve_all_spec(items, reqs)->Ok_0;
        let b = resolve_all_spec(items, reordered)->Ok_0;
        let sa = sort_stable(a, path_order());
        let sb = sort_stable(b, path_order());
        let ra = resolve_spec(items, reqs)->Ok_0;
        let rb = resolve_spec(items, reordered)->Ok_0;
        law_resolved_paths_ascending(items, reqs);
        law_resolved_paths_ascending(items, reordered);
        lemma_sort_stable_permutes(a, path_order());
        lemma_sort_stable_permutes(b, path_order());
        assert forall|x: Seq<char>| paths_of(ra).contains(x) <==> paths_of(rb).contains(x) by {
            lemma_dedup_paths(sa, x);
            lemma_dedup_paths(sb, x);
            lemma_resolve_all_paths(items, reqs, x);
            lemma_resolve_all_paths(items, reordered, x);
            lemma_sorted_paths(a, sa, x);
            lemma_sorted_paths(b, sb, x);
            if exists|i: int|
                0 <= i < reqs.len() && paths_of(
                    resolve_one_spec(items, normalize_path_spec(reqs[i]))->Ok_0,
                ).contains(x) {
                let i = choose|i: int|
                    0 <= i < reqs.len() && paths_of(
                        resolve_one_spec(items, normalize_path_spec(reqs[i]))->Ok_0,
                    ).contains(x);
                assert(reqs.contains(reqs[i]));
                let j = choose|j: int| 0 <= j < reordered.len() && reordered[j] == reqs[i];
                assert(0 <= j < reordered.len() && paths_of(
                    resolve_one_spec(items, normalize_path_spec(reordered[j]))->Ok_0,
                ).contains(x));
            }
            if exists|i: int|
                0 <= i < reordered.len() && paths_of(
                    resolve_one_spec(items, normalize_path_spec(reordered[i]))->Ok_0,
                ).contains(x) {
                let i = choose|i: int|
                    0 <= i < reordered.len() && paths_of(
                        resolve_one_spec(items, normalize_path_spec(reordered[i]))->Ok_0,
                    ).contains(x);
                assert(reordered.contains(reordered[i]));
                let j = choose|j: int| 0 <= j < reqs.len() && reqs[j] == reordered[i];
                assert(0 <= j < reqs.len() && paths_of(
                    resolve_one_spec(items, normalize_path_spec(reqs[j]))->Ok_0,
                ).contains(x));
            }
        }
        assert forall|i: int, j: int| 0 <= i < j < paths_of(ra).len() implies seq_lt(
            #[trigger] paths_of(ra)[i],
            #[trigger] paths_of(ra)[j],
        ) by {
            assert(seq_lt(ra[i].path, ra[j].path));
        }
        assert forall|i: int, j: int| 0 <= i < j < paths_of(rb).len() implies seq_lt(
            #[trigger] paths_of(rb)[i],
            #[trigger] paths_of(rb)[j],
        ) by {
            assert(seq_lt(rb[i].path, rb[j].path));
        }
        lemma_ascending_unique(paths_of(ra), paths_of(rb));
    }
}

/// Sorting keeps the paths.
proof fn lemma_sorted_paths(s: Seq<RepoItemView>, t: Seq<RepoItemView>, x: Seq<char>)
    requires
        t.to_multiset() == s.to_multiset(),
    ensures
        paths_of(t).contains(x) <==> paths_of(s).contains(x),
{
    broadcast use vstd::seq_lib::group_to_multiset_ensures;

    if paths_of(t).contains(x) {
        let k = choose|k: int| 0 <= k < paths_of(t).len() && paths_of(t)[k] == x;
        assert(t.to_multiset().count(t[k]) > 0);
        assert(s.contains(t[k]));
        let m = choose|m: int| 0 <= m < s.len() && s[m] == t[k];
        assert(paths_of(s)[m] == x);
    }
    if paths_of(s).contains(x) {
        let k = choose|k: int| 0 <= k < paths_of(s).len() && paths_of(s)[k] == x;
        assert(s.to_multiset().count(s[k]) > 0);
        assert(t.contains(s[k]));
        let m = choose|m: int| 0 <= m < t.len() && t[m] == s[k];
        assert(paths_of(t)[m] == x);
    }
}

// ---------------------------------------------------------------------------
// Repository search
// ---------------------------------------------------------------------------

/// Each result that passes the filters comes from the search and passes them.
proof fn lemma_filter_results_pass(
    results: Seq<SearchItemView>,
    include_forks: bool,
    min_stars: u32,
    language: Option<Seq<char>>,
)
    ensures
        forall|i: int|
            0 <= i < filter_results(results, include_forks, min_stars, language).len() ==> {
                let x = #[trigger] filter_results(results, include_forks, min_stars, language)[i];
                passes_filters(include_forks, min_stars, language, x) && results.contains(x)
            },
    decreases results.len(),
{
    if results.len() > 0 {
        let r0 = results.drop_last();
        lemma_filter_results_pass(r0, include_forks, min_stars, language);
        let f = filter_results(results, include_forks, min_stars, language);
        assert forall|i: int| 0 <= i < f.len() implies passes_filters(
            include_forks,
            min_stars,
            language,
            f[i],
        ) && results.contains(f[i]) by {
            let f0 = filter_results(r0, include_forks, min_stars, language);
            if i < f0.len() {
                assert(f[i] == f0[i]);
                let k = choose|k: int| 0 <= k < r0.len() && r0[k] == f0[i];
                assert(results[k] == r0[k]);
            } else {
                assert(f[i] == results.last());
                assert(results[results.len() - 1] == results.last());
            }
        }
    }
}

/// The results shown are those of the search that pass the filters, each as
/// often as it was found, in the chosen order.
pub proof fn law_filtered_results(results: Seq<SearchItemView>, f: RepoSearchFilters)
    ensures
        ({
            let r = filtered_results_spec(results, f);
            let kept = filter_results(results, f.include_forks, f.min_stars, f.language.deep_view());
            &&& r.to_multiset() == kept.to_multiset()
            &&& forall|i: int|
                0 <= i < r.len() ==> passes_filters(
                    f.include_forks,
                    f.min_stars,
                    f.language.deep_view(),
                    #[trigger] r[i],
                ) && results.contains(r[i])
            &&& is_sorted_by(r, search_order(f.sort))
        }),
{
    broadcast use vstd::seq_lib::group_to_multiset_ensures;

    let kept = filter_results(results, f.include_forks, f.min_stars, f.language.deep_view());
    let r = filtered_results_spec(results, f);
    lemma_sort_stable_permutes(kept, search_order(f.sort));
    lemma_search_order_weak(f.sort);
    lemma_sort_stable_sorted(kept, search_order(f.sort));
    lemma_filter_results_pass(results, f.include_forks, f.min_stars, f.language.deep_view());
    assert forall|i: int| 0 <= i < r.len() implies passes_filters(
        f.include_forks,
        f.min_stars,
        f.language.deep_view(),
        #[trigger] r[i],
    ) && results.contains(r[i]) by {
        assert(r.to_multiset().count(r[i]) > 0);
        assert(kept.contains(r[i]));
        let k = choose|k: int| 0 <= k < kept.len() && kept[k] == r[i];
        assert(kept[k] == r[i]);
    }
}

// ---------------------------------------------------------------------------
// The language filter
// ---------------------------------------------------------------------------

/// The names of language counts.
pub open spec fn count_names(c: Seq<(Seq<char>, usize)>) -> Seq<Seq<char>> {
    c.map_values(|p: (Seq<char>, usize)| p.0)
}

/// The counts of the results name each language once.
proof fn lemma_language_counts_distinct(results: Seq<SearchItemView>)
    ensures
        count_names(language_counts(results)).no_duplicates(),
    decreases results.len(),
{
    if results.len() > 0 {
        let r = language_counts(results.drop_last());
        lemma_language_counts_distinct(results.drop_last());
        match results.last().language {
            None => {},
            Some(l) => {
                match first_index_of_name(r, l) {
                    Some(k) => {
                        assert(is_first_name(r, l, k));
                        let r2 = r.update(k, (l, (r[k].1 + 1) as usize));
                        assert(count_names(r2) =~= count_names(r));
                    },
                    None => {
                        assert forall|i: int| 0 <= i < r.len() implies r[i].0 != l by {
                            if r[i].0 == l {
                                assert forall|j: int| 0 <= j < i implies #[trigger] r[j].0 != l by {
                                    assert(count_names(r)[j] != count_names(r)[i]);
                                }
                                assert(is_first_name(r, l, i));
                            }
                        }
                        let r2 = r.push((l, 1usize));
                        assert(count_names(r2) =~= count_names(r).push(l));
                        assert forall|i: int, j: int|
                            0 <= i < j < count_names(r2).len() implies count_names(r2)[i]
                            != count_names(r2)[j] by {
                            if j < r.len() {
                                assert(count_names(r)[i] != count_names(r)[j]);
                            } else {
                                assert(r[i].0 != l);
                            }
                        }
                    },
                }
            },
        }
    }
}

/// The languages offered by the filter are distinct.
proof fn lemma_search_languages_distinct(results: Seq<SearchItemView>)
    ensures
        search_languages_spec(results).no_duplicates(),
{
    broadcast use vstd::seq_lib::group_to_multiset_ensures;

    let c = language_counts(results);
    let r = sort_stable(c, language_order());
    lemma_language_counts_distinct(results);
    lemma_sort_stable_permutes(c, language_order());
    assert(c.no_duplicates()) by {
        assert forall|i: int, j: int| 0 <= i < j < c.len() implies c[i] != c[j] by {
            assert(count_names(c)[i] != count_names(c)[j]);
        }
    }
    c.lemma_multiset_has_no_duplicates();
    r.lemma_multiset_has_no_duplicates_conv();
    let l = search_languages_spec(results);
    assert(l =~= count_names(r));
    assert forall|i: int, j: int| 0 <= i < j < l.len() implies l[i] != l[j] by {
        assert(r[i] != r[j]);
        if r[i].0 == r[j].0 {
            assert(r.to_multiset().count(r[i]) > 0);
            assert(r.to_multiset().count(r[j]) > 0);
            assert(c.contains(r[i]));
            assert(c.contains(r[j]));
            let a = choose|a: int| 0 <= a < c.len() && c[a] == r[i];
            let b = choose|b: int| 0 <= b < c.len() && c[b] == r[j];
            assert(count_names(c)[a] == count_names(c)[b]);
        }
    }
}

/// The language filter after `n` presses of the language key from no filter.
pub open spec fn language_after(languages: Seq<Seq<char>>, n: nat) -> Option<Seq<char>>
    decreases n,
{
    if n == 0 {
        None
    } else {
        next_language(languages, language_after(languages, (n - 1) as nat))
    }
}

/// Cycling the language filter from no filter goes through the languages of
/// the results once each, most common first, and then back to no filter.
pub proof fn law_language_cycle(results: Seq<SearchItemView>)
    ensures
        search_languages_spec(results).no_duplicates(),
        forall|n: nat|
            1 <= n <= search_languages_spec(results).len() ==> #[trigger] language_after(
                search_languages_spec(results),
                n,
            ) == Some(search_languages_spec(results)[n - 1]),
        language_after(
            search_languages_spec(results),
            search_languages_spec(results).len() + 1,
        ) is None,
{
    let l = search_languages_spec(results);
    lemma_search_languages_distinct(results);
    assert forall|k: int| 0 <= k < l.len() implies #[trigger] next_language(l, Some(l[k])) == (if k + 1
        < l.len() {
        Some(l[k + 1])
    } else {
        None
    }) by {
        let c = choose|c: int| 0 <= c < l.len() && l[c] == l[k] && forall|j: int| 0 <= j < c ==> l[j] != l[k];
        assert(0 <= k < l.len() && l[k] == l[k] && forall|j: int| 0 <= j < k ==> l[j] != l[k]);
        assert(c == k);
    }
    assert forall|n: nat| 1 <= n <= l.len() implies #[trigger] language_after(l, n) == Some(l[n - 1]) by {
        lemma_language_after(l, n);
    }
    if l.len() > 0 {
        lemma_language_after(l, l.len());
        assert(language_after(l, l.len() + 1) == next_language(l, language_after(l, l.len())));
        assert(next_language(l, Some(l[l.len() - 1])) is None);
    }
}

/// Pressing the language key `n` times from no filter reaches the `n`-th
/// language, for distinct languages.
#[verifier::spinoff_prover]
#[verifier::rlimit(30)]
proof fn lemma_language_after(l: Seq<Seq<char>>, n: nat)
    requires
        1 <= n <= l.len(),
        forall|k: int| 0 <= k < l.len() ==> #[trigger] next_language(l, Some(l[k])) == (if k + 1
            < l.len() {
            Some(l[k + 1])
        } else {
            None
        }),
    ensures
        language_after(l, n) == Some(l[n - 1]),
    decreases n,
{
    reveal_with_fuel(language_after, 1);
    if n > 1 {
        lemma_language_after(l, (n - 1) as nat);
        let k = n - 2;
        assert(0 <= k < l.len());
        let step = next_language(l, Some(l[k]));
        assert(step == Some(l[k + 1]));
        assert(language_after(l, n) == next_language(l, language_after(l, (n - 1) as nat)));
    } else {
        assert(language_after(l, 1) == next_language(l, language_after(l, 0)));
        assert(language_after(l, 0) is None);
    }
}


// ---------------------------------------------------------------------------
// Searching the tree
// ---------------------------------------------------------------------------

/// An item is among the search matches exactly when it is one of the items
/// whose lowercased path contains the query.
proof fn lemma_search_matches_members(items: Seq<RepoItemView>, q: Seq<char>)
    ensures
        forall|x: RepoItemView|
            #[trigger] search_matches(items, q).contains(x) <==> exists|j: int|
                0 <= j < items.len() && contains_seq(lowercase_of(items[j].path), q) && x == items[j],
    decreases items.len(),
{
    if items.len() > 0 {
        let init = items.drop_last();
        lemma_search_matches_members(init, q);
        let r = search_matches(init, q);
        assert forall|x: RepoItemView|
            #[trigger] search_matches(items, q).contains(x) <==> exists|j: int|
                0 <= j < items.len() && contains_seq(lowercase_of(items[j].path), q) && x
                    == items[j] by {
            if search_matches(items, q).contains(x) {
                if r.contains(x) {
                    let j = choose|j: int|
                        0 <= j < init.len() && contains_seq(lowercase_of(init[j].path), q) && x
                            == init[j];
                    assert(items[j] == init[j]);
                } else {
                    let m = choose|m: int| 0 <= m < search_matches(items, q).len() && search_matches(items, q)[m] == x;
                    assert(contains_seq(lowercase_of(items.last().path), q));
                    assert(m == r.len());
                    assert(x == items[items.len() - 1]);
                }
            }
            if exists|j: int|
                0 <= j < items.len() && contains_seq(lowercase_of(items[j].path), q) && x
                    == items[j] {
                let j = choose|j: int|
                    0 <= j < items.len() && contains_seq(lowercase_of(items[j].path), q) && x
                        == items[j];
                if j < items.len() - 1 {
                    assert(init[j] == items[j]);
                    assert(r.contains(x));
                    let m = choose|m: int| 0 <= m < r.len() && r[m] == x;
                    if contains_seq(lowercase_of(items.last().path), q) {
                        assert(r.push(items.last())[m] == x);
                    }
                } else {
                    assert(r.push(items.last())[r.len() as int] == x);
                }
            }
        }
    }
}

/// The search matches are items of `items` taken at strictly increasing
/// indices, each with a path that contains the query.
proof fn lemma_search_matches_indices(items: Seq<RepoItemView>, q: Seq<char>) -> (idx: Seq<int>)
    ensures
        idx.len() == search_matches(items, q).len(),
        forall|k: int|
            0 <= k < idx.len() ==> 0 <= #[trigger] idx[k] < items.len() && search_matches(items, q)[k]
                == items[idx[k]] && contains_seq(lowercase_of(items[idx[k]].path), q),
        forall|k1: int, k2: int| 0 <= k1 < k2 < idx.len() ==> #[trigger] idx[k1] < #[trigger] idx[k2],
    decreases items.len(),
{
    if items.len() == 0 {
        Seq::<int>::empty()
    } else {
        let init = items.drop_last();
        let prev = lemma_search_matches_indices(init, q);
        let r = search_matches(init, q);
        assert forall|k: int| 0 <= k < prev.len() implies items[prev[k]] == init[prev[k]] by {}
        if contains_seq(lowercase_of(items.last().path), q) {
            let idx = prev.push(items.len() - 1);
            assert forall|k: int| 0 <= k < idx.len() implies 0 <= #[trigger] idx[k] < items.len()
                && search_matches(items, q)[k] == items[idx[k]] && contains_seq(
                lowercase_of(items[idx[k]].path),
                q,
            ) by {
                if k < prev.len() {
                    assert(idx[k] == prev[k]);
                    assert(search_matches(items, q)[k] == r[k]);
                }
            }
            idx
        } else {
            prev
        }
    }
}

/// While searching, the list keeps the order of the search source: its
/// entries are items of the source taken at strictly increasing positions,
/// each with a path that contains the lowercased query, marked selected
/// exactly when its path is selected.
pub proof fn law_search_keeps_source_order(s: AppState)
    requires
        s.is_searching,
    ensures
        ({
            let src = seq_views(search_source(s));
            let sel = seq_views(s.selected_paths@);
            let v = view_items_spec(s);
            exists|idx: Seq<int>|
                {
                    &&& #[trigger] idx.len() == v.len()
                    &&& forall|k: int|
                        0 <= k < idx.len() ==> 0 <= #[trigger] idx[k] < src.len() && contains_seq(
                            lowercase_of(src[idx[k]].path),
                            lowercase_of(s.search_query@),
                        ) && v[k] == (RepoItemView {
                            selected: sel.contains(src[idx[k]].path),
                            ..src[idx[k]]
                        })
                    &&& forall|k1: int, k2: int|
                        0 <= k1 < k2 < idx.len() ==> #[trigger] idx[k1] < #[trigger] idx[k2]
                }
        }),
{
    let src = seq_views(search_source(s));
    let q = lowercase_of(s.search_query@);
    let sel = seq_views(s.selected_paths@);
    let m = search_matches(src, q);
    let v = view_items_spec(s);
    let idx = lemma_search_matches_indices(src, q);
    assert(v == m.map_values(|i: RepoItemView| with_selection(i, sel)));
    assert forall|k: int| 0 <= k < idx.len() implies 0 <= #[trigger] idx[k] < src.len() && contains_seq(
        lowercase_of(src[idx[k]].path),
        q,
    ) && v[k] == (RepoItemView { selected: sel.contains(src[idx[k]].path), ..src[idx[k]] }) by {
        assert(v[k] == with_selection(m[k], sel));
    }
}

/// While searching, the list shows every item of the search source (the
/// whole tree where it is loaded, else the current folder) whose lowercased
/// path contains the lowercased query, and nothing else; each is marked
/// selected exactly when its path is selected.
pub proof fn law_search_matches_paths(s: AppState)
    requires
        s.is_searching,
    ensures
        ({
            let src = seq_views(search_source(s));
            let q = lowercase_of(s.search_query@);
            let sel = seq_views(s.selected_paths@);
            let v = view_items_spec(s);
            &&& forall|j: int|
                0 <= j < src.len() && contains_seq(lowercase_of(src[j].path), q) ==> v.contains(
                    (RepoItemView { selected: sel.contains(src[j].path), ..src[j] }),
                )
            &&& forall|k: int|
                0 <= k < v.len() ==> exists|j: int|
                    0 <= j < src.len() && contains_seq(lowercase_of(src[j].path), q) && #[trigger] v[k] == (
                    RepoItemView { selected: sel.contains(src[j].path), ..src[j] })
        }),
{
    let src = seq_views(search_source(s));
    let q = lowercase_of(s.search_query@);
    let sel = seq_views(s.selected_paths@);
    let m = search_matches(src, q);
    let v = view_items_spec(s);
    lemma_search_matches_members(src, q);
    assert(v == m.map_values(|i: RepoItemView| with_selection(i, sel)));
    assert forall|j: int|
        0 <= j < src.len() && contains_seq(lowercase_of(src[j].path), q) implies v.contains(
        (RepoItemView { selected: sel.contains(src[j].path), ..src[j] }),
    ) by {
        assert(m.contains(src[j]));
        let t = choose|t: int| 0 <= t < m.len() && m[t] == src[j];
        assert(v[t] == with_selection(m[t], sel));
    }
    assert forall|k: int| 0 <= k < v.len() implies exists|j: int|
        0 <= j < src.len() && contains_seq(lowercase_of(src[j].path), q) && #[trigger] v[k] == (RepoItemView {
            selected: sel.contains(src[j].path),
            ..src[j]
        }) by {
        assert(m.contains(m[k]));
        let j = choose|j: int|
            0 <= j < src.len() && contains_seq(lowercase_of(src[j].path), q) && m[k] == src[j];
        assert(v[k] == with_selection(m[k], sel));
    }
}

// ---------------------------------------------------------------------------
// Entering a folder
// ---------------------------------------------------------------------------

/// Where a slash stands at `k - 1` and none from `k` on, the last segment
/// begins at `k`.
proof fn lemma_last_slash_end_at(p: Seq<char>, k: int)
    requires
        0 <= k <= p.len(),
        k > 0 ==> p[k - 1] == '/',
        forall|i: int| k <= i < p.len() ==> p[i] != '/',
    ensures
        last_slash_end(p) == k,
{
    lemma_last_slash_end(p);
    let e = last_slash_end(p);
    if e < k {
        assert(p[k - 1] != '/');
    } else if e > k {
        assert(p[e - 1] != '/');
    }
}

/// Every item just below `prefix` has a path that begins with `prefix`.
proof fn lemma_prefix_children_prefixed(items: Seq<RepoItemView>, prefix: Seq<char>)
    ensures
        forall|k: int|
            0 <= k < prefix_children_spec(items, prefix).len() ==> has_prefix(
                #[trigger] prefix_children_spec(items, prefix)[k].path,
                prefix,
            ) && !prefix_children_spec(items, prefix)[k].path.skip(prefix.len() as int).contains('/'),
    decreases items.len(),
{
    if items.len() > 0 {
        lemma_prefix_children_prefixed(items.drop_last(), prefix);
    }
}

/// Entering a directory listed in the current folder (its path is the
/// folder's path and its name joined by a slash, or its name alone at the
/// root) moves to that directory's own path: with the whole tree loaded the
/// new location is that path and every item now listed lies directly in it;
/// otherwise the folder asked for is that path.
pub proof fn law_enter_moves_to_item_path(o: AppState, n: AppState, key: KeyInput, a: KeyAction)
    requires
        o.mode == AppMode::Browse,
        !o.is_searching,
        key.code == KeyCode::Enter || key.code == KeyCode::Right || key.code == KeyCode::Char('l'),
        key_step(o, n, key, a),
        o.cursor < view_items_spec(o).len(),
        is_dir_view(view_items_spec(o)[o.cursor as int]),
        o.current_url matches Some(cur) && in_folder(
            view_items_spec(o)[o.cursor as int].path,
            cur@.path,
        ),
        view_items_spec(o)[o.cursor as int].name == view_items_spec(o)[o.cursor as int].path.skip(
            last_slash_end(view_items_spec(o)[o.cursor as int].path),
        ),
    ensures
        ({
            let p = view_items_spec(o)[o.cursor as int].path;
            match o.full_tree {
                Some(t) => {
                    &&& n.current_url matches Some(u) && u@.path == p
                    &&& forall|k: int|
                        0 <= k < n.items@.len() ==> has_prefix(#[trigger] n.items@[k]@.path, p.push('/'))
                            && !n.items@[k]@.path.skip(p.len() + 1int).contains('/')
                    &&& a is Nothing
                },
                None => a matches KeyAction::EnterFolder(u) && u@.path == p,
            }
        }),
{
    let v = view_items_spec(o);
    let item = v[o.cursor as int];
    let p = item.path;
    let cur = o.current_url.unwrap();
    let f = cur@.path;
    assert(!is_quit_chord(key));
    assert(key_step(o, n, key, a) == browse_step(o, n, key, a));
    assert(enter_step(o, n, a));
    if f.len() == 0 {
        assert forall|i: int| 0 <= i < p.len() implies p[i] != '/' by {
            if p[i] == '/' {
                assert(p.contains('/'));
            }
        }
        lemma_last_slash_end_at(p, 0);
        assert(item.name =~= p);
    } else {
        let k: int = f.len() + 1int;
        assert(p[k - 1] == f.push('/')[k - 1]);
        assert forall|i: int| k <= i < p.len() implies p[i] != '/' by {
            if p[i] == '/' {
                assert(p.skip(k)[i - k] == p[i]);
                assert(p.skip(k).contains('/'));
            }
        }
        lemma_last_slash_end_at(p, k);
        reveal_strlit("/");
        assert(p =~= f + "/"@ + item.name) by {
            assert(("/"@)[0] == '/');
            assert forall|i: int| 0 <= i < f.len() implies p[i] == f[i] by {
                assert(p[i] == f.push('/')[i]);
            }
        }
    }
    assert(entered_path(cur@, item.name) == p);
    match o.full_tree {
        Some(t) => {
            let pc = prefix_children_spec(seq_views(t@), p.push('/'));
            lemma_prefix_children_prefixed(seq_views(t@), p.push('/'));
            assert forall|k: int| 0 <= k < n.items@.len() implies has_prefix(
                #[trigger] n.items@[k]@.path,
                p.push('/'),
            ) && !n.items@[k]@.path.skip(p.len() + 1int).contains('/') by {
                let sv = seq_views(n.items@);
                assert(sv == synced(pc, seq_views(o.selected_paths@)));
                assert(sv.len() == pc.len());
                assert(sv[k] == n.items@[k]@);
                assert(sv[k] == with_selection(pc[k], seq_views(o.selected_paths@)));
            }
        },
        None => {},
    }
}

// ---------------------------------------------------------------------------
// What a download writes
// ---------------------------------------------------------------------------

/// An item is among the files under `prefix` exactly when it is a file of
/// `items` whose path begins with `prefix`, renamed from index `k` on.
proof fn lemma_files_under_members(items: Seq<RepoItemView>, prefix: Seq<char>, k: int)
    ensures
        forall|x: RepoItemView|
            #[trigger] files_under(items, prefix, k).contains(x) <==> exists|j: int|
                0 <= j < items.len() && is_file_view(items[j]) && has_prefix(items[j].path, prefix)
                    && x == renamed(items[j], k),
    decreases items.len(),
{
    if items.len() > 0 {
        let init = items.drop_last();
        lemma_files_under_members(init, prefix, k);
        let r = files_under(init, prefix, k);
        let l = items.last();
        let keep = is_file_view(l) && has_prefix(l.path, prefix);
        assert forall|x: RepoItemView|
            #[trigger] files_under(items, prefix, k).contains(x) <==> exists|j: int|
                0 <= j < items.len() && is_file_view(items[j]) && has_prefix(items[j].path, prefix)
                    && x == renamed(items[j], k) by {
            let all = files_under(items, prefix, k);
            if all.contains(x) {
                if r.contains(x) {
                    let j = choose|j: int|
                        0 <= j < init.len() && is_file_view(init[j]) && has_prefix(init[j].path, prefix)
                            && x == renamed(init[j], k);
                    assert(items[j] == init[j]);
                } else {
                    let m = choose|m: int| 0 <= m < all.len() && all[m] == x;
                    assert(keep);
                    assert(m == r.len());
                    assert(x == renamed(items[items.len() - 1], k));
                }
            }
            if exists|j: int|
                0 <= j < items.len() && is_file_view(items[j]) && has_prefix(items[j].path, prefix)
                    && x == renamed(items[j], k) {
                let j = choose|j: int|
                    0 <= j < items.len() && is_file_view(items[j]) && has_prefix(items[j].path, prefix)
                        && x == renamed(items[j], k);
                if j < items.len() - 1 {
                    assert(init[j] == items[j]);
                    assert(r.contains(x));
                    let m = choose|m: int| 0 <= m < r.len() && r[m] == x;
                    if keep {
                        assert(r.push(renamed(l, k))[m] == x);
                    }
                } else {
                    assert(r.push(renamed(l, k))[r.len() as int] == x);
                }
            }
        }
    }
}

/// An item is among the expansion of a selection exactly when some selected
/// item expands to it.
proof fn lemma_expand_all_members(tree: Seq<RepoItemView>, selected: Seq<RepoItemView>)
    ensures
        forall|x: RepoItemView|
            #[trigger] expand_all_for_download(tree, selected).contains(x) <==> exists|k: int|
                0 <= k < selected.len() && expand_for_download(tree, selected[k]).contains(x),
    decreases selected.len(),
{
    if selected.len() > 0 {
        let init = selected.drop_last();
        lemma_expand_all_members(tree, init);
        let a = expand_all_for_download(tree, init);
        let b = expand_for_download(tree, selected.last());
        assert(expand_all_for_download(tree, selected) == a + b);
        assert forall|x: RepoItemView|
            #[trigger] expand_all_for_download(tree, selected).contains(x) <==> exists|k: int|
                0 <= k < selected.len() && expand_for_download(tree, selected[k]).contains(x) by {
            let ab = a + b;
            if ab.contains(x) {
                let m = choose|m: int| 0 <= m < ab.len() && ab[m] == x;
                if m < a.len() {
                    assert(a[m] == x);
                    assert(a.contains(x));
                    let k = choose|k: int|
                        0 <= k < init.len() && expand_for_download(tree, init[k]).contains(x);
                    assert(selected[k] == init[k]);
                } else {
                    assert(b[m - a.len()] == x);
                    assert(b.contains(x));
                    assert(selected[selected.len() - 1] == selected.last());
                }
            }
            if exists|k: int| 0 <= k < selected.len() && expand_for_download(tree, selected[k]).contains(x) {
                let k = choose|k: int|
                    0 <= k < selected.len() && expand_for_download(tree, selected[k]).contains(x);
                if k < selected.len() - 1 {
                    assert(init[k] == selected[k]);
                    assert(a.contains(x));
                    let m = choose|m: int| 0 <= m < a.len() && a[m] == x;
                    assert(ab[m] == x);
                } else {
                    assert(b.contains(x));
                    let m = choose|m: int| 0 <= m < b.len() && b[m] == x;
                    assert(ab[a.len() + m] == x);
                }
            }
        }
    }
}

/// A path below folder `d` read from the start of `d`'s last segment is that
/// segment, a slash, and the path below `d`.
proof fn lemma_name_from_folder(d: Seq<char>, path: Seq<char>)
    requires
        has_prefix(path, d.push('/')),
    ensures
        path.skip(last_slash_end(d)) == d.skip(last_slash_end(d)) + "/"@ + path.skip(d.len() + 1int),
{
    lemma_last_slash_end(d);
    reveal_strlit("/");
    let e = last_slash_end(d);
    let lhs = path.skip(e);
    let rhs = d.skip(e) + "/"@ + path.skip(d.len() + 1int);
    assert(("/"@)[0] == '/');
    assert(lhs.len() == rhs.len());
    assert forall|i: int| 0 <= i < lhs.len() implies lhs[i] == rhs[i] by {
        assert(path[e + i] == d.push('/')[e + i] || e + i > d.len());
        if e + i < d.len() {
            assert(d.push('/')[e + i] == d[e + i]);
        } else if e + i == d.len() {
            assert(d.push('/')[e + i] == '/');
        }
    }
    assert(lhs =~= rhs);
}

/// Downloading a selection writes each selected file as it is, and in place
/// of each selected directory every file of the tree below it, marked
/// selected and named by the directory's own name, a slash and the file's
/// path below the directory (so a directory keeps its name and its layout,
/// without the folders above it); and nothing else.
pub proof fn law_download_names_from_folder(tree: Seq<RepoItemView>, selected: Seq<RepoItemView>)
    ensures
        forall|x: RepoItemView| #[trigger]
            expand_all_for_download(tree, selected).contains(x) ==> (exists|k: int|
                0 <= k < selected.len() && !is_dir_view(selected[k]) && x == selected[k]) || (exists|
                k: int,
                j: int,
            |
                0 <= k < selected.len() && 0 <= j < tree.len() && is_dir_view(selected[k])
                    && is_file_view(tree[j]) && has_prefix(tree[j].path, selected[k].path.push('/'))
                    && x == (RepoItemView {
                    name: selected[k].path.skip(last_slash_end(selected[k].path)) + "/"@
                        + tree[j].path.skip(selected[k].path.len() + 1int),
                    selected: true,
                    ..tree[j]
                })),
        forall|k: int|
            0 <= k < selected.len() && !is_dir_view(selected[k]) ==> expand_all_for_download(
                tree,
                selected,
            ).contains(#[trigger] selected[k]),
        forall|k: int, j: int|
            0 <= k < selected.len() && 0 <= j < tree.len() && is_dir_view(#[trigger] selected[k])
                && is_file_view(#[trigger] tree[j]) && has_prefix(tree[j].path, selected[k].path.push('/'))
                ==> expand_all_for_download(tree, selected).contains(
                (RepoItemView {
                    name: selected[k].path.skip(last_slash_end(selected[k].path)) + "/"@
                        + tree[j].path.skip(selected[k].path.len() + 1int),
                    selected: true,
                    ..tree[j]
                }),
            ),
{
    let r = expand_all_for_download(tree, selected);
    lemma_expand_all_members(tree, selected);
    assert forall|x: RepoItemView| #[trigger] r.contains(x) implies (exists|k: int|
        0 <= k < selected.len() && !is_dir_view(selected[k]) && x == selected[k]) || (exists|
        k: int,
        j: int,
    |
        0 <= k < selected.len() && 0 <= j < tree.len() && is_dir_view(selected[k]) && is_file_view(
            tree[j],
        ) && has_prefix(tree[j].path, selected[k].path.push('/')) && x == (RepoItemView {
            name: selected[k].path.skip(last_slash_end(selected[k].path)) + "/"@ + tree[j].path.skip(
                selected[k].path.len() + 1int,
            ),
            selected: true,
            ..tree[j]
        })) by {
        let k = choose|k: int| 0 <= k < selected.len() && expand_for_download(tree, selected[k]).contains(x);
        let d = selected[k];
        let e = expand_for_download(tree, d);
        if is_dir_view(d) {
            let pre = d.path.push('/');
            let lse = last_slash_end(d.path);
            let fu = files_under(tree, pre, lse);
            lemma_files_under_members(tree, pre, lse);
            let m = choose|m: int| 0 <= m < e.len() && e[m] == x;
            assert(e[m] == RepoItemView { selected: true, ..fu[m] });
            assert(fu.contains(fu[m]));
            let j = choose|j: int|
                0 <= j < tree.len() && is_file_view(tree[j]) && has_prefix(tree[j].path, pre) && fu[m]
                    == renamed(tree[j], lse);
            lemma_name_from_folder(d.path, tree[j].path);
            assert(x == (RepoItemView {
                name: d.path.skip(lse) + "/"@ + tree[j].path.skip(d.path.len() + 1int),
                selected: true,
                ..tree[j]
            }));
        } else {
            assert(e == seq![d]);
            assert(x == e[0]);
        }
    }
    assert forall|k: int|
        0 <= k < selected.len() && !is_dir_view(selected[k]) implies r.contains(
        #[trigger] selected[k],
    ) by {
        let e = expand_for_download(tree, selected[k]);
        assert(e == seq![selected[k]]);
        assert(e[0] == selected[k]);
        assert(e.contains(selected[k]));
    }
    assert forall|k: int, j: int|
        0 <= k < selected.len() && 0 <= j < tree.len() && is_dir_view(#[trigger] selected[k])
            && is_file_view(#[trigger] tree[j]) && has_prefix(tree[j].path, selected[k].path.push('/'))
            implies r.contains(
        (RepoItemView {
            name: selected[k].path.skip(last_slash_end(selected[k].path)) + "/"@ + tree[j].path.skip(
                selected[k].path.len() + 1int,
            ),
            selected: true,
            ..tree[j]
        }),
    ) by {
        let d = selected[k];
        let pre = d.path.push('/');
        let lse = last_slash_end(d.path);
        let fu = files_under(tree, pre, lse);
        let e = expand_for_download(tree, d);
        lemma_files_under_members(tree, pre, lse);
        lemma_name_from_folder(d.path, tree[j].path);
        assert(fu.contains(renamed(tree[j], lse)));
        let m = choose|m: int| 0 <= m < fu.len() && fu[m] == renamed(tree[j], lse);
        assert(e[m] == RepoItemView { selected: true, ..fu[m] });
        assert(e.contains(e[m]));
    }
}

/// The files under `prefix` are files of `items` whose paths begin with
/// `prefix`, taken at strictly increasing indices and renamed from `k` on.
proof fn lemma_files_under_indices(items: Seq<RepoItemView>, prefix: Seq<char>, k: int) -> (idx: Seq<
    int,
>)
    ensures
        idx.len() == files_under(items, prefix, k).len(),
        forall|t: int|
            0 <= t < idx.len() ==> 0 <= #[trigger] idx[t] < items.len() && is_file_view(items[idx[t]])
                && has_prefix(items[idx[t]].path, prefix) && files_under(items, prefix, k)[t]
                == renamed(items[idx[t]], k),
        forall|t1: int, t2: int| 0 <= t1 < t2 < idx.len() ==> #[trigger] idx[t1] < #[trigger] idx[t2],
    decreases items.len(),
{
    if items.len() == 0 {
        Seq::<int>::empty()
    } else {
        let init = items.drop_last();
        let prev = lemma_files_under_indices(init, prefix, k);
        let r = files_under(init, prefix, k);
        let l = items.last();
        assert forall|t: int| 0 <= t < prev.len() implies items[prev[t]] == init[prev[t]] by {}
        if is_file_view(l) && has_prefix(l.path, prefix) {
            let idx = prev.push(items.len() - 1);
            assert forall|t: int| 0 <= t < idx.len() implies 0 <= #[trigger] idx[t] < items.len()
                && is_file_view(items[idx[t]]) && has_prefix(items[idx[t]].path, prefix) && files_under(
                items,
                prefix,
                k,
            )[t] == renamed(items[idx[t]], k) by {
                if t < prev.len() {
                    assert(idx[t] == prev[t]);
                    assert(files_under(items, prefix, k)[t] == r[t]);
                }
            }
            idx
        } else {
            prev
        }
    }
}

/// A selected directory is downloaded as the files below it in the order of
/// the tree, each once: files of the tree at strictly increasing positions,
/// each marked selected and named by the directory's own name, a slash and
/// its path below the directory.
pub proof fn law_folder_download_in_tree_order(tree: Seq<RepoItemView>, d: RepoItemView)
    requires
        is_dir_view(d),
    ensures
        ({
            let e = expand_for_download(tree, d);
            exists|idx: Seq<int>|
                {
                    &&& #[trigger] idx.len() == e.len()
                    &&& forall|t: int|
                        0 <= t < idx.len() ==> 0 <= #[trigger] idx[t] < tree.len() && is_file_view(
                            tree[idx[t]],
                        ) && has_prefix(tree[idx[t]].path, d.path.push('/')) && e[t] == (RepoItemView {
                            name: d.path.skip(last_slash_end(d.path)) + "/"@ + tree[idx[t]].path.skip(
                                d.path.len() + 1int,
                            ),
                            selected: true,
                            ..tree[idx[t]]
                        })
                    &&& forall|t1: int, t2: int|
                        0 <= t1 < t2 < idx.len() ==> #[trigger] idx[t1] < #[trigger] idx[t2]
                }
        }),
{
    let e = expand_for_download(tree, d);
    let pre = d.path.push('/');
    let lse = last_slash_end(d.path);
    let fu = files_under(tree, pre, lse);
    let idx = lemma_files_under_indices(tree, pre, lse);
    assert forall|t: int| 0 <= t < idx.len() implies 0 <= #[trigger] idx[t] < tree.len() && is_file_view(
        tree[idx[t]],
    ) && has_prefix(tree[idx[t]].path, pre) && e[t] == (RepoItemView {
        name: d.path.skip(lse) + "/"@ + tree[idx[t]].path.skip(d.path.len() + 1int),
        selected: true,
        ..tree[idx[t]]
    }) by {
        lemma_name_from_folder(d.path, tree[idx[t]].path);
        assert(e[t] == RepoItemView { selected: true, ..fu[t] });
    }
}

/// Downloading two selections one after the other gives the files of the
/// first and then those of the second: the expansion of a selection is the
/// expansions of its parts, in order.
pub proof fn law_download_expansion_splits(
    tree: Seq<RepoItemView>,
    first: Seq<RepoItemView>,
    second: Seq<RepoItemView>,
)
    ensures
        expand_all_for_download(tree, first + second) == expand_all_for_download(tree, first)
            + expand_all_for_download(tree, second),
    decreases second.len(),
{
    if second.len() == 0 {
        assert(first + second =~= first);
        assert(expand_all_for_download(tree, second) =~= Seq::<RepoItemView>::empty());
        assert(expand_all_for_download(tree, first) + Seq::<RepoItemView>::empty() =~= expand_all_for_download(tree, first));
    } else {
        let init = second.drop_last();
        law_download_expansion_splits(tree, first, init);
        assert((first + second).drop_last() =~= first + init);
        assert((first + second).last() == second.last());
        let a = expand_all_for_download(tree, first);
        let b = expand_all_for_download(tree, init);
        let c = expand_for_download(tree, second.last());
        assert(a + b + c =~= a + (b + c));
    }
}

// ---------------------------------------------------------------------------
// The size column
// ---------------------------------------------------------------------------

/// The size column of a file shows its effective size: the LFS object's size
/// where it is known, else the size the API gave, else that it is unknown. A
/// folder shows a size stored for its path, and is left blank when none is.
pub proof fn law_size_cell_is_effective_size(i: RepoItemView, sizes: Seq<(Seq<char>, u64)>)
    ensures
        !is_dir_view(i) ==> size_cell_spec(i, sizes) == match (i.lfs_size, i.size) {
            (Some(l), _) => SizeCell::Bytes(l),
            (None, Some(s)) => SizeCell::Bytes(s),
            (None, None) => SizeCell::Unknown,
        },
        is_dir_view(i) ==> ((exists|k: int| 0 <= k < sizes.len() && sizes[k].0 == i.path) ==> exists|
            k: int,
        |
            0 <= k < sizes.len() && #[trigger] sizes[k].0 == i.path && size_cell_spec(i, sizes)
                == SizeCell::Bytes(sizes[k].1)),
        is_dir_view(i) ==> (!(exists|k: int| 0 <= k < sizes.len() && sizes[k].0 == i.path)
            ==> size_cell_spec(i, sizes) == SizeCell::Blank),
{
}

// ---------------------------------------------------------------------------
// What a response status means
// ---------------------------------------------------------------------------

/// Of a response's status (errors by their tags of `github_error_code`: 0
/// invalid token, 1 rate limit, 2 not found, 3 API error): any 2xx, and nothing else, is
/// success; only 404 is "not found", and it names the URL asked for; only 403
/// with a remaining-requests header can be the rate limit; 401 with a token is
/// an invalid token; and any other failing status (not 401 with a token, 403
/// or 404) is an API error whose text is `HTTP ` followed by the status.
pub proof fn law_response_status_meaning(
    status: u16,
    status_text: Seq<char>,
    has_token: bool,
    remaining_header: Option<Seq<char>>,
    url: Seq<char>,
)
    ensures
        (response_outcome_spec(status, status_text, has_token, remaining_header, url) is Ok) <==> (200
            <= status <= 299),
        (response_outcome_spec(status, status_text, has_token, remaining_header, url) matches Err(
            e,
        ) && e.0 == 2) <==> status == 404,
        status == 404 ==> response_outcome_spec(status, status_text, has_token, remaining_header, url)
            == Err::<(), (u8, Seq<char>)>((2u8, url)),
        (response_outcome_spec(status, status_text, has_token, remaining_header, url) matches Err(
            e,
        ) && e.0 == 1) ==> status == 403 && remaining_header is Some,
        status == 401 && has_token ==> response_outcome_spec(
            status,
            status_text,
            has_token,
            remaining_header,
            url,
        ) == Err::<(), (u8, Seq<char>)>((0u8, Seq::<char>::empty())),
        !(200 <= status <= 299) && !(status == 401 && has_token) && status != 403 && status != 404
            ==> response_outcome_spec(status, status_text, has_token, remaining_header, url) == Err::<
            (),
            (u8, Seq<char>),
        >((3u8, "HTTP "@ + status_text)),
{
}

} // verus!
