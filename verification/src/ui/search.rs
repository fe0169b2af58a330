//! Repository search: the results, their filters and their order.
use vstd::prelude::*;

use crate::sort::{seq_views, sort_by_view, sort_stable};
use crate::text::{seq_lt, str_equal, str_lt};
use crate::ui::{AppState, RepoSearchFilters, RepoSearchSort, is_default_filters};

verus! {

/// One repository found by a search.
#[derive(Debug)]
pub struct SearchItem {
    pub full_name: String,
    pub html_url: String,
    pub description: Option<String>,
    pub language: Option<String>,
    pub stargazers_count: u32,
    pub fork: bool,
    pub pushed_at: String,
}

/// The abstract value of a [`SearchItem`].
pub struct SearchItemView {
    pub full_name: Seq<char>,
    pub html_url: Seq<char>,
    pub description: Option<Seq<char>>,
    pub language: Option<Seq<char>>,
    pub stargazers_count: u32,
    pub fork: bool,
    pub pushed_at: Seq<char>,
}

impl View for SearchItem {
    type V = SearchItemView;

    open spec fn view(&self) -> SearchItemView {
        SearchItemView {
            full_name: self.full_name@,
            html_url: self.html_url@,
            description: self.description.deep_view(),
            language: self.language.deep_view(),
            stargazers_count: self.stargazers_count,
            fork: self.fork,
            pushed_at: self.pushed_at@,
        }
    }
}

impl Clone for SearchItem {
    fn clone(&self) -> (r: Self)
        ensures
            r == *self,
    {
        SearchItem {
            full_name: self.full_name.clone(),
            html_url: self.html_url.clone(),
            description: crate::github::copy_opt_string(&self.description),
            language: crate::github::copy_opt_string(&self.language),
            stargazers_count: self.stargazers_count,
            fork: self.fork,
            pushed_at: self.pushed_at.clone(),
        }
    }
}

/// A result passes the filters: forks only where they are included, at least
/// the minimum stars, and the chosen language where one is chosen.
pub open spec fn passes_filters(
    include_forks: bool,
    min_stars: u32,
    language: Option<Seq<char>>,
    i: SearchItemView,
) -> bool {
    &&& include_forks || !i.fork
    &&& i.stargazers_count >= min_stars
    &&& language matches Some(l) ==> i.language == Some(l)
}

/// The results that pass the filters, in order.
pub open spec fn filter_results(
    results: Seq<SearchItemView>,
    include_forks: bool,
    min_stars: u32,
    language: Option<Seq<char>>,
) -> Seq<SearchItemView>
    decreases results.len(),
{
    if results.len() == 0 {
        results
    } else {
        let r = filter_results(results.drop_last(), include_forks, min_stars, language);
        if passes_filters(include_forks, min_stars, language, results.last()) {
            r.push(results.last())
        } else {
            r
        }
    }
}

/// "Comes before" for each order: more stars first, then by name; more
/// recently pushed first, then more stars; or by name.
pub open spec fn search_order(sort: RepoSearchSort) -> spec_fn(SearchItemView, SearchItemView) -> bool {
    match sort {
        RepoSearchSort::Stars => |a: SearchItemView, b: SearchItemView|
            a.stargazers_count > b.stargazers_count || (a.stargazers_count == b.stargazers_count
                && seq_lt(a.full_name, b.full_name)),
        RepoSearchSort::Updated => |a: SearchItemView, b: SearchItemView|
            seq_lt(b.pushed_at, a.pushed_at) || (a.pushed_at == b.pushed_at && a.stargazers_count
                > b.stargazers_count),
        RepoSearchSort::Name => |a: SearchItemView, b: SearchItemView|
            seq_lt(a.full_name, b.full_name),
    }
}

/// The results that pass the filters, sorted stably by the chosen order.
pub open spec fn filtered_results_spec(results: Seq<SearchItemView>, f: RepoSearchFilters) -> Seq<
    SearchItemView,
> {
    sort_stable(
        filter_results(results, f.include_forks, f.min_stars, f.language.deep_view()),
        search_order(f.sort),
    )
}

/// `i` is the first index whose name is `l`.
pub open spec fn is_first_name(s: Seq<(Seq<char>, usize)>, l: Seq<char>, i: int) -> bool {
    &&& 0 <= i < s.len()
    &&& s[i].0 == l
    &&& forall|j: int| 0 <= j < i ==> #[trigger] s[j].0 != l
}

/// The first index whose name is `l`.
pub open spec fn first_index_of_name(s: Seq<(Seq<char>, usize)>, l: Seq<char>) -> Option<int> {
    if exists|i: int| is_first_name(s, l, i) {
        Some(choose|i: int| is_first_name(s, l, i))
    } else {
        None
    }
}

/// There is at most one first index of a name.
proof fn lemma_first_name_unique(s: Seq<(Seq<char>, usize)>, l: Seq<char>, i: int)
    requires
        is_first_name(s, l, i),
    ensures
        first_index_of_name(s, l) == Some(i),
{
    let c = choose|k: int| is_first_name(s, l, k);
    assert(is_first_name(s, l, c));
    if c < i {
        assert(s[c].0 != l);
    } else if c > i {
        assert(s[i].0 != l);
    }
}

/// The first index of `s` in `v`.
pub fn position_of(v: &[String], s: &str) -> (r: Option<usize>)
    ensures
        match r {
            Some(i) => i < v@.len() && v@[i as int]@ == s@ && forall|j: int|
                0 <= j < i ==> #[trigger] v@[j]@ != s@,
            None => forall|j: int| 0 <= j < v@.len() ==> #[trigger] v@[j]@ != s@,
        },
{
    for i in 0..v.len()
        invariant
            forall|j: int| 0 <= j < i ==> #[trigger] v@[j]@ != s@,
    {
        if str_equal(v[i].as_str(), s) {
            return Some(i);
        }
    }
    None
}

/// The first index in `v` of the name `l`.
fn find_name(v: &Vec<(String, usize)>, l: &str) -> (r: Option<usize>)
    ensures
        match first_index_of_name(seq_views(v@), l@) {
            Some(i) => r == Some(i as usize),
            None => r is None,
        },
        r matches Some(i) ==> is_first_name(seq_views(v@), l@, i as int),
{
    let ghost views = seq_views(v@);
    for i in 0..v.len()
        invariant
            views == seq_views(v@),
            forall|j: int| 0 <= j < i ==> #[trigger] views[j].0 != l@,
    {
        assert(views[i as int] == v@[i as int]@);
        if str_equal(v[i].0.as_str(), l) {
            proof {
                lemma_first_name_unique(views, l@, i as int);
            }
            return Some(i);
        }
    }
    assert(!exists|i: int| is_first_name(views, l@, i));
    None
}

/// The languages of the results, each once, in order of first appearance, with
/// how many results have it.
pub open spec fn language_counts(results: Seq<SearchItemView>) -> Seq<(Seq<char>, usize)>
    decreases results.len(),
{
    if results.len() == 0 {
        Seq::<(Seq<char>, usize)>::empty()
    } else {
        let r = language_counts(results.drop_last());
        match results.last().language {
            None => r,
            Some(l) => match first_index_of_name(r, l) {
                Some(k) => r.update(k, (l, (r[k].1 + 1) as usize)),
                None => r.push((l, 1usize)),
            },
        }
    }
}

/// "Comes before" for languages: more results first, then by name.
pub open spec fn language_order() -> spec_fn((Seq<char>, usize), (Seq<char>, usize)) -> bool {
    |a: (Seq<char>, usize), b: (Seq<char>, usize)| a.1 > b.1 || (a.1 == b.1 && seq_lt(a.0, b.0))
}

/// The languages of the results, the most common first, ties by name.
pub open spec fn search_languages_spec(results: Seq<SearchItemView>) -> Seq<Seq<char>> {
    sort_stable(language_counts(results), language_order()).map_values(
        |p: (Seq<char>, usize)| p.0,
    )
}

/// The minimum star count that follows `m`: 0, 10, 50, 100, 500, 1000, then 0.
pub open spec fn next_min_stars(m: u32) -> u32 {
    if m == 0 {
        10
    } else if m == 10 {
        50
    } else if m == 50 {
        100
    } else if m == 100 {
        500
    } else if m == 500 {
        1000
    } else {
        0
    }
}

/// The language filter that follows `current` among `languages`: the first
/// language after none or after an unknown one, the next one after a known
/// one, and none after the last.
pub open spec fn next_language(languages: Seq<Seq<char>>, current: Option<Seq<char>>) -> Option<
    Seq<char>,
> {
    if languages.len() == 0 {
        None
    } else {
        match current {
            None => Some(languages[0]),
            Some(c) => if exists|k: int| 0 <= k < languages.len() && languages[k] == c {
                let k = choose|k: int|
                    0 <= k < languages.len() && languages[k] == c && forall|j: int|
                        0 <= j < k ==> languages[j] != c;
                if k + 1 < languages.len() {
                    Some(languages[k + 1])
                } else {
                    None
                }
            } else {
                Some(languages[0])
            },
        }
    }
}

impl AppState {
    /// Restores the default search filters and puts the cursor on the first result.
    pub fn reset_repo_search_filters(&mut self)
        ensures
            is_default_filters(final(self).search_filters),
            *final(self) == (AppState {
                search_filters: final(self).search_filters,
                search_cursor: 0,
                ..*old(self)
            }),
    {
        self.search_filters = RepoSearchFilters::default();
        self.search_cursor = 0;
    }

    /// Abandons the search under way: a pending answer is ignored from now on,
    /// loading stops, the cursor goes to the top, and the results go too where
    /// `clear_results` says so.
    pub fn cancel_repo_search(&mut self, clear_results: bool)
        requires
            old(self).search_query_version < u64::MAX,
        ensures
            *final(self) == (AppState {
                search_query_version: (old(self).search_query_version + 1) as u64,
                search_loading: false,
                search_cursor: 0,
                search_results: if clear_results {
                    final(self).search_results
                } else {
                    old(self).search_results
                },
                ..*old(self)
            }),
            clear_results ==> final(self).search_results@.len() == 0,
    {
        self.search_query_version = self.search_query_version + 1;
        self.search_loading = false;
        self.search_cursor = 0;
        if clear_results {
            self.search_results.clear();
        }
    }

    /// The next minimum star count of the filter; the cursor goes to the top.
    pub fn cycle_repo_search_min_stars(&mut self)
        ensures
            final(self).search_filters == (RepoSearchFilters {
                min_stars: next_min_stars(old(self).search_filters.min_stars),
                ..old(self).search_filters
            }),
            *final(self) == (AppState {
                search_filters: final(self).search_filters,
                search_cursor: 0,
                ..*old(self)
            }),
    {
        self.search_filters.min_stars = match self.search_filters.min_stars {
            0 => 10,
            10 => 50,
            50 => 100,
            100 => 500,
            500 => 1000,
            _ => 0,
        };
        self.search_cursor = 0;
    }

    /// The results that pass the filters, sorted by the chosen order.
    pub fn get_filtered_search_results(&self) -> (r: Vec<SearchItem>)
        ensures
            seq_views(r@) == filtered_results_spec(seq_views(self.search_results@), self.search_filters),
    {
        let ghost views = seq_views(self.search_results@);
        let f = &self.search_filters;
        let mut kept: Vec<SearchItem> = Vec::new();
        assert(views.take(0) =~= Seq::<SearchItemView>::empty());
        for i in 0..self.search_results.len()
            invariant
                views == seq_views(self.search_results@),
                f == &self.search_filters,
                seq_views(kept@) == filter_results(
                    views.take(i as int),
                    f.include_forks,
                    f.min_stars,
                    f.language.deep_view(),
                ),
        {
            let item = &self.search_results[i];
            assert(views.take(i + 1).drop_last() =~= views.take(i as int));
            assert(views.take(i + 1).last() == item@);
            let lang_ok = match &f.language {
                None => true,
                Some(l) => match &item.language {
                    Some(il) => str_equal(il.as_str(), l.as_str()),
                    None => false,
                },
            };
            if (f.include_forks || !item.fork) && item.stargazers_count >= f.min_stars && lang_ok {
                let ghost before = seq_views(kept@);
                kept.push(item.clone());
                assert(seq_views(kept@) =~= before.push(item@));
            }
        }
        assert(views.take(self.search_results@.len() as int) =~= views);
        match f.sort {
            RepoSearchSort::Stars => {
                let less = |a: &SearchItem, b: &SearchItem| -> (res: bool)
                    ensures
                        res == (a.stargazers_count > b.stargazers_count || (a.stargazers_count
                            == b.stargazers_count && seq_lt(a.full_name@, b.full_name@))),
                    {
                        a.stargazers_count > b.stargazers_count || (a.stargazers_count
                            == b.stargazers_count && str_lt(
                            a.full_name.as_str(),
                            b.full_name.as_str(),
                        ))
                    };
                sort_by_view(kept, less, Ghost(search_order(RepoSearchSort::Stars)))
            },
            RepoSearchSort::Updated => {
                let less = |a: &SearchItem, b: &SearchItem| -> (res: bool)
                    ensures
                        res == (seq_lt(b.pushed_at@, a.pushed_at@) || (a.pushed_at@
                            == b.pushed_at@ && a.stargazers_count > b.stargazers_count)),
                    {
                        str_lt(b.pushed_at.as_str(), a.pushed_at.as_str()) || (str_equal(
                            a.pushed_at.as_str(),
                            b.pushed_at.as_str(),
                        ) && a.stargazers_count > b.stargazers_count)
                    };
                sort_by_view(kept, less, Ghost(search_order(RepoSearchSort::Updated)))
            },
            RepoSearchSort::Name => {
                let less = |a: &SearchItem, b: &SearchItem| -> (res: bool)
                    ensures
                        res == seq_lt(a.full_name@, b.full_name@),
                    { str_lt(a.full_name.as_str(), b.full_name.as_str()) };
                sort_by_view(kept, less, Ghost(search_order(RepoSearchSort::Name)))
            },
        }
    }

    /// The languages of the results, the most common first, ties by name.
    pub fn get_search_languages(&self) -> (r: Vec<String>)
        ensures
            seq_views(r@) == search_languages_spec(seq_views(self.search_results@)),
    {
        let ghost views = seq_views(self.search_results@);
        let mut counts: Vec<(String, usize)> = Vec::new();
        assert(views.take(0) =~= Seq::<SearchItemView>::empty());
        for i in 0..self.search_results.len()
            invariant
                views == seq_views(self.search_results@),
                i <= self.search_results@.len(),
                seq_views(counts@) == language_counts(views.take(i as int)),
                forall|k: int| 0 <= k < counts@.len() ==> #[trigger] counts@[k].1 <= i,
        {
            let item = &self.search_results[i];
            assert(views.take(i + 1).drop_last() =~= views.take(i as int));
            assert(views.take(i + 1).last() == item@);
            if let Some(lang) = &item.language {
                let ghost before = seq_views(counts@);
                match find_name(&counts, lang.as_str()) {
                    Some(k) => {
                        let c = counts[k].1;
                        assert(c <= i);
                        let name = counts[k].0.clone();
                        assert(before[k as int].0 == lang@);
                        counts.set(k, (name, c + 1));
                        assert(seq_views(counts@) =~= before.update(
                            k as int,
                            (lang@, (before[k as int].1 + 1) as usize),
                        ));
                    },
                    None => {
                        counts.push((lang.clone(), 1));
                        assert(seq_views(counts@) =~= before.push((lang@, 1usize)));
                    },
                }
            }
        }
        assert(views.take(self.search_results@.len() as int) =~= views);
        let less = |a: &(String, usize), b: &(String, usize)| -> (res: bool)
            ensures
                res == (a.1 > b.1 || (a.1 == b.1 && seq_lt(a.0@, b.0@))),
            { a.1 > b.1 || (a.1 == b.1 && str_lt(a.0.as_str(), b.0.as_str())) };
        let sorted = sort_by_view(counts, less, Ghost(language_order()));
        let ghost sv = seq_views(sorted@);
        let mut r: Vec<String> = Vec::new();
        for i in 0..sorted.len()
            invariant
                sv == seq_views(sorted@),
                seq_views(r@) == sv.take(i as int).map_values(|p: (Seq<char>, usize)| p.0),
        {
            assert(sv[i as int] == sorted@[i as int]@);
            let ghost before = seq_views(r@);
            r.push(sorted[i].0.clone());
            assert(seq_views(r@) =~= before.push(sv[i as int].0));
            assert(sv.take(i + 1).map_values(|p: (Seq<char>, usize)| p.0) =~= sv.take(
                i as int,
            ).map_values(|p: (Seq<char>, usize)| p.0).push(sv[i as int].0));
        }
        assert(sv.take(sorted@.len() as int) =~= sv);
        r
    }

    /// Moves the language filter to the next of the results' languages (see
    /// [`next_language`]); the cursor goes to the top.
    pub fn cycle_repo_search_language(&mut self)
        ensures
            final(self).search_filters.language.deep_view() == next_language(
                search_languages_spec(seq_views(old(self).search_results@)),
                old(self).search_filters.language.deep_view(),
            ),
            final(self).search_filters == (RepoSearchFilters {
                language: final(self).search_filters.language,
                ..old(self).search_filters
            }),
            *final(self) == (AppState {
                search_filters: final(self).search_filters,
                search_cursor: 0,
                ..*old(self)
            }),
    {
        let languages = self.get_search_languages();
        let ghost lv = seq_views(languages@);
        if languages.len() == 0 {
            self.search_filters.language = None;
            self.search_cursor = 0;
            return;
        }
        assert(lv[0] == languages@[0]@);
        let next = match &self.search_filters.language {
            None => Some(languages[0].clone()),
            Some(current) => {
                let found = position_of(languages.as_slice(), current.as_str());
                match found {
                    Some(idx) => {
                        assert(lv[idx as int] == languages@[idx as int]@);
                        assert forall|j: int| 0 <= j < idx implies lv[j] != current@ by {
                            assert(lv[j] == languages@[j]@);
                        }
                        assert(lv[idx as int] == current@);
                        let ghost k = choose|k: int|
                            0 <= k < lv.len() && lv[k] == current@ && forall|j: int|
                                0 <= j < k ==> lv[j] != current@;
                        assert(0 <= idx < lv.len() && lv[idx as int] == current@ && forall|j: int|
                            0 <= j < idx ==> lv[j] != current@);
                        assert(k == idx) by {
                            if k < idx {
                                assert(lv[k] != current@);
                            } else if k > idx {
                                assert(lv[idx as int] != current@);
                            }
                        }
                        if idx + 1 < languages.len() {
                            assert(lv[idx + 1] == languages@[idx + 1]@);
                            Some(languages[idx + 1].clone())
                        } else {
                            None
                        }
                    },
                    None => {
                        assert forall|j: int| 0 <= j < lv.len() implies lv[j] != current@ by {
                            assert(lv[j] == languages@[j]@);
                        }
                        Some(languages[0].clone())
                    },
                }
            },
        };
        self.search_filters.language = next;
        self.search_cursor = 0;
    }
}

} // verus!
