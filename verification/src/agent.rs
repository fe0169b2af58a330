//! The machine-readable agent mode: JSON envelopes, error codes, and the
//! resolution of requested repository paths into the files to download.
use vstd::prelude::*;

use crate::github::{
    GitHubError, GitHubUrl, GitTreeResponse, RepoItem, RepoItemView, actual_download_url_view,
    actual_size_view, contents_url, build_contents_url, copy_opt_string, is_file_view,
};
use crate::sort::{seq_views, sort_by_view, sort_stable};
use crate::text::{
    append_str, chars_of, contains_seq, contains_chars, copy_str, has_prefix, last_slash_end,
    last_slash_end_exec, lemma_last_slash_end, lowercase_of, replace_char, replace_chars, seq_lt,
    starts_with, str_equal, str_lt, string_of, to_lowercase, trim_char, trim_chars,
};

verus! {

/// The version of the agent envelope format.
pub const AGENT_API_VERSION: &'static str = "1";

/// One entry of a repository tree as the agent reports it.
#[derive(Debug)]
pub struct AgentTreeEntry {
    pub path: String,
    pub kind: String,
    pub size: Option<u64>,
    pub download_url: Option<String>,
    pub is_lfs: bool,
}

/// The agent's answer to a tree request.
#[derive(Debug)]
pub struct AgentTreeResponse {
    pub owner: String,
    pub repo: String,
    pub branch: String,
    pub path: String,
    pub truncated: bool,
    pub entries: Vec<AgentTreeEntry>,
}

/// The agent's answer to a download request.
#[derive(Debug)]
pub struct AgentDownloadResponse {
    pub owner: String,
    pub repo: String,
    pub branch: String,
    pub output_dir: String,
    pub downloaded_paths: Vec<String>,
    pub errors: Vec<String>,
}

/// The envelope around every agent answer: either data or an error.
#[derive(Debug)]
pub struct AgentEnvelope<T> {
    pub api_version: &'static str,
    pub ok: bool,
    pub command: String,
    pub data: Option<T>,
    pub error: Option<AgentErrorResponse>,
}

/// The error part of an envelope: a stable code and a message.
#[derive(Debug)]
pub struct AgentErrorResponse {
    pub code: String,
    pub message: String,
}

impl<T> AgentEnvelope<T> {
    /// A successful answer to `command` carrying `data`.
    pub fn success(command: &str, data: T) -> (r: Self)
        ensures
            r.api_version@ == AGENT_API_VERSION@,
            r.ok,
            r.command@ == command@,
            r.data == Some(data),
            r.error is None,
    {
        AgentEnvelope {
            api_version: AGENT_API_VERSION,
            ok: true,
            command: copy_str(command),
            data: Some(data),
            error: None,
        }
    }

    /// A failed answer to `command` with an error code and message.
    pub fn error(command: &str, code: &str, message: &str) -> (r: Self)
        ensures
            r.api_version@ == AGENT_API_VERSION@,
            !r.ok,
            r.command@ == command@,
            r.data is None,
            r.error matches Some(e) && e.code@ == code@ && e.message@ == message@,
    {
        AgentEnvelope {
            api_version: AGENT_API_VERSION,
            ok: false,
            command: copy_str(command),
            data: None,
            error: Some(AgentErrorResponse { code: copy_str(code), message: copy_str(message) }),
        }
    }
}

// ---------------------------------------------------------------------------
// Paths and URLs
// ---------------------------------------------------------------------------

/// A requested path with backslashes turned into slashes and no leading or
/// trailing slashes.
pub open spec fn normalize_path_spec(p: Seq<char>) -> Seq<char> {
    trim_char(replace_char(p, '\\', '/'), '/')
}

/// Normalizes a requested path: backslashes become slashes, and leading and
/// trailing slashes go.
pub fn normalize_requested_path(path: &str) -> (r: String)
    ensures
        r@ == normalize_path_spec(path@),
{
    let v = chars_of(path);
    let replaced = replace_chars(v.as_slice(), '\\', '/');
    let trimmed = trim_chars(replaced.as_slice(), '/');
    string_of(trimmed.as_slice())
}

/// The contents API URL of `path` (normalized first) in a repository branch.
pub fn contents_api_url(owner: &str, repo: &str, branch: &str, path: &str) -> (r: String)
    ensures
        r@ == contents_url(owner@, repo@, branch@, normalize_path_spec(path@)),
{
    let v = chars_of(path);
    let replaced = replace_chars(v.as_slice(), '\\', '/');
    let trimmed = trim_chars(replaced.as_slice(), '/');
    build_contents_url(owner, repo, branch, trimmed.as_slice())
}

/// The repository item that a Git tree entry stands for.
pub open spec fn tree_item_view(
    path: Seq<char>,
    entry_type: Seq<char>,
    size: Option<u64>,
    owner: Seq<char>,
    repo: Seq<char>,
    branch: Seq<char>,
) -> RepoItemView {
    let is_tree = entry_type == "tree"@;
    RepoItemView {
        name: path.skip(last_slash_end(path)),
        item_type: if is_tree {
            "dir"@
        } else {
            "file"@
        },
        path: path,
        download_url: if is_tree {
            None
        } else {
            Some(
                "https://raw.githubusercontent.com/"@ + owner + "/"@ + repo + "/"@ + branch + "/"@
                    + path,
            )
        },
        url: "https://api.github.com/repos/"@ + owner + "/"@ + repo + "/contents/"@ + path
            + "?ref="@ + branch,
        size: size,
        selected: false,
        lfs_oid: None,
        lfs_size: None,
        lfs_download_url: None,
    }
}

/// Turns the entries of a Git tree into repository items: `tree` entries become
/// directories, all others files with a raw download URL; the name is the text
/// after the last slash of the path.
pub fn map_tree_to_items(tree: GitTreeResponse, owner: &str, repo: &str, branch: &str) -> (r: Vec<
    RepoItem,
>)
    ensures
        r@.len() == tree.tree@.len(),
        forall|i: int|
            0 <= i < r@.len() ==> #[trigger] r@[i]@ == tree_item_view(
                tree.tree@[i].path@,
                tree.tree@[i].entry_type@,
                tree.tree@[i].size,
                owner@,
                repo@,
                branch@,
            ),
{
    let entries = tree.tree;
    let mut r: Vec<RepoItem> = Vec::new();
    for i in 0..entries.len()
        invariant
            r@.len() == i,
            forall|k: int|
                0 <= k < i ==> #[trigger] r@[k]@ == tree_item_view(
                    entries@[k].path@,
                    entries@[k].entry_type@,
                    entries@[k].size,
                    owner@,
                    repo@,
                    branch@,
                ),
    {
        let entry = &entries[i];
        let pv = chars_of(entry.path.as_str());
        let start = last_slash_end_exec(pv.as_slice());
        proof {
            lemma_last_slash_end(pv@);
        }
        let mut name_chars: Vec<char> = Vec::new();
        for q in start..pv.len()
            invariant
                start <= pv@.len(),
                name_chars@ == pv@.subrange(start as int, q as int),
        {
            name_chars.push(pv[q]);
            assert(name_chars@ =~= pv@.subrange(start as int, q + 1));
        }
        assert(name_chars@ =~= pv@.skip(start as int));
        let tv = chars_of(entry.entry_type.as_str());
        let tree_lit = chars_of("tree");
        let is_tree = crate::text::chars_equal(tv.as_slice(), tree_lit.as_slice());
        let item_type = if is_tree {
            copy_str("dir")
        } else {
            copy_str("file")
        };
        let download_url = if is_tree {
            None
        } else {
            let mut d = String::new();
            append_str(&mut d, "https://raw.githubusercontent.com/");
            append_str(&mut d, owner);
            append_str(&mut d, "/");
            append_str(&mut d, repo);
            append_str(&mut d, "/");
            append_str(&mut d, branch);
            append_str(&mut d, "/");
            append_str(&mut d, entry.path.as_str());
            Some(d)
        };
        let mut url = String::new();
        append_str(&mut url, "https://api.github.com/repos/");
        append_str(&mut url, owner);
        append_str(&mut url, "/");
        append_str(&mut url, repo);
        append_str(&mut url, "/contents/");
        append_str(&mut url, entry.path.as_str());
        append_str(&mut url, "?ref=");
        append_str(&mut url, branch);
        let item = RepoItem {
            name: string_of(name_chars.as_slice()),
            item_type,
            path: entry.path.clone(),
            download_url,
            url,
            size: entry.size,
            selected: false,
            lfs_oid: None,
            lfs_size: None,
            lfs_download_url: None,
        };
        assert(item@ =~~= tree_item_view(
            entry.path@,
            entry.entry_type@,
            entry.size,
            owner@,
            repo@,
            branch@,
        ));
        r.push(item);
    }
    r
}


// ---------------------------------------------------------------------------
// Resolving requested paths
// ---------------------------------------------------------------------------

/// Why requested paths could not be resolved.
#[derive(Debug)]
pub enum ResolveError {
    /// A directory was requested that holds no file.
    NoFilesUnder(String),
    /// A path was requested that names no item and no directory.
    PathNotFound(String),
}

/// The abstract value of a [`ResolveError`].
pub enum ResolveFailure {
    NoFilesUnder(Seq<char>),
    PathNotFound(Seq<char>),
}

impl View for ResolveError {
    type V = ResolveFailure;

    open spec fn view(&self) -> ResolveFailure {
        match self {
            ResolveError::NoFilesUnder(p) => ResolveFailure::NoFilesUnder(p@),
            ResolveError::PathNotFound(p) => ResolveFailure::PathNotFound(p@),
        }
    }
}

/// The description of each resolution failure.
pub open spec fn resolve_failure_message(e: ResolveFailure) -> Seq<char> {
    match e {
        ResolveFailure::NoFilesUnder(p) => "No downloadable files found under '"@ + p + "'"@,
        ResolveFailure::PathNotFound(p) => "Path '"@ + p + "' was not found in the repository tree"@,
    }
}

impl ResolveError {
    /// The human-readable description of the error.
    pub fn message(&self) -> (r: String)
        ensures
            r@ == resolve_failure_message(self@),
    {
        let mut m = String::new();
        match self {
            ResolveError::NoFilesUnder(p) => {
                append_str(&mut m, "No downloadable files found under '");
                append_str(&mut m, p.as_str());
                append_str(&mut m, "'");
            },
            ResolveError::PathNotFound(p) => {
                append_str(&mut m, "Path '");
                append_str(&mut m, p.as_str());
                append_str(&mut m, "' was not found in the repository tree");
            },
        }
        assert(m@ =~= resolve_failure_message(self@));
        m
    }
}

/// `i` is the first index of an item whose path is `p`.
pub open spec fn is_first_with_path(items: Seq<RepoItemView>, p: Seq<char>, i: int) -> bool {
    &&& 0 <= i < items.len()
    &&& items[i].path == p
    &&& forall|j: int| 0 <= j < i ==> #[trigger] items[j].path != p
}

/// The index of the first item whose path is `p`.
pub open spec fn first_with_path(items: Seq<RepoItemView>, p: Seq<char>) -> Option<int> {
    if exists|i: int| is_first_with_path(items, p, i) {
        Some(choose|i: int| is_first_with_path(items, p, i))
    } else {
        None
    }
}

/// There is at most one first index.
proof fn lemma_first_with_path_unique(items: Seq<RepoItemView>, p: Seq<char>, i: int)
    requires
        is_first_with_path(items, p, i),
    ensures
        first_with_path(items, p) == Some(i),
{
    let c = choose|k: int| is_first_with_path(items, p, k);
    assert(is_first_with_path(items, p, c));
    if c < i {
        assert(items[c].path != p);
    } else if c > i {
        assert(items[i].path != p);
    }
}

/// Finds the first item whose path is `p`.
pub fn find_by_path(items: &[RepoItem], p: &str) -> (r: Option<usize>)
    ensures
        match first_with_path(seq_views(items@), p@) {
            Some(i) => r == Some(i as usize),
            None => r is None,
        },
{
    let ghost views = seq_views(items@);
    for i in 0..items.len()
        invariant
            views == seq_views(items@),
            forall|j: int| 0 <= j < i ==> #[trigger] views[j].path != p@,
    {
        assert(views[i as int] == items@[i as int]@);
        if crate::text::str_equal(items[i].path.as_str(), p) {
            proof {
                lemma_first_with_path_unique(views, p@, i as int);
            }
            return Some(i);
        }
    }
    assert(!exists|i: int| is_first_with_path(views, p@, i));
    None
}

/// `i` renamed to its path from index `k` on.
pub open spec fn renamed(i: RepoItemView, k: int) -> RepoItemView {
    RepoItemView { name: i.path.skip(k), ..i }
}

/// The files of `items` whose paths begin with `prefix`, in order, each named
/// by its path from index `k` on.
pub open spec fn files_under(items: Seq<RepoItemView>, prefix: Seq<char>, k: int) -> Seq<RepoItemView>
    decreases items.len(),
{
    if items.len() == 0 {
        Seq::<RepoItemView>::empty()
    } else {
        let r = files_under(items.drop_last(), prefix, k);
        let i = items.last();
        if is_file_view(i) && has_prefix(i.path, prefix) {
            r.push(renamed(i, k))
        } else {
            r
        }
    }
}

/// The files of `items`, in order.
pub open spec fn files_of(items: Seq<RepoItemView>) -> Seq<RepoItemView>
    decreases items.len(),
{
    if items.len() == 0 {
        Seq::<RepoItemView>::empty()
    } else {
        let r = files_of(items.drop_last());
        if is_file_view(items.last()) {
            r.push(items.last())
        } else {
            r
        }
    }
}

/// The files of `items` whose paths begin with `prefix`, named by their path
/// from index `k` on.
pub fn files_under_exec(items: &[RepoItem], prefix: &[char], k: usize) -> (r: Vec<RepoItem>)
    requires
        k <= prefix@.len(),
    ensures
        seq_views(r@) == files_under(seq_views(items@), prefix@, k as int),
{
    let ghost views = seq_views(items@);
    let mut r: Vec<RepoItem> = Vec::new();
    assert(views.take(0) =~= Seq::<RepoItemView>::empty());
    for i in 0..items.len()
        invariant
            k <= prefix@.len(),
            views == seq_views(items@),
            seq_views(r@) == files_under(views.take(i as int), prefix@, k as int),
    {
        let item = &items[i];
        assert(views.take(i + 1).drop_last() =~= views.take(i as int));
        assert(views.take(i + 1).last() == item@);
        let pv = chars_of(item.path.as_str());
        if item.is_file() && starts_with(pv.as_slice(), prefix) {
            let mut name: Vec<char> = Vec::new();
            for q in k..pv.len()
                invariant
                    k <= prefix@.len() <= pv@.len(),
                    name@ == pv@.subrange(k as int, q as int),
            {
                name.push(pv[q]);
                assert(name@ =~= pv@.subrange(k as int, q + 1));
            }
            assert(name@ =~= pv@.skip(k as int));
            let mut copy = item.clone();
            copy.name = string_of(name.as_slice());
            let ghost before = seq_views(r@);
            r.push(copy);
            assert(seq_views(r@) =~= before.push(renamed(item@, k as int)));
        }
    }
    assert(views.take(items@.len() as int) =~= views);
    r
}

/// The files of `items`, in order.
fn collect_files(items: &[RepoItem]) -> (r: Vec<RepoItem>)
    ensures
        seq_views(r@) == files_of(seq_views(items@)),
{
    let ghost views = seq_views(items@);
    let mut r: Vec<RepoItem> = Vec::new();
    assert(views.take(0) =~= Seq::<RepoItemView>::empty());
    for i in 0..items.len()
        invariant
            views == seq_views(items@),
            seq_views(r@) == files_of(views.take(i as int)),
    {
        let item = &items[i];
        assert(views.take(i + 1).drop_last() =~= views.take(i as int));
        assert(views.take(i + 1).last() == item@);
        if item.is_file() {
            let ghost before = seq_views(r@);
            r.push(item.clone());
            assert(seq_views(r@) =~= before.push(item@));
        }
    }
    assert(views.take(items@.len() as int) =~= views);
    r
}

/// What one normalized request `n` resolves to: the item itself where a file
/// has that path; the files under it where a directory has that path (named
/// from the directory's own name on); else the files under that path (named
/// by their whole path). A request that yields no file fails.
pub open spec fn resolve_one_spec(items: Seq<RepoItemView>, n: Seq<char>) -> Result<
    Seq<RepoItemView>,
    ResolveFailure,
> {
    match first_with_path(items, n) {
        Some(idx) => if is_file_view(items[idx]) {
            Ok(seq![items[idx]])
        } else {
            let f = files_under(items, n.push('/'), last_slash_end(n));
            if f.len() == 0 {
                Err(ResolveFailure::NoFilesUnder(n))
            } else {
                Ok(f)
            }
        },
        None => {
            let f = files_under(items, n.push('/'), 0);
            if f.len() == 0 {
                Err(ResolveFailure::PathNotFound(n))
            } else {
                Ok(f)
            }
        },
    }
}

/// The requests resolved one after the other and their results concatenated;
/// the first request that fails decides the error.
pub open spec fn resolve_all_spec(items: Seq<RepoItemView>, reqs: Seq<Seq<char>>) -> Result<
    Seq<RepoItemView>,
    ResolveFailure,
>
    decreases reqs.len(),
{
    if reqs.len() == 0 {
        Ok(Seq::<RepoItemView>::empty())
    } else {
        match resolve_all_spec(items, reqs.drop_last()) {
            Err(e) => Err(e),
            Ok(acc) => match resolve_one_spec(items, normalize_path_spec(reqs.last())) {
                Err(e) => Err(e),
                Ok(f) => Ok(acc + f),
            },
        }
    }
}

/// "Comes before" by path.
pub open spec fn path_order() -> spec_fn(RepoItemView, RepoItemView) -> bool {
    |a: RepoItemView, b: RepoItemView| seq_lt(a.path, b.path)
}

/// `s` without each item whose path equals that of the item kept before it.
pub open spec fn dedup_by_path(s: Seq<RepoItemView>) -> Seq<RepoItemView>
    decreases s.len(),
{
    if s.len() == 0 {
        s
    } else {
        let r = dedup_by_path(s.drop_last());
        if r.len() > 0 && r.last().path == s.last().path {
            r
        } else {
            r.push(s.last())
        }
    }
}

/// What a selection of paths resolves to: with no path requested, every file;
/// otherwise the resolved items sorted by path (stably) with repeated paths
/// dropped.
pub open spec fn resolve_spec(items: Seq<RepoItemView>, reqs: Seq<Seq<char>>) -> Result<
    Seq<RepoItemView>,
    ResolveFailure,
> {
    if reqs.len() == 0 {
        Ok(files_of(items))
    } else {
        match resolve_all_spec(items, reqs) {
            Ok(r) => Ok(dedup_by_path(sort_stable(r, path_order()))),
            Err(e) => Err(e),
        }
    }
}

/// Once a prefix of the requests fails, all of them fail the same way.
proof fn lemma_resolve_all_error_stays(items: Seq<RepoItemView>, reqs: Seq<Seq<char>>, k: int)
    requires
        0 <= k <= reqs.len(),
        resolve_all_spec(items, reqs.take(k)) is Err,
    ensures
        resolve_all_spec(items, reqs) == resolve_all_spec(items, reqs.take(k)),
    decreases reqs.len(),
{
    if k == reqs.len() {
        assert(reqs.take(k) =~= reqs);
    } else {
        assert(reqs.drop_last().take(k) =~= reqs.take(k));
        lemma_resolve_all_error_stays(items, reqs.drop_last(), k);
    }
}

/// Resolves one normalized request.
fn resolve_one(items: &[RepoItem], n: &String) -> (r: Result<Vec<RepoItem>, ResolveError>)
    ensures
        match resolve_one_spec(seq_views(items@), n@) {
            Ok(v) => r matches Ok(x) && seq_views(x@) == v,
            Err(e) => r matches Err(x) && x@ == e,
        },
{
    let ghost views = seq_views(items@);
    let nv = chars_of(n.as_str());
    let mut prefix = crate::text::copy_chars(nv.as_slice());
    prefix.push('/');
    assert(prefix@ == n@.push('/'));
    match find_by_path(items, n.as_str()) {
        Some(idx) => {
            assert(views[idx as int] == items@[idx as int]@);
            if items[idx].is_file() {
                let mut v: Vec<RepoItem> = Vec::new();
                v.push(items[idx].clone());
                assert(seq_views(v@) =~= seq![views[idx as int]]);
                Ok(v)
            } else {
                let k = last_slash_end_exec(nv.as_slice());
                proof {
                    lemma_last_slash_end(nv@);
                }
                let f = files_under_exec(items, prefix.as_slice(), k);
                if f.len() == 0 {
                    Err(ResolveError::NoFilesUnder(n.clone()))
                } else {
                    Ok(f)
                }
            }
        },
        None => {
            let f = files_under_exec(items, prefix.as_slice(), 0);
            if f.len() == 0 {
                Err(ResolveError::PathNotFound(n.clone()))
            } else {
                Ok(f)
            }
        },
    }
}

/// `v` without each item whose path equals that of the item kept before it.
pub fn dedup_items_by_path(v: &[RepoItem]) -> (r: Vec<RepoItem>)
    ensures
        seq_views(r@) == dedup_by_path(seq_views(v@)),
{
    let ghost views = seq_views(v@);
    let mut r: Vec<RepoItem> = Vec::new();
    assert(views.take(0) =~= Seq::<RepoItemView>::empty());
    for i in 0..v.len()
        invariant
            views == seq_views(v@),
            seq_views(r@) == dedup_by_path(views.take(i as int)),
    {
        assert(views.take(i + 1).drop_last() =~= views.take(i as int));
        assert(views.take(i + 1).last() == v@[i as int]@);
        let keep = if r.len() == 0 {
            true
        } else {
            let last = r.len() - 1;
            assert(seq_views(r@)[last as int] == r@[last as int]@);
            !crate::text::str_equal(r[last].path.as_str(), v[i].path.as_str())
        };
        if keep {
            let ghost before = seq_views(r@);
            r.push(v[i].clone());
            assert(seq_views(r@) =~= before.push(v@[i as int]@));
        }
    }
    assert(views.take(v@.len() as int) =~= views);
    r
}

/// `v` sorted stably by path.
pub fn sort_items_by_path(v: Vec<RepoItem>) -> (r: Vec<RepoItem>)
    ensures
        seq_views(r@) == sort_stable(seq_views(v@), path_order()),
{
    let less = |a: &RepoItem, b: &RepoItem| -> (res: bool)
        ensures
            res == seq_lt(a.path@, b.path@),
        { str_lt(a.path.as_str(), b.path.as_str()) };
    sort_by_view(v, less, Ghost(path_order()))
}

/// Resolves the requested paths into the files to download: with no request,
/// every file of `items`; otherwise each request (normalized) resolves to a
/// file, to the files under a directory, or to the files under a path prefix,
/// and the results come sorted by path without repeated paths.
pub fn resolve_requested_items(items: &[RepoItem], selected_paths: &[String]) -> (r: Result<
    Vec<RepoItem>,
    ResolveError,
>)
    ensures
        match resolve_spec(seq_views(items@), seq_views(selected_paths@)) {
            Ok(v) => r matches Ok(x) && seq_views(x@) == v,
            Err(e) => r matches Err(x) && x@ == e,
        },
{
    let ghost views = seq_views(items@);
    let ghost reqs = seq_views(selected_paths@);
    if selected_paths.len() == 0 {
        return Ok(collect_files(items));
    }
    let mut results: Vec<RepoItem> = Vec::new();
    assert(reqs.take(0) =~= Seq::<Seq<char>>::empty());
    assert(seq_views(results@) =~= Seq::<RepoItemView>::empty());
    for i in 0..selected_paths.len()
        invariant
            views == seq_views(items@),
            reqs == seq_views(selected_paths@),
            resolve_all_spec(views, reqs.take(i as int)) == Ok::<
                Seq<RepoItemView>,
                ResolveFailure,
            >(seq_views(results@)),
    {
        assert(reqs.take(i + 1).drop_last() =~= reqs.take(i as int));
        assert(reqs.take(i + 1).last() == selected_paths@[i as int]@);
        let n = normalize_requested_path(selected_paths[i].as_str());
        match resolve_one(items, &n) {
            Err(e) => {
                proof {
                    lemma_resolve_all_error_stays(views, reqs, i + 1);
                }
                return Err(e);
            },
            Ok(mut f) => {
                let ghost before = seq_views(results@);
                let ghost fv = seq_views(f@);
                results.append(&mut f);
                assert(seq_views(results@) =~= before + fv);
            },
        }
    }
    assert(reqs.take(selected_paths@.len() as int) =~= reqs);
    let sorted = sort_items_by_path(results);
    Ok(dedup_items_by_path(sorted.as_slice()))
}


/// Sorts `items` stably by path and drops repeated paths.
pub fn finish_selection(items: Vec<RepoItem>) -> (r: Vec<RepoItem>)
    ensures
        seq_views(r@) == dedup_by_path(sort_stable(seq_views(items@), path_order())),
{
    let sorted = sort_items_by_path(items);
    dedup_items_by_path(sorted.as_slice())
}

/// The resolved items, each marked selected, so that a download fetches every
/// one of them.
pub fn mark_for_download(items: Vec<RepoItem>) -> (r: Vec<RepoItem>)
    ensures
        seq_views(r@) == seq_views(items@).map_values(
            |i: RepoItemView| RepoItemView { selected: true, ..i },
        ),
{
    let ghost src = seq_views(items@);
    let mut r: Vec<RepoItem> = Vec::new();
    let rest = items;
    let n = rest.len();
    for i in 0..n
        invariant
            n == src.len(),
            rest@.len() == n,
            seq_views(rest@) == src,
            r@.len() == i,
            forall|k: int|
                0 <= k < i ==> #[trigger] r@[k]@ == (RepoItemView { selected: true, ..src[k] }),
    {
        let mut item = rest[i].clone();
        assert(item@ == src[i as int]);
        item.selected = true;
        r.push(item);
    }
    assert(seq_views(r@) =~= src.map_values(|i: RepoItemView| RepoItemView { selected: true, ..i }));
    r
}

// ---------------------------------------------------------------------------
// Resolving against a truncated tree
// ---------------------------------------------------------------------------

/// What to do for one requested path when the tree that was loaded may be
/// incomplete.
#[derive(Debug)]
pub enum FallbackRequest {
    /// The path names this file of the tree: take it as it is.
    Take(RepoItem),
    /// The path names a directory of the tree: fetch its files.
    FetchFolder(String),
    /// The path is not in the tree: fetch its files, and fail when there are none.
    FetchRequired(String),
}

/// The plan for one normalized request `n` against the loaded `entries`.
pub open spec fn fallback_matches(entries: Seq<RepoItemView>, n: Seq<char>, req: FallbackRequest) -> bool {
    match first_with_path(entries, n) {
        Some(k) => if is_file_view(entries[k]) {
            req matches FallbackRequest::Take(item) && item@ == entries[k]
        } else {
            req matches FallbackRequest::FetchFolder(p) && p@ == n
        },
        None => req matches FallbackRequest::FetchRequired(p) && p@ == n,
    }
}

/// Plans, for each requested path in order, whether to take an item of the
/// loaded tree or to fetch the files under the path.
pub fn plan_fallback_requests(entries: &[RepoItem], selected_paths: &[String]) -> (r: Vec<
    FallbackRequest,
>)
    ensures
        r@.len() == selected_paths@.len(),
        forall|i: int|
            0 <= i < r@.len() ==> fallback_matches(
                seq_views(entries@),
                normalize_path_spec(selected_paths@[i]@),
                #[trigger] r@[i],
            ),
{
    let ghost views = seq_views(entries@);
    let mut r: Vec<FallbackRequest> = Vec::new();
    for i in 0..selected_paths.len()
        invariant
            views == seq_views(entries@),
            r@.len() == i,
            forall|k: int|
                0 <= k < i ==> fallback_matches(
                    views,
                    normalize_path_spec(selected_paths@[k]@),
                    #[trigger] r@[k],
                ),
    {
        let n = normalize_requested_path(selected_paths[i].as_str());
        let req = match find_by_path(entries, n.as_str()) {
            Some(k) => {
                assert(views[k as int] == entries@[k as int]@);
                if entries[k].is_file() {
                    FallbackRequest::Take(entries[k].clone())
                } else {
                    FallbackRequest::FetchFolder(n)
                }
            },
            None => FallbackRequest::FetchRequired(n),
        };
        r.push(req);
    }
    r
}

/// The failure that fetched files mean for a request: a path that is not in
/// the tree and under which nothing was fetched was not found.
pub fn fallback_failure(request: &FallbackRequest, fetched: &[RepoItem]) -> (r: Option<ResolveError>)
    ensures
        match request {
            FallbackRequest::FetchRequired(p) => if fetched@.len() == 0 {
                r matches Some(e) && e@ == ResolveFailure::PathNotFound(p@)
            } else {
                r is None
            },
            _ => r is None,
        },
{
    match request {
        FallbackRequest::FetchRequired(p) => if fetched.len() == 0 {
            Some(ResolveError::PathNotFound(p.clone()))
        } else {
            None
        },
        _ => None,
    }
}

/// The items at `path` or under it (all of them where `path` is empty).
pub open spec fn items_under_path(items: Seq<RepoItemView>, path: Seq<char>) -> Seq<RepoItemView>
    decreases items.len(),
{
    if items.len() == 0 {
        items
    } else {
        let r = items_under_path(items.drop_last(), path);
        let i = items.last();
        if path.len() == 0 || i.path == path || has_prefix(i.path, path.push('/')) {
            r.push(i)
        } else {
            r
        }
    }
}

/// Keeps the items that lie at `path` or below it.
pub fn filter_under_path(items: &[RepoItem], path: &str) -> (r: Vec<RepoItem>)
    ensures
        seq_views(r@) == items_under_path(seq_views(items@), path@),
{
    let ghost views = seq_views(items@);
    let pv = chars_of(path);
    let mut prefix = crate::text::copy_chars(pv.as_slice());
    prefix.push('/');
    let mut r: Vec<RepoItem> = Vec::new();
    assert(views.take(0) =~= Seq::<RepoItemView>::empty());
    for i in 0..items.len()
        invariant
            views == seq_views(items@),
            pv@ == path@,
            prefix@ == path@.push('/'),
            seq_views(r@) == items_under_path(views.take(i as int), path@),
    {
        let item = &items[i];
        assert(views.take(i + 1).drop_last() =~= views.take(i as int));
        assert(views.take(i + 1).last() == item@);
        let ip = chars_of(item.path.as_str());
        let keep = pv.len() == 0 || crate::text::chars_equal(ip.as_slice(), pv.as_slice())
            || starts_with(ip.as_slice(), prefix.as_slice());
        if keep {
            let ghost before = seq_views(r@);
            r.push(item.clone());
            assert(seq_views(r@) =~= before.push(item@));
        }
    }
    assert(views.take(items@.len() as int) =~= views);
    r
}

// ---------------------------------------------------------------------------
// Answers
// ---------------------------------------------------------------------------

/// The tree entry that the agent reports for an item.
pub open spec fn tree_entry_matches(e: AgentTreeEntry, i: RepoItemView) -> bool {
    &&& e.path@ == i.path
    &&& e.kind@ == i.item_type
    &&& e.size == actual_size_view(i)
    &&& e.download_url.deep_view() == actual_download_url_view(i)
    &&& e.is_lfs == (i.lfs_oid is Some)
}

/// The answer to a tree request: the location and, for each item, its path,
/// kind, effective size and download URL, and whether it lives in Git LFS.
pub fn tree_response(gh_url: GitHubUrl, entries: &[RepoItem], truncated: bool) -> (r: AgentTreeResponse)
    ensures
        r.owner == gh_url.owner,
        r.repo == gh_url.repo,
        r.branch == gh_url.branch,
        r.path == gh_url.path,
        r.truncated == truncated,
        r.entries@.len() == entries@.len(),
        forall|i: int| 0 <= i < entries@.len() ==> tree_entry_matches(#[trigger] r.entries@[i], entries@[i]@),
{
    let mut out: Vec<AgentTreeEntry> = Vec::new();
    for i in 0..entries.len()
        invariant
            out@.len() == i,
            forall|k: int| 0 <= k < i ==> tree_entry_matches(#[trigger] out@[k], entries@[k]@),
    {
        let item = &entries[i];
        let url = match item.actual_download_url() {
            Some(u) => Some(u.clone()),
            None => None,
        };
        out.push(
            AgentTreeEntry {
                size: item.actual_size(),
                download_url: url,
                is_lfs: item.is_lfs(),
                path: item.path.clone(),
                kind: item.item_type.clone(),
            },
        );
    }
    AgentTreeResponse {
        owner: gh_url.owner,
        repo: gh_url.repo,
        branch: gh_url.branch,
        path: gh_url.path,
        truncated,
        entries: out,
    }
}

/// The answer to a download request: the location, the output directory, the
/// path of every item that was downloaded, and the errors met.
pub fn download_response(
    gh_url: GitHubUrl,
    output_dir: String,
    items: &[RepoItem],
    errors: Vec<String>,
) -> (r: AgentDownloadResponse)
    ensures
        r.owner == gh_url.owner,
        r.repo == gh_url.repo,
        r.branch == gh_url.branch,
        r.output_dir == output_dir,
        r.errors == errors,
        r.downloaded_paths@.len() == items@.len(),
        forall|i: int| 0 <= i < items@.len() ==> #[trigger] r.downloaded_paths@[i] == items@[i].path,
{
    let mut paths: Vec<String> = Vec::new();
    for i in 0..items.len()
        invariant
            paths@.len() == i,
            forall|k: int| 0 <= k < i ==> #[trigger] paths@[k] == items@[k].path,
    {
        paths.push(items[i].path.clone());
    }
    AgentDownloadResponse {
        owner: gh_url.owner,
        repo: gh_url.repo,
        branch: gh_url.branch,
        output_dir,
        downloaded_paths: paths,
        errors,
    }
}

// ---------------------------------------------------------------------------
// Error codes
// ---------------------------------------------------------------------------

/// An error as the agent meets it: one of GitHub's, or any other with its
/// message.
#[derive(Debug)]
pub enum AgentError {
    GitHub(GitHubError),
    Message(String),
}

/// The description of an agent error.
pub open spec fn agent_error_message(e: AgentError) -> Seq<char> {
    match e {
        AgentError::GitHub(g) => crate::github::github_error_message(g),
        AgentError::Message(m) => m@,
    }
}

impl AgentError {
    /// The human-readable description of the error.
    pub fn message(&self) -> (r: String)
        ensures
            r@ == agent_error_message(*self),
    {
        match self {
            AgentError::GitHub(g) => g.message(),
            AgentError::Message(m) => m.clone(),
        }
    }
}

/// The branch to load instead when the tree of `branch` was not found: the
/// repository's default branch, where `main` was tried and the default is
/// another one.
pub open spec fn default_branch_retry_spec(
    e: GitHubError,
    branch: Seq<char>,
    default_branch: Seq<char>,
) -> Option<Seq<char>> {
    if (e is NotFound) && branch == "main"@ && default_branch != "main"@ {
        Some(default_branch)
    } else {
        None
    }
}

/// The branch to retry a tree request on, given the repository's default
/// branch.
pub fn default_branch_retry(e: &GitHubError, branch: &str, default_branch: &str) -> (r: Option<
    String,
>)
    ensures
        r.deep_view() == default_branch_retry_spec(*e, branch@, default_branch@),
{
    match e {
        GitHubError::NotFound(_) => {
            if str_equal(branch, "main") && !str_equal(default_branch, "main") {
                Some(copy_str(default_branch))
            } else {
                None
            }
        },
        _ => None,
    }
}

/// The code of a GitHub error.
pub open spec fn github_error_code_name(e: GitHubError) -> Seq<char> {
    match e {
        GitHubError::InvalidToken => "invalid_token"@,
        GitHubError::RateLimitReached(_) => "rate_limit"@,
        GitHubError::NotFound(_) => "not_found"@,
        GitHubError::ApiError(_) => "github_api_error"@,
        GitHubError::Other(_) => "internal_error"@,
    }
}

/// The code of any other error, by what its lowercased message mentions.
pub open spec fn message_code_name(lower: Seq<char>) -> Seq<char> {
    if contains_seq(lower, "invalid url"@) || contains_seq(lower, "not a github url"@) {
        "invalid_url"@
    } else if contains_seq(lower, "cannot be combined"@) {
        "invalid_arguments"@
    } else if contains_seq(lower, "was not found"@) || contains_seq(lower, "not found"@) {
        "not_found"@
    } else if contains_seq(lower, "downloads directory"@) {
        "output_path_error"@
    } else {
        "internal_error"@
    }
}

/// The code of an error whose lowercased message is `lower`.
pub fn classify_message(lower: &str) -> (r: &'static str)
    ensures
        r@ == message_code_name(lower@),
{
    let m = chars_of(lower);
    let invalid_url = chars_of("invalid url");
    let not_github = chars_of("not a github url");
    let combined = chars_of("cannot be combined");
    let was_not_found = chars_of("was not found");
    let not_found = chars_of("not found");
    let downloads = chars_of("downloads directory");
    if contains_chars(m.as_slice(), invalid_url.as_slice()) || contains_chars(
        m.as_slice(),
        not_github.as_slice(),
    ) {
        "invalid_url"
    } else if contains_chars(m.as_slice(), combined.as_slice()) {
        "invalid_arguments"
    } else if contains_chars(m.as_slice(), was_not_found.as_slice()) || contains_chars(
        m.as_slice(),
        not_found.as_slice(),
    ) {
        "not_found"
    } else if contains_chars(m.as_slice(), downloads.as_slice()) {
        "output_path_error"
    } else {
        "internal_error"
    }
}

/// The stable code of an error: by its kind for GitHub's errors, else by what
/// its lowercased message mentions.
pub fn classify_error(error: &AgentError) -> (r: &'static str)
    ensures
        r@ == match error {
            AgentError::GitHub(e) => github_error_code_name(*e),
            AgentError::Message(m) => message_code_name(lowercase_of(m@)),
        },
{
    match error {
        AgentError::GitHub(e) => match e {
            GitHubError::InvalidToken => "invalid_token",
            GitHubError::RateLimitReached(_) => "rate_limit",
            GitHubError::NotFound(_) => "not_found",
            GitHubError::ApiError(_) => "github_api_error",
            GitHubError::Other(_) => "internal_error",
        },
        AgentError::Message(m) => {
            let lower = to_lowercase(m.as_str());
            classify_message(lower.as_str())
        },
    }
}

} // verus!
