//! GitHub URLs, repository items, Git LFS pointers and the outcomes of GitHub
//! API responses.
use vstd::prelude::*;

use crate::text::{
    contains_chars, contains_seq, ends_with, has_suffix, trim_end_chars, trim_end_seq, trim_white,
    trim_white_chars, has_prefix, lines_chars, lines_of, parse_unsigned, parse_unsigned_chars, starts_with,
    trim_start_chars, trim_start_seq, append_chars, append_str, chars_equal, chars_of, copy_chars, copy_str, join_chars, join_with, split_chars,
    split_on, str_equal, string_of, views_of,
};

verus! {

// ---------------------------------------------------------------------------
// Repository location
// ---------------------------------------------------------------------------

/// A repository location on GitHub: owner, repository, branch and a path
/// inside the repository (empty for the root).
#[derive(Debug)]
pub struct GitHubUrl {
    pub owner: String,
    pub repo: String,
    pub branch: String,
    pub path: String,
}

/// The abstract value of a [`GitHubUrl`].
pub struct GitHubUrlView {
    pub owner: Seq<char>,
    pub repo: Seq<char>,
    pub branch: Seq<char>,
    pub path: Seq<char>,
}

impl View for GitHubUrl {
    type V = GitHubUrlView;

    open spec fn view(&self) -> GitHubUrlView {
        GitHubUrlView {
            owner: self.owner@,
            repo: self.repo@,
            branch: self.branch@,
            path: self.path@,
        }
    }
}

impl Clone for GitHubUrl {
    fn clone(&self) -> (r: Self)
        ensures
            r == *self,
    {
        GitHubUrl {
            owner: self.owner.clone(),
            repo: self.repo.clone(),
            branch: self.branch.clone(),
            path: self.path.clone(),
        }
    }
}

/// Why a URL could not be read as a GitHub location.
#[derive(Debug, Clone, Copy, PartialEq, Eq, Structural)]
pub enum UrlError {
    /// The text is not a URL at all.
    InvalidFormat,
    /// The URL's host is not `github.com`.
    NotGitHub,
    /// The URL has no hierarchical path.
    InvalidPath,
    /// The path has fewer than two segments.
    MissingOwnerOrRepo,
}

impl UrlError {
    /// The human-readable description of the error.
    pub fn message(&self) -> (r: &'static str)
        ensures
            r@ == url_error_message(*self),
    {
        match self {
            UrlError::InvalidFormat => "Invalid URL format",
            UrlError::NotGitHub => "Not a GitHub URL",
            UrlError::InvalidPath => "Invalid URL path",
            UrlError::MissingOwnerOrRepo => "URL must contain owner and repository",
        }
    }
}

/// The description of each [`UrlError`].
pub open spec fn url_error_message(e: UrlError) -> Seq<char> {
    match e {
        UrlError::InvalidFormat => "Invalid URL format"@,
        UrlError::NotGitHub => "Not a GitHub URL"@,
        UrlError::InvalidPath => "Invalid URL path"@,
        UrlError::MissingOwnerOrRepo => "URL must contain owner and repository"@,
    }
}

/// What `url::Url::parse` makes of a text, seen through the URL's host
/// (`Url::host_str`) and path (`Url::path`); `None` where it refuses the text.
pub uninterp spec fn url_parse_result(input: Seq<char>) -> Option<(Option<Seq<char>>, Seq<char>)>;

/// Parses `input` with `url::Url::parse` and hands back the host and the path of
/// the URL, or `None` where the crate refuses the text. The contract names the
/// result `url_parse_result` of the input and says nothing more of it.
#[verifier::external_body]
fn parse_url_parts(input: &str) -> (r: Option<(Option<String>, String)>)
    ensures
        r is Some <==> url_parse_result(input@) is Some,
        r matches Some(p) ==> (p.0.deep_view(), p.1@) == url_parse_result(input@).unwrap(),
{
    match url::Url::parse(input) {
        Ok(u) => Some((u.host_str().map(|h| h.to_string()), u.path().to_string())),
        Err(_) => None,
    }
}

/// The segments of a URL path as `url::Url::path_segments` gives them: the
/// pieces between slashes after the leading one, or `None` where the path does
/// not begin with a slash.
pub open spec fn path_segments_of(path: Seq<char>) -> Option<Seq<Seq<char>>> {
    if path.len() > 0 && path[0] == '/' {
        Some(split_on(path.drop_first(), '/'))
    } else {
        None
    }
}

/// The GitHub location that a parsed URL (its host and its path) names.
pub open spec fn github_url_from_parts(parts: Option<(Option<Seq<char>>, Seq<char>)>) -> Result<
    GitHubUrlView,
    UrlError,
> {
    match parts {
        None => Err(UrlError::InvalidFormat),
        Some((host, path)) => if host != Some("github.com"@) {
            Err(UrlError::NotGitHub)
        } else {
            match path_segments_of(path) {
                None => Err(UrlError::InvalidPath),
                Some(segs) => if segs.len() < 2 {
                    Err(UrlError::MissingOwnerOrRepo)
                } else if segs.len() >= 4 && (segs[2] == "tree"@ || segs[2] == "blob"@) {
                    Ok(
                        GitHubUrlView {
                            owner: segs[0],
                            repo: segs[1],
                            branch: segs[3],
                            path: if segs.len() > 4 {
                                join_with(segs.skip(4), '/')
                            } else {
                                Seq::<char>::empty()
                            },
                        },
                    )
                } else {
                    Ok(
                        GitHubUrlView {
                            owner: segs[0],
                            repo: segs[1],
                            branch: "main"@,
                            path: Seq::<char>::empty(),
                        },
                    )
                },
            }
        },
    }
}

/// The contents API URL of a location:
/// `https://api.github.com/repos/{owner}/{repo}/contents[/{path}]?ref={branch}`.
pub open spec fn contents_url(owner: Seq<char>, repo: Seq<char>, branch: Seq<char>, path: Seq<char>) -> Seq<char> {
    "https://api.github.com/repos/"@ + owner + "/"@ + repo + "/contents"@ + (if path.len() == 0 {
        Seq::<char>::empty()
    } else {
        "/"@ + path
    }) + "?ref="@ + branch
}

/// Builds `https://api.github.com/repos/{owner}/{repo}/contents[/{path}]?ref={branch}`.
pub fn build_contents_url(owner: &str, repo: &str, branch: &str, path: &[char]) -> (r: String)
    ensures
        r@ == contents_url(owner@, repo@, branch@, path@),
{
    let mut s = String::new();
    append_str(&mut s, "https://api.github.com/repos/");
    append_str(&mut s, owner);
    append_str(&mut s, "/");
    append_str(&mut s, repo);
    append_str(&mut s, "/contents");
    let ghost mid = s@;
    if path.len() > 0 {
        append_str(&mut s, "/");
        append_chars(&mut s, path);
    }
    append_str(&mut s, "?ref=");
    append_str(&mut s, branch);
    proof {
        if path@.len() == 0 {
            assert(s@ =~= contents_url(owner@, repo@, branch@, path@));
        } else {
            assert(s@ =~= contents_url(owner@, repo@, branch@, path@));
        }
    }
    s
}

/// Whether a string equals the literal `lit`.
fn is_literal(s: &[char], lit: &str) -> (r: bool)
    ensures
        r == (s@ == lit@),
{
    let l = chars_of(lit);
    chars_equal(s, l.as_slice())
}

impl GitHubUrl {
    /// Reads the location out of the host and path of a parsed URL.
    pub fn from_url_parts(parts: Option<(Option<String>, String)>) -> (r: Result<GitHubUrl, UrlError>)
        ensures
            match github_url_from_parts(
                match parts {
                    Some(p) => Some((p.0.deep_view(), p.1@)),
                    None => None,
                },
            ) {
                Ok(v) => r matches Ok(u) && u@ == v,
                Err(e) => r == Err::<GitHubUrl, UrlError>(e),
            },
    {
        let (host, path) = match parts {
            None => return Err(UrlError::InvalidFormat),
            Some(p) => p,
        };
        let is_github = match &host {
            Some(h) => str_equal(h.as_str(), "github.com"),
            None => false,
        };
        if !is_github {
            return Err(UrlError::NotGitHub);
        }
        let pv = chars_of(path.as_str());
        if pv.len() == 0 || pv[0] != '/' {
            return Err(UrlError::InvalidPath);
        }
        let mut rest: Vec<char> = Vec::new();
        for i in 1..pv.len()
            invariant
                1 <= pv@.len(),
                rest@ == pv@.subrange(1, i as int),
        {
            rest.push(pv[i]);
            assert(rest@ =~= pv@.subrange(1, i + 1));
        }
        assert(rest@ =~= pv@.drop_first());
        let segs = split_chars(rest.as_slice(), '/');
        let ghost sv = split_on(pv@.drop_first(), '/');
        assert(views_of(segs@) == sv);
        assert(segs@.len() == sv.len());
        if segs.len() < 2 {
            return Err(UrlError::MissingOwnerOrRepo);
        }
        assert(segs@[0]@ == sv[0]);
        assert(segs@[1]@ == sv[1]);
        let owner = string_of(segs[0].as_slice());
        let repo = string_of(segs[1].as_slice());
        let mut special = false;
        if segs.len() >= 4 {
            assert(segs@[2]@ == sv[2]);
            special = is_literal(segs[2].as_slice(), "tree") || is_literal(segs[2].as_slice(), "blob");
        }
        if special {
            assert(segs@[3]@ == sv[3]);
            let branch = string_of(segs[3].as_slice());
            let path = if segs.len() > 4 {
                let mut tail: Vec<Vec<char>> = Vec::new();
                for k in 4..segs.len()
                    invariant
                        4 <= segs@.len(),
                        views_of(segs@) == sv,
                        views_of(tail@) == sv.subrange(4, k as int),
                {
                    assert(views_of(segs@)[k as int] == segs@[k as int]@);
                    let ghost old_tail = views_of(tail@);
                    tail.push(copy_chars(segs[k].as_slice()));
                    assert(views_of(tail@) =~= old_tail.push(sv[k as int]));
                    assert(views_of(tail@) =~= sv.subrange(4, k + 1));
                }
                assert(sv.subrange(4, segs@.len() as int) =~= sv.skip(4));
                let joined = join_chars(tail.as_slice(), '/');
                string_of(joined.as_slice())
            } else {
                String::new()
            };
            Ok(GitHubUrl { owner, repo, branch, path })
        } else {
            let branch = copy_str("main");
            Ok(GitHubUrl { owner, repo, branch, path: String::new() })
        }
    }

    /// Parses a GitHub URL such as `https://github.com/owner/repo/tree/branch/some/path`.
    /// Without `tree/{branch}` or `blob/{branch}` the branch is `main` and the path
    /// is empty.
    pub fn parse(url_str: &str) -> (r: Result<GitHubUrl, UrlError>)
        ensures
            match github_url_from_parts(url_parse_result(url_str@)) {
                Ok(v) => r matches Ok(u) && u@ == v,
                Err(e) => r == Err::<GitHubUrl, UrlError>(e),
            },
    {
        let parts = parse_url_parts(url_str);
        proof {
            if parts is Some {
                assert((parts.unwrap().0.deep_view(), parts.unwrap().1@) == url_parse_result(
                    url_str@,
                ).unwrap());
            }
        }
        GitHubUrl::from_url_parts(parts)
    }

    /// The contents API URL of this location.
    pub fn api_url(&self) -> (r: String)
        ensures
            r@ == contents_url(self.owner@, self.repo@, self.branch@, self.path@),
    {
        let p = chars_of(self.path.as_str());
        build_contents_url(self.owner.as_str(), self.repo.as_str(), self.branch.as_str(), p.as_slice())
    }
}


// ---------------------------------------------------------------------------
// Repository items
// ---------------------------------------------------------------------------

/// A copy of an optional string.
pub fn copy_opt_string(o: &Option<String>) -> (r: Option<String>)
    ensures
        r == *o,
{
    match o {
        Some(s) => Some(s.clone()),
        None => None,
    }
}

/// A file or directory of a repository, as the contents API lists it, with
/// what Git LFS adds to it.
#[derive(Debug, PartialEq)]
pub struct RepoItem {
    pub name: String,
    pub item_type: String,
    pub path: String,
    pub download_url: Option<String>,
    pub url: String,
    pub size: Option<u64>,
    pub selected: bool,
    pub lfs_oid: Option<String>,
    pub lfs_size: Option<u64>,
    pub lfs_download_url: Option<String>,
}

/// The abstract value of a [`RepoItem`].
pub struct RepoItemView {
    pub name: Seq<char>,
    pub item_type: Seq<char>,
    pub path: Seq<char>,
    pub download_url: Option<Seq<char>>,
    pub url: Seq<char>,
    pub size: Option<u64>,
    pub selected: bool,
    pub lfs_oid: Option<Seq<char>>,
    pub lfs_size: Option<u64>,
    pub lfs_download_url: Option<Seq<char>>,
}

impl View for RepoItem {
    type V = RepoItemView;

    open spec fn view(&self) -> RepoItemView {
        RepoItemView {
            name: self.name@,
            item_type: self.item_type@,
            path: self.path@,
            download_url: self.download_url.deep_view(),
            url: self.url@,
            size: self.size,
            selected: self.selected,
            lfs_oid: self.lfs_oid.deep_view(),
            lfs_size: self.lfs_size,
            lfs_download_url: self.lfs_download_url.deep_view(),
        }
    }
}

impl Clone for RepoItem {
    fn clone(&self) -> (r: Self)
        ensures
            r == *self,
    {
        RepoItem {
            name: self.name.clone(),
            item_type: self.item_type.clone(),
            path: self.path.clone(),
            download_url: copy_opt_string(&self.download_url),
            url: self.url.clone(),
            size: self.size,
            selected: self.selected,
            lfs_oid: copy_opt_string(&self.lfs_oid),
            lfs_size: self.lfs_size,
            lfs_download_url: copy_opt_string(&self.lfs_download_url),
        }
    }
}

/// The item is a directory.
pub open spec fn is_dir_view(i: RepoItemView) -> bool {
    i.item_type == "dir"@
}

/// The item is a file.
pub open spec fn is_file_view(i: RepoItemView) -> bool {
    i.item_type == "file"@
}

/// The size that counts for an item: the LFS object's where there is one.
pub open spec fn actual_size_view(i: RepoItemView) -> Option<u64> {
    if i.lfs_size is Some {
        i.lfs_size
    } else {
        i.size
    }
}

/// The URL to download an item from: the LFS object's where there is one.
pub open spec fn actual_download_url_view(i: RepoItemView) -> Option<Seq<char>> {
    if i.lfs_download_url is Some {
        i.lfs_download_url
    } else {
        i.download_url
    }
}

impl RepoItem {
    /// The item is a directory (its type is `dir`).
    pub fn is_dir(&self) -> (r: bool)
        ensures
            r == is_dir_view(self@),
    {
        let t = chars_of(self.item_type.as_str());
        is_literal(t.as_slice(), "dir")
    }

    /// The item is a file (its type is `file`).
    pub fn is_file(&self) -> (r: bool)
        ensures
            r == is_file_view(self@),
    {
        let t = chars_of(self.item_type.as_str());
        is_literal(t.as_slice(), "file")
    }

    /// The item is stored in Git LFS (an LFS object id is known).
    pub fn is_lfs(&self) -> (r: bool)
        ensures
            r == self.lfs_oid.is_some(),
    {
        self.lfs_oid.is_some()
    }

    /// The LFS size where there is one, else the size the API reported.
    pub fn actual_size(&self) -> (r: Option<u64>)
        ensures
            r == actual_size_view(self@),
    {
        match self.lfs_size {
            Some(s) => Some(s),
            None => self.size,
        }
    }

    /// The LFS download URL where there is one, else the API's download URL.
    pub fn actual_download_url(&self) -> (r: Option<&String>)
        ensures
            match r {
                Some(u) => actual_download_url_view(self@) == Some(u@),
                None => actual_download_url_view(self@) is None,
            },
            self.lfs_download_url matches Some(l) ==> r == Some(&l),
            self.lfs_download_url is None ==> (match self.download_url {
                Some(d) => r == Some(&d),
                None => r is None,
            }),
    {
        match &self.lfs_download_url {
            Some(u) => Some(u),
            None => match &self.download_url {
                Some(d) => Some(d),
                None => None,
            },
        }
    }
}


// ---------------------------------------------------------------------------
// Git LFS pointers
// ---------------------------------------------------------------------------

/// A Git LFS pointer file: the object's SHA-256 id and its size.
#[derive(Debug)]
pub struct LfsPointer {
    pub oid: String,
    pub size: u64,
}

impl Clone for LfsPointer {
    fn clone(&self) -> (r: Self)
        ensures
            r == *self,
    {
        LfsPointer { oid: self.oid.clone(), size: self.size }
    }
}

/// The first line of every Git LFS pointer file.
pub open spec fn lfs_version_line() -> Seq<char> {
    "version https://git-lfs.github.com/spec/v1"@
}

/// The object id and size read from the lines of a pointer file, line by line:
/// an `oid sha256:` line sets the id, a `size ` line sets the size (to nothing
/// where its number does not parse), and a later line overrides an earlier one.
pub open spec fn lfs_fields(lines: Seq<Seq<char>>) -> (Option<Seq<char>>, Option<nat>)
    decreases lines.len(),
{
    if lines.len() == 0 {
        (None, None)
    } else {
        let prev = lfs_fields(lines.drop_last());
        let line = lines.last();
        if has_prefix(line, "oid sha256:"@) {
            (Some(trim_start_seq(line, "oid sha256:"@)), prev.1)
        } else if has_prefix(line, "size "@) {
            (prev.0, parse_unsigned(trim_start_seq(line, "size "@), u64::MAX as nat))
        } else {
            prev
        }
    }
}

/// The pointer that `content` holds: it must begin with the LFS version line
/// and name both an object id and a size.
pub open spec fn lfs_pointer_of(content: Seq<char>) -> Option<(Seq<char>, nat)> {
    if !has_prefix(content, lfs_version_line()) {
        None
    } else {
        match lfs_fields(lines_of(content)) {
            (Some(oid), Some(size)) => Some((oid, size)),
            _ => None,
        }
    }
}

impl LfsPointer {
    /// Reads a Git LFS pointer file; `None` where `content` is not one.
    pub fn parse(content: &str) -> (r: Option<LfsPointer>)
        ensures
            match lfs_pointer_of(content@) {
                Some((oid, size)) => r matches Some(p) && p.oid@ == oid && p.size == size,
                None => r is None,
            },
    {
        let c = chars_of(content);
        let version = chars_of("version https://git-lfs.github.com/spec/v1");
        if !starts_with(c.as_slice(), version.as_slice()) {
            return None;
        }
        let oid_prefix = chars_of("oid sha256:");
        let size_prefix = chars_of("size ");
        let lines = lines_chars(c.as_slice());
        let ghost lv = lines_of(c@);
        let mut oid: Option<Vec<char>> = None;
        let mut size: Option<u64> = None;
        assert(lv.take(0) =~= Seq::<Seq<char>>::empty());
        for i in 0..lines.len()
            invariant
                views_of(lines@) == lv,
                oid_prefix@ == "oid sha256:"@,
                size_prefix@ == "size "@,
                lfs_fields(lv.take(i as int)).0 == (match oid {
                    Some(o) => Some(o@),
                    None => None::<Seq<char>>,
                }),
                lfs_fields(lv.take(i as int)).1 == (match size {
                    Some(n) => Some(n as nat),
                    None => None::<nat>,
                }),
        {
            let line = &lines[i];
            assert(views_of(lines@)[i as int] == line@);
            assert(lv.take(i + 1).drop_last() =~= lv.take(i as int));
            assert(lv.take(i + 1).last() == line@);
            if starts_with(line.as_slice(), oid_prefix.as_slice()) {
                oid = Some(trim_start_chars(line.as_slice(), oid_prefix.as_slice()));
            } else if starts_with(line.as_slice(), size_prefix.as_slice()) {
                let digits = trim_start_chars(line.as_slice(), size_prefix.as_slice());
                size = parse_unsigned_chars(digits.as_slice(), u64::MAX);
            }
        }
        assert(lv.take(lines@.len() as int) =~= lv);
        match (oid, size) {
            (Some(o), Some(n)) => Some(LfsPointer { oid: string_of(o.as_slice()), size: n }),
            _ => None,
        }
    }
}


// ---------------------------------------------------------------------------
// The Git trees API
// ---------------------------------------------------------------------------

/// The answer of the Git trees API (`git/trees/{branch}?recursive=1`).
#[derive(Debug)]
pub struct GitTreeResponse {
    pub tree: Vec<GitTreeEntry>,
    pub truncated: bool,
}

/// One entry of a Git tree.
#[derive(Debug)]
pub struct GitTreeEntry {
    pub path: String,
    pub mode: String,
    pub entry_type: String,
    pub size: Option<u64>,
    pub sha: String,
    pub url: String,
}

/// The URL of the recursive Git tree of a branch.
pub open spec fn tree_api_url_spec(owner: Seq<char>, repo: Seq<char>, branch: Seq<char>) -> Seq<char> {
    "https://api.github.com/repos/"@ + owner + "/"@ + repo + "/git/trees/"@ + branch
        + "?recursive=1"@
}

/// Builds `https://api.github.com/repos/{owner}/{repo}/git/trees/{branch}?recursive=1`.
pub fn tree_api_url(owner: &str, repo: &str, branch: &str) -> (r: String)
    ensures
        r@ == tree_api_url_spec(owner@, repo@, branch@),
{
    let mut s = String::new();
    append_str(&mut s, "https://api.github.com/repos/");
    append_str(&mut s, owner);
    append_str(&mut s, "/");
    append_str(&mut s, repo);
    append_str(&mut s, "/git/trees/");
    append_str(&mut s, branch);
    append_str(&mut s, "?recursive=1");
    assert(s@ =~= tree_api_url_spec(owner@, repo@, branch@));
    s
}

/// The URL of the Git LFS batch API of a repository.
pub open spec fn lfs_batch_url_spec(owner: Seq<char>, repo: Seq<char>) -> Seq<char> {
    "https://github.com/"@ + owner + "/"@ + repo + ".git/info/lfs/objects/batch"@
}

/// Builds `https://github.com/{owner}/{repo}.git/info/lfs/objects/batch`.
pub fn lfs_batch_url(owner: &str, repo: &str) -> (r: String)
    ensures
        r@ == lfs_batch_url_spec(owner@, repo@),
{
    let mut s = String::new();
    append_str(&mut s, "https://github.com/");
    append_str(&mut s, owner);
    append_str(&mut s, "/");
    append_str(&mut s, repo);
    append_str(&mut s, ".git/info/lfs/objects/batch");
    assert(s@ =~= lfs_batch_url_spec(owner@, repo@));
    s
}

// ---------------------------------------------------------------------------
// Errors of the GitHub API
// ---------------------------------------------------------------------------

/// What went wrong in a request to GitHub.
#[derive(Debug)]
pub enum GitHubError {
    InvalidToken,
    RateLimitReached(String),
    NotFound(String),
    ApiError(String),
    Other(String),
}

impl Clone for GitHubError {
    fn clone(&self) -> (r: Self)
        ensures
            r == *self,
    {
        match self {
            GitHubError::InvalidToken => GitHubError::InvalidToken,
            GitHubError::RateLimitReached(s) => GitHubError::RateLimitReached(s.clone()),
            GitHubError::NotFound(s) => GitHubError::NotFound(s.clone()),
            GitHubError::ApiError(s) => GitHubError::ApiError(s.clone()),
            GitHubError::Other(s) => GitHubError::Other(s.clone()),
        }
    }
}

/// The description of each [`GitHubError`].
pub open spec fn github_error_message(e: GitHubError) -> Seq<char> {
    match e {
        GitHubError::InvalidToken => "Invalid token. Falling back to public API."@,
        GitHubError::RateLimitReached(s) => "Rate limit exceeded for "@ + s@
            + ". Consider adding a token for more limits."@,
        GitHubError::NotFound(s) => "Resource not found: "@ + s@,
        GitHubError::ApiError(s) => "API Error: "@ + s@,
        GitHubError::Other(s) => s@,
    }
}

impl GitHubError {
    /// The human-readable description of the error.
    pub fn message(&self) -> (r: String)
        ensures
            r@ == github_error_message(*self),
    {
        let mut m = String::new();
        match self {
            GitHubError::InvalidToken => {
                append_str(&mut m, "Invalid token. Falling back to public API.");
            },
            GitHubError::RateLimitReached(s) => {
                append_str(&mut m, "Rate limit exceeded for ");
                append_str(&mut m, s.as_str());
                append_str(&mut m, ". Consider adding a token for more limits.");
            },
            GitHubError::NotFound(s) => {
                append_str(&mut m, "Resource not found: ");
                append_str(&mut m, s.as_str());
            },
            GitHubError::ApiError(s) => {
                append_str(&mut m, "API Error: ");
                append_str(&mut m, s.as_str());
            },
            GitHubError::Other(s) => {
                append_str(&mut m, s.as_str());
            },
        }
        assert(m@ =~= github_error_message(*self));
        m
    }
}

/// The remaining-requests count that a response reports: the number in its
/// `X-RateLimit-Remaining` header, or 1 where the header is missing or is not a
/// number.
pub open spec fn rate_limit_remaining(header: Option<Seq<char>>) -> nat {
    match header {
        Some(h) => match parse_unsigned(h, u32::MAX as nat) {
            Some(n) => n,
            None => 1,
        },
        None => 1,
    }
}

/// What a request's HTTP status means: success for 2xx, otherwise the error.
/// `status_text` is the status as it is displayed (such as `403 Forbidden`),
/// `remaining_header` the `X-RateLimit-Remaining` header where it is readable.
pub open spec fn response_outcome_spec(
    status: u16,
    status_text: Seq<char>,
    has_token: bool,
    remaining_header: Option<Seq<char>>,
    url: Seq<char>,
) -> Result<(), (u8, Seq<char>)> {
    if 200 <= status && status <= 299 {
        Ok(())
    } else if status == 401 && has_token {
        Err((0, Seq::<char>::empty()))
    } else if status == 403 {
        if rate_limit_remaining(remaining_header) == 0 {
            Err(
                (
                    1,
                    if has_token {
                        "authenticated user"@
                    } else {
                        "unauthenticated user"@
                    },
                ),
            )
        } else if has_token {
            Err((0, Seq::<char>::empty()))
        } else {
            Err((3, "Forbidden: "@ + status_text))
        }
    } else if status == 404 {
        Err((2, url))
    } else {
        Err((3, "HTTP "@ + status_text))
    }
}

/// An error as a tag and its text: 0 invalid token, 1 rate limit, 2 not found,
/// 3 API error, 4 other.
pub open spec fn github_error_code(e: GitHubError) -> (u8, Seq<char>) {
    match e {
        GitHubError::InvalidToken => (0, Seq::<char>::empty()),
        GitHubError::RateLimitReached(s) => (1, s@),
        GitHubError::NotFound(s) => (2, s@),
        GitHubError::ApiError(s) => (3, s@),
        GitHubError::Other(s) => (4, s@),
    }
}

/// Decides what a GitHub API response means from its status: any 2xx is
/// success; 401 with a token is an invalid token; 403 is the rate limit when
/// no requests remain, else an invalid token when there is one, else
/// forbidden; 404 is not found; everything else is an API error.
pub fn response_outcome(
    status: u16,
    status_text: &str,
    has_token: bool,
    remaining_header: Option<&str>,
    url: &str,
) -> (r: Result<(), GitHubError>)
    ensures
        match response_outcome_spec(
            status,
            status_text@,
            has_token,
            match remaining_header {
                Some(h) => Some(h@),
                None => None,
            },
            url@,
        ) {
            Ok(()) => r is Ok,
            Err(code) => r matches Err(e) && github_error_code(e) == code,
        },
{
    let ghost header_view = match remaining_header {
        Some(h) => Some(h@),
        None => None::<Seq<char>>,
    };
    if 200 <= status && status <= 299 {
        return Ok(());
    }
    if status == 401 && has_token {
        return Err(GitHubError::InvalidToken);
    }
    if status == 403 {
        let remaining: u64 = match remaining_header {
            Some(h) => {
                let hv = chars_of(h);
                match parse_unsigned_chars(hv.as_slice(), 4294967295u64) {
                    Some(n) => n,
                    None => 1,
                }
            },
            None => 1,
        };
        assert(remaining == rate_limit_remaining(header_view));
        if remaining == 0 {
            let level = if has_token {
                copy_str("authenticated user")
            } else {
                copy_str("unauthenticated user")
            };
            return Err(GitHubError::RateLimitReached(level));
        } else if has_token {
            return Err(GitHubError::InvalidToken);
        } else {
            let mut m = String::new();
            append_str(&mut m, "Forbidden: ");
            append_str(&mut m, status_text);
            return Err(GitHubError::ApiError(m));
        }
    }
    if status == 404 {
        return Err(GitHubError::NotFound(copy_str(url)));
    }
    let mut m = String::new();
    append_str(&mut m, "HTTP ");
    append_str(&mut m, status_text);
    Err(GitHubError::ApiError(m))
}

// ---------------------------------------------------------------------------
// Git LFS resolution of small files
// ---------------------------------------------------------------------------

/// A file is worth checking for an LFS pointer when it is a file smaller than
/// 1024 bytes with a download URL; the URL is where its raw content lies.
pub open spec fn lfs_probe_url_spec(i: RepoItemView) -> Option<Seq<char>> {
    if is_file_view(i) && i.size is Some && i.size.unwrap() < 1024 && i.download_url is Some {
        i.download_url
    } else {
        None
    }
}

/// The URL whose raw content may be a Git LFS pointer for this item, or `None`
/// where the item is not worth checking.
pub fn lfs_probe_url(item: &RepoItem) -> (r: Option<String>)
    ensures
        r.deep_view() == lfs_probe_url_spec(item@),
{
    if item.is_file() {
        if let Some(size) = item.size {
            if size < 1024 {
                return copy_opt_string(&item.download_url);
            }
        }
    }
    None
}

/// The media URL that serves an LFS object when the batch API gives none.
pub open spec fn lfs_media_url_spec(owner: Seq<char>, repo: Seq<char>, branch: Seq<char>, path: Seq<char>) -> Seq<char> {
    "https://media.githubusercontent.com/media/"@ + owner + "/"@ + repo + "/"@ + branch + "/"@
        + path
}

/// Records the pointer found for an item: its object id and size.
pub fn record_lfs_pointer(item: &mut RepoItem, pointer: &LfsPointer)
    ensures
        final(item)@ == (RepoItemView {
            lfs_oid: Some(pointer.oid@),
            lfs_size: Some(pointer.size),
            ..old(item)@
        }),
{
    item.lfs_oid = Some(pointer.oid.clone());
    item.lfs_size = Some(pointer.size);
}

/// Records where an LFS object is downloaded from: the URL that the batch API
/// gave, or else the media URL of the item's path.
pub fn record_lfs_download(
    item: &mut RepoItem,
    batch_url: Option<String>,
    owner: &str,
    repo: &str,
    branch: &str,
)
    ensures
        final(item)@ == (RepoItemView {
            lfs_download_url: Some(
                match batch_url {
                    Some(u) => u@,
                    None => lfs_media_url_spec(owner@, repo@, branch@, old(item).path@),
                },
            ),
            ..old(item)@
        }),
{
    match batch_url {
        Some(u) => {
            item.lfs_download_url = Some(u);
        },
        None => {
            let mut m = String::new();
            append_str(&mut m, "https://media.githubusercontent.com/media/");
            append_str(&mut m, owner);
            append_str(&mut m, "/");
            append_str(&mut m, repo);
            append_str(&mut m, "/");
            append_str(&mut m, branch);
            append_str(&mut m, "/");
            append_str(&mut m, item.path.as_str());
            assert(m@ =~= lfs_media_url_spec(owner@, repo@, branch@, item.path@));
            item.lfs_download_url = Some(m);
        },
    }
}

// ---------------------------------------------------------------------------
// The local Git remote
// ---------------------------------------------------------------------------

/// The repository URL that a `git remote get-url origin` output names: the
/// output without surrounding white space; an SSH `git@github.com:` remote
/// becomes an HTTPS one without `.git`; a GitHub URL ending in `.git` loses
/// the suffix; `None` where the output is blank.
pub open spec fn remote_url_spec(output: Seq<char>) -> Option<Seq<char>> {
    let url = trim_white(output);
    if url.len() == 0 {
        None
    } else if has_prefix(url, "git@github.com:"@) {
        Some(
            "https://github.com/"@ + trim_end_seq(trim_start_seq(url, "git@github.com:"@), ".git"@),
        )
    } else if contains_seq(url, "github.com"@) && has_suffix(url, ".git"@) {
        Some(trim_end_seq(url, ".git"@))
    } else {
        Some(url)
    }
}

impl GitHubUrl {
    /// Turns the output of `git remote get-url origin` into a repository URL.
    pub fn remote_url_from_output(output: &str) -> (r: Option<String>)
        ensures
            r.deep_view() == remote_url_spec(output@),
    {
        let raw = chars_of(output);
        let url = trim_white_chars(raw.as_slice());
        if url.len() == 0 {
            return None;
        }
        let ssh = chars_of("git@github.com:");
        let dot_git = chars_of(".git");
        let host = chars_of("github.com");
        if starts_with(url.as_slice(), ssh.as_slice()) {
            let rest = trim_start_chars(url.as_slice(), ssh.as_slice());
            let path = trim_end_chars(rest.as_slice(), dot_git.as_slice());
            let mut s = String::new();
            append_str(&mut s, "https://github.com/");
            append_chars(&mut s, path.as_slice());
            return Some(s);
        }
        if contains_chars(url.as_slice(), host.as_slice()) && ends_with(
            url.as_slice(),
            dot_git.as_slice(),
        ) {
            let trimmed = trim_end_chars(url.as_slice(), dot_git.as_slice());
            return Some(string_of(trimmed.as_slice()));
        }
        Some(string_of(url.as_slice()))
    }
}

} // verus!
