//! The decisions of a download: what each selected item asks for, where the
//! files go, and what is reported on the way. The fetching and writing is
//! done by the caller.
use vstd::prelude::*;

use crate::github::{is_file_view, RepoItem};
use crate::text::{append_str, copy_str};

verus! {

/// What is done with an item of a download.
#[derive(Debug, Clone, Copy, PartialEq, Eq, Structural)]
pub enum DownloadKind {
    /// The item is not selected: it is left out.
    Skip,
    /// A file: its content is fetched and written.
    File,
    /// A folder: its contents are listed and each of them downloaded in turn.
    Folder,
}

/// What is done with `item`: nothing unless it is selected; else a file is
/// fetched, and anything else is walked as a folder.
pub fn download_kind(item: &RepoItem) -> (r: DownloadKind)
    ensures
        r == if !item.selected {
            DownloadKind::Skip
        } else if is_file_view(item@) {
            DownloadKind::File
        } else {
            DownloadKind::Folder
        },
{
    if !item.selected {
        DownloadKind::Skip
    } else if item.is_file() {
        DownloadKind::File
    } else {
        DownloadKind::Folder
    }
}

/// The progress message before a file is fetched, which marks LFS files.
pub fn file_progress_message(item: &RepoItem) -> (r: String)
    ensures
        r@ == "Downloading"@ + (if item.lfs_oid is Some {
            " [LFS]"@
        } else {
            Seq::<char>::empty()
        }) + ": "@ + item.name@,
{
    let mut r = copy_str("Downloading");
    if item.is_lfs() {
        append_str(&mut r, " [LFS]");
    }
    append_str(&mut r, ": ");
    append_str(&mut r, item.name.as_str());
    r
}

/// The progress message before a folder is listed.
pub fn folder_progress_message(item: &RepoItem) -> (r: String)
    ensures
        r@ == "Scanning folder: "@ + item.name@,
{
    let mut r = copy_str("Scanning folder: ");
    append_str(&mut r, item.name.as_str());
    r
}

/// The error recorded for an item that could not be downloaded.
pub fn download_error_message(name: &str, error: &str) -> (r: String)
    ensures
        r@ == "Failed to download "@ + name@ + ": "@ + error@,
{
    let mut r = copy_str("Failed to download ");
    append_str(&mut r, name);
    append_str(&mut r, ": ");
    append_str(&mut r, error);
    r
}

/// Where a download goes before the repository's own folder is added.
#[derive(Debug)]
pub enum BaseDir {
    /// The current working directory.
    CurrentDir,
    /// A directory that was given.
    Given(String),
    /// The user's downloads directory.
    Downloads,
}

/// The base directory of a download: the current directory where asked for,
/// else the given one, else the downloads directory.
pub fn resolve_base_dir(output_path: Option<String>, cwd: bool) -> (r: BaseDir)
    ensures
        match r {
            BaseDir::CurrentDir => cwd,
            BaseDir::Given(p) => !cwd && output_path == Some(p),
            BaseDir::Downloads => !cwd && output_path is None,
        },
{
    if cwd {
        BaseDir::CurrentDir
    } else {
        match output_path {
            Some(p) => BaseDir::Given(p),
            None => BaseDir::Downloads,
        }
    }
}

/// The folder made for the repository inside the base directory, unless
/// none is wanted.
pub fn repo_subfolder(repo: &str, no_folder: bool) -> (r: Option<String>)
    ensures
        match r {
            Some(f) => !no_folder && f@ == repo@,
            None => no_folder,
        },
{
    if no_folder {
        None
    } else {
        Some(copy_str(repo))
    }
}

} // verus!
