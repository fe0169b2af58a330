//! The total size of each folder of a repository tree.
use vstd::prelude::*;

use crate::github::{RepoItem, RepoItemView, actual_size_view, is_file_view};
use crate::sort::seq_views;
use crate::text::{chars_of, has_prefix, str_equal};

verus! {

/// The size that an item adds to its folders: its effective size, or 0.
pub open spec fn file_size(i: RepoItemView) -> nat {
    match actual_size_view(i) {
        Some(s) => s as nat,
        None => 0,
    }
}

/// `folder` is a (non-empty) folder that contains `path` at some depth.
pub open spec fn is_parent_folder(path: Seq<char>, folder: Seq<char>) -> bool {
    folder.len() > 0 && has_prefix(path, folder.push('/'))
}

/// Some file of `items` lies below `folder`.
pub open spec fn has_folder(items: Seq<RepoItemView>, folder: Seq<char>) -> bool
    decreases items.len(),
{
    if items.len() == 0 {
        false
    } else {
        has_folder(items.drop_last(), folder) || (is_file_view(items.last()) && is_parent_folder(
            items.last().path,
            folder,
        ))
    }
}

/// The total size of the files of `items` below `folder`.
pub open spec fn folder_total(items: Seq<RepoItemView>, folder: Seq<char>) -> nat
    decreases items.len(),
{
    if items.len() == 0 {
        0
    } else {
        folder_total(items.drop_last(), folder) + if is_file_view(items.last()) && is_parent_folder(
            items.last().path,
            folder,
        ) {
            file_size(items.last())
        } else {
            0
        }
    }
}

/// Every folder's total fits in 64 bits.
pub open spec fn folder_totals_fit(items: Seq<RepoItemView>) -> bool {
    forall|f: Seq<char>| #[trigger] has_folder(items, f) ==> folder_total(items, f) <= u64::MAX
}

/// A folder that holds no file has total 0.
pub proof fn lemma_no_folder_no_total(items: Seq<RepoItemView>, folder: Seq<char>)
    ensures
        !has_folder(items, folder) ==> folder_total(items, folder) == 0,
    decreases items.len(),
{
    if items.len() > 0 {
        lemma_no_folder_no_total(items.drop_last(), folder);
    }
}

/// The first items give a folder no more than all of them, and a folder of
/// the first items is a folder of all.
pub proof fn lemma_folder_prefix(items: Seq<RepoItemView>, k: int, folder: Seq<char>)
    requires
        0 <= k <= items.len(),
    ensures
        folder_total(items.take(k), folder) <= folder_total(items, folder),
        has_folder(items.take(k), folder) ==> has_folder(items, folder),
    decreases items.len(),
{
    if k == items.len() {
        assert(items.take(k) =~= items);
    } else {
        assert(items.drop_last().take(k) =~= items.take(k));
        lemma_folder_prefix(items.drop_last(), k, folder);
    }
}

/// The keys of the entries.
pub open spec fn keys_of(e: Seq<(Seq<char>, u64)>) -> Seq<Seq<char>> {
    e.map_values(|p: (Seq<char>, u64)| p.0)
}

/// The value stored for `key`, if any.
pub open spec fn lookup(e: Seq<(Seq<char>, u64)>, key: Seq<char>) -> Option<u64> {
    if exists|k: int| 0 <= k < e.len() && e[k].0 == key {
        Some(e[choose|k: int| 0 <= k < e.len() && e[k].0 == key].1)
    } else {
        None
    }
}

/// With distinct keys, the value at the index of a key is the one looked up.
proof fn lemma_lookup_at(e: Seq<(Seq<char>, u64)>, k: int)
    requires
        keys_of(e).no_duplicates(),
        0 <= k < e.len(),
    ensures
        lookup(e, e[k].0) == Some(e[k].1),
{
    let c = choose|c: int| 0 <= c < e.len() && e[c].0 == e[k].0;
    assert(0 <= c < e.len() && e[c].0 == e[k].0);
    if c != k {
        assert(keys_of(e)[c] == keys_of(e)[k]);
    }
}

/// The sizes of folders: each folder path with the total size of the files
/// below it. No folder is stored twice.
#[derive(Debug)]
pub struct FolderSizes {
    entries: Vec<(String, u64)>,
}

impl FolderSizes {
    /// No folder is stored twice.
    #[verifier::type_invariant]
    spec fn distinct_folders(self) -> bool {
        keys_of(seq_views(self.entries@)).no_duplicates()
    }

    /// The stored folders with their sizes.
    pub closed spec fn entry_views(&self) -> Seq<(Seq<char>, u64)> {
        seq_views(self.entries@)
    }

    /// No sizes at all.
    pub fn new() -> (r: Self)
        ensures
            r.entry_views().len() == 0,
    {
        let r = FolderSizes { entries: Vec::new() };
        assert(keys_of(seq_views(r.entries@)) =~= Seq::<Seq<char>>::empty());
        r
    }

    /// The total size stored for a folder, if any.
    pub fn get(&self, folder: &str) -> (r: Option<u64>)
        ensures
            r == lookup(self.entry_views(), folder@),
    {
        proof {
            use_type_invariant(self);
        }
        let ghost e = self.entry_views();
        for i in 0..self.entries.len()
            invariant
                e == self.entry_views(),
                keys_of(e).no_duplicates(),
                forall|j: int| 0 <= j < i ==> #[trigger] e[j].0 != folder@,
        {
            assert(e[i as int] == self.entries@[i as int]@);
            if str_equal(self.entries[i].0.as_str(), folder) {
                proof {
                    lemma_lookup_at(e, i as int);
                }
                return Some(self.entries[i].1);
            }
        }
        None
    }
}

/// The index of `folder` among the keys, if it is there.
fn find_key(entries: &Vec<(String, u64)>, folder: &str) -> (r: Option<usize>)
    requires
        keys_of(seq_views(entries@)).no_duplicates(),
    ensures
        match r {
            Some(i) => i < entries@.len() && seq_views(entries@)[i as int].0 == folder@ && lookup(
                seq_views(entries@),
                folder@,
            ) == Some(seq_views(entries@)[i as int].1),
            None => lookup(seq_views(entries@), folder@) is None,
        },
{
    let ghost e = seq_views(entries@);
    for i in 0..entries.len()
        invariant
            e == seq_views(entries@),
            keys_of(e).no_duplicates(),
            forall|j: int| 0 <= j < i ==> #[trigger] e[j].0 != folder@,
    {
        assert(e[i as int] == entries@[i as int]@);
        if str_equal(entries[i].0.as_str(), folder) {
            proof {
                lemma_lookup_at(e, i as int);
            }
            return Some(i);
        }
    }
    None
}

/// Adds `amount` to the total of `folder`, storing the folder first where it
/// is new. Nothing changes, and the answer is `false`, where the new total
/// would not fit in 64 bits.
fn add_to_folder(entries: &mut Vec<(String, u64)>, folder: &[char], amount: u64) -> (added: bool)
    requires
        keys_of(seq_views(old(entries)@)).no_duplicates(),
    ensures
        added == !(lookup(seq_views(old(entries)@), folder@) matches Some(v) && v + amount
            > u64::MAX),
        !added ==> final(entries)@ == old(entries)@,
        keys_of(seq_views(final(entries)@)).no_duplicates(),
        added ==> forall|f: Seq<char>|
            #[trigger] lookup(seq_views(final(entries)@), f) == if f == folder@ {
                Some(
                    (match lookup(seq_views(old(entries)@), f) {
                        Some(v) => v + amount,
                        None => amount as int,
                    }) as u64,
                )
            } else {
                lookup(seq_views(old(entries)@), f)
            },
{
    let ghost e = seq_views(entries@);
    let name = crate::text::string_of(folder);
    match find_key(entries, name.as_str()) {
        Some(i) => {
            let v = entries[i].1;
            if v > u64::MAX - amount {
                return false;
            }
            let key = entries[i].0.clone();
            entries.set(i, (key, v + amount));
            let ghost e2 = seq_views(entries@);
            assert(e2 =~= e.update(i as int, (folder@, (v + amount) as u64)));
            assert(keys_of(e2) =~= keys_of(e));
            assert forall|f: Seq<char>| #[trigger] lookup(e2, f) == if f == folder@ {
                Some((v + amount) as u64)
            } else {
                lookup(e, f)
            } by {
                lemma_lookup_at(e2, i as int);
                if f != folder@ {
                    if exists|k: int| 0 <= k < e.len() && e[k].0 == f {
                        let k = choose|k: int| 0 <= k < e.len() && e[k].0 == f;
                        lemma_lookup_at(e, k);
                        lemma_lookup_at(e2, k);
                    } else {
                        assert(!exists|k: int| 0 <= k < e2.len() && e2[k].0 == f) by {
                            if exists|k: int| 0 <= k < e2.len() && e2[k].0 == f {
                                let k = choose|k: int| 0 <= k < e2.len() && e2[k].0 == f;
                                assert(e[k].0 == f);
                            }
                        }
                    }
                }
            }
        },
        None => {
            entries.push((name, amount));
            let ghost e2 = seq_views(entries@);
            assert(e2 =~= e.push((folder@, amount)));
            assert(keys_of(e2) =~= keys_of(e).push(folder@));
            assert(!keys_of(e).contains(folder@)) by {
                if keys_of(e).contains(folder@) {
                    let k = choose|k: int| 0 <= k < keys_of(e).len() && keys_of(e)[k] == folder@;
                    assert(e[k].0 == folder@);
                }
            }
            assert forall|f: Seq<char>| #[trigger] lookup(e2, f) == if f == folder@ {
                Some(amount)
            } else {
                lookup(e, f)
            } by {
                lemma_lookup_at(e2, e.len() as int);
                if f != folder@ {
                    if exists|k: int| 0 <= k < e.len() && e[k].0 == f {
                        let k = choose|k: int| 0 <= k < e.len() && e[k].0 == f;
                        lemma_lookup_at(e, k);
                        lemma_lookup_at(e2, k);
                    } else {
                        assert(!exists|k: int| 0 <= k < e2.len() && e2[k].0 == f) by {
                            if exists|k: int| 0 <= k < e2.len() && e2[k].0 == f {
                                let k = choose|k: int| 0 <= k < e2.len() && e2[k].0 == f;
                                if k < e.len() {
                                    assert(e[k].0 == f);
                                }
                            }
                        }
                    }
                }
            }
        },
    };
    true
}


/// `folder` is a folder of `path` that ends before index `k`.
pub open spec fn is_parent_before(path: Seq<char>, folder: Seq<char>, k: int) -> bool {
    folder.len() > 0 && folder.len() < k && has_prefix(path, folder.push('/'))
}

/// Each folder of `path` that ends before index `k` can take `size` more.
pub open spec fn parents_fit(items: Seq<RepoItemView>, path: Seq<char>, size: u64, k: int) -> bool {
    forall|f: Seq<char>| #[trigger] is_parent_before(path, f, k) ==> folder_total(items, f) + size
        <= u64::MAX
}

/// The sizes of the folders of a tree, where each folder's total fits in 64
/// bits: for each folder that holds a file at any depth, the total size of the
/// files below it. `None` where some folder's total does not fit.
pub fn folder_sizes_checked(items: &[RepoItem]) -> (r: Option<FolderSizes>)
    ensures
        r is Some <==> folder_totals_fit(seq_views(items@)),
        r matches Some(sizes) ==> forall|f: Seq<char>|
            #[trigger] lookup(sizes.entry_views(), f) == if has_folder(seq_views(items@), f) {
                Some(folder_total(seq_views(items@), f) as u64)
            } else {
                None
            },
{
    let ghost views = seq_views(items@);
    let mut entries: Vec<(String, u64)> = Vec::new();
    assert(views.take(0) =~= Seq::<RepoItemView>::empty());
    assert(keys_of(seq_views(entries@)) =~= Seq::<Seq<char>>::empty());
    for i in 0..items.len()
        invariant
            views == seq_views(items@),
            keys_of(seq_views(entries@)).no_duplicates(),
            forall|f: Seq<char>|
                #[trigger] lookup(seq_views(entries@), f) == if has_folder(views.take(i as int), f) {
                    Some(folder_total(views.take(i as int), f) as u64)
                } else {
                    None
                },
            folder_totals_fit(views.take(i as int)),
    {
        let item = &items[i];
        let ghost prev = views.take(i as int);
        let ghost next = views.take(i + 1);
        assert(next.drop_last() =~= prev);
        assert(next.last() == item@);
        if item.is_file() {
            let size: u64 = match item.actual_size() {
                Some(s) => s,
                None => 0,
            };
            assert(size == file_size(item@));
            let pv = chars_of(item.path.as_str());
            let ghost p = pv@;
            for k in 0..pv.len()
                invariant
                    views == seq_views(items@),
                    i < views.len(),
                    prev == views.take(i as int),
                    next == views.take(i + 1),
                    next.drop_last() == prev,
                    next.last() == item@,
                    is_file_view(item@),
                    p == pv@,
                    p == item@.path,
                    size == file_size(item@),
                    keys_of(seq_views(entries@)).no_duplicates(),
                    folder_totals_fit(prev),
                    forall|f: Seq<char>|
                        #[trigger] lookup(seq_views(entries@), f) == if has_folder(prev, f)
                            || is_parent_before(p, f, k as int) {
                            Some(
                                (folder_total(prev, f) + if is_parent_before(p, f, k as int) {
                                    size as int
                                } else {
                                    0
                                }) as u64,
                            )
                        } else {
                            None
                        },
                    parents_fit(prev, p, size, k as int),
            {
                let ghost before = seq_views(entries@);
                if k > 0 && pv[k] == '/' {
                    let mut folder: Vec<char> = Vec::new();
                    for q in 0..k
                        invariant
                            k < pv@.len(),
                            folder@ == pv@.take(q as int),
                    {
                        folder.push(pv[q]);
                        assert(folder@ =~= pv@.take(q + 1));
                    }
                    let ghost f0 = p.take(k as int);
                    assert(!is_parent_before(p, f0, k as int));
                    assert(is_parent_before(p, f0, k + 1)) by {
                        assert(f0.push('/') =~= p.take(k + 1));
                    }
                    assert(is_parent_folder(p, f0));
                    proof {
                        lemma_no_folder_no_total(prev, f0);
                    }
                    assert(folder@ =~= f0);
                    assert(lookup(before, f0) == if has_folder(prev, f0) {
                        Some(folder_total(prev, f0) as u64)
                    } else {
                        None::<u64>
                    });
                    if !add_to_folder(&mut entries, folder.as_slice(), size) {
                        proof {
                            assert(folder_total(next, f0) == folder_total(prev, f0) + size);
                            assert(has_folder(next, f0));
                            lemma_folder_prefix(views, i + 1, f0);
                            assert(!folder_totals_fit(views));
                        }
                        return None;
                    }
                    assert(folder_total(prev, f0) + size <= u64::MAX) by {
                        if has_folder(prev, f0) {
                            assert(folder_total(prev, f0) <= u64::MAX);
                        }
                    }
                    assert forall|f: Seq<char>|
                        #[trigger] lookup(seq_views(entries@), f) == if has_folder(prev, f)
                            || is_parent_before(p, f, k + 1) {
                            Some(
                                (folder_total(prev, f) + if is_parent_before(p, f, k + 1) {
                                    size as int
                                } else {
                                    0
                                }) as u64,
                            )
                        } else {
                            None
                        } by {
                        if f.len() == k && is_parent_before(p, f, k + 1) {
                            assert(f =~= f0);
                        }
                        if f != f0 {
                            assert(is_parent_before(p, f, k + 1) == is_parent_before(p, f, k as int));
                        }
                    }
                    assert forall|f: Seq<char>|
                        #[trigger] is_parent_before(p, f, k + 1) implies folder_total(prev, f) + size
                            <= u64::MAX by {
                        if f.len() == k {
                            assert(f =~= f0);
                        } else {
                            assert(is_parent_before(p, f, k as int));
                            assert(parents_fit(prev, p, size, k as int));
                        }
                    }
                    assert(parents_fit(prev, p, size, k + 1));
                } else {
                    assert forall|f: Seq<char>| is_parent_before(p, f, k + 1) == is_parent_before(
                        p,
                        f,
                        k as int,
                    ) by {
                        if f.len() == k && has_prefix(p, f.push('/')) && f.len() > 0 {
                            assert(p[k as int] == f.push('/')[k as int]);
                        }
                    }
                    assert forall|f: Seq<char>|
                        #[trigger] is_parent_before(p, f, k + 1) implies folder_total(prev, f) + size
                            <= u64::MAX by {
                        assert(is_parent_before(p, f, k as int));
                    }
                }
            }
            assert forall|f: Seq<char>| is_parent_before(p, f, p.len() as int) == is_parent_folder(
                p,
                f,
            ) by {}
            assert forall|f: Seq<char>| #[trigger] has_folder(next, f) implies folder_total(next, f)
                <= u64::MAX by {
                assert(has_folder(prev, f) ==> folder_total(prev, f) <= u64::MAX);
                if is_parent_folder(p, f) {
                    assert(is_parent_before(p, f, p.len() as int));
                    assert(parents_fit(prev, p, size, p.len() as int));
                } else if !has_folder(prev, f) {
                    lemma_no_folder_no_total(prev, f);
                }
            }
        } else {
            assert forall|f: Seq<char>| #[trigger] has_folder(next, f) implies folder_total(next, f)
                <= u64::MAX by {
                assert(has_folder(prev, f) ==> folder_total(prev, f) <= u64::MAX);
            }
        }
    }
    assert(views.take(items@.len() as int) =~= views);
    Some(FolderSizes { entries })
}

/// The sizes of the folders of a tree: for each folder that holds a file at any
/// depth, the total size of the files below it.
pub fn calculate_folder_sizes(items: &[RepoItem]) -> (r: FolderSizes)
    requires
        folder_totals_fit(seq_views(items@)),
    ensures
        forall|f: Seq<char>|
            #[trigger] lookup(r.entry_views(), f) == if has_folder(seq_views(items@), f) {
                Some(folder_total(seq_views(items@), f) as u64)
            } else {
                None
            },
{
    match folder_sizes_checked(items) {
        Some(sizes) => sizes,
        None => FolderSizes::new(),
    }
}

} // verus!
