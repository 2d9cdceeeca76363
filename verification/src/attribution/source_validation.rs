//! Whether a commit's change of a file is a trustworthy first-parent source of its content.
use crate::attribution::blame::looked_up;
use crate::attribution::patch_inference::{changes_read_fully, commits_read_fully, texts};
use crate::error::AppError;
use crate::git::commits::IndexedCommit;
use crate::git::diff::CommitFileChange;
use crate::json::opt_text;
use crate::text::str_eq;
use vstd::prelude::*;

verus! {

/// A commit whose change of a file, against its first parent, is where the file's content
/// came from.
#[derive(Debug, Clone, PartialEq, Eq)]
pub struct FirstParentSource {
    pub commit_hash: String,
    pub historical_path: String,
    pub first_parent_hash: String,
    pub old_blob_id: Option<String>,
    pub new_blob_id: Option<String>,
    pub change_status: String,
}

/// The texts of a source.
pub open spec fn source_view(s: FirstParentSource) -> (
    Seq<char>,
    Seq<char>,
    Seq<char>,
    Option<Seq<char>>,
    Option<Seq<char>>,
    Seq<char>,
) {
    (
        s.commit_hash@,
        s.historical_path@,
        s.first_parent_hash@,
        opt_text(s.old_blob_id),
        opt_text(s.new_blob_id),
        s.change_status@,
    )
}

/// The texts of an optional source.
pub open spec fn opt_source_view(s: Option<FirstParentSource>) -> Option<
    (Seq<char>, Seq<char>, Seq<char>, Option<Seq<char>>, Option<Seq<char>>, Seq<char>),
> {
    match s {
        Some(v) => Some(source_view(v)),
        None => None,
    }
}

fn copy_opt_string(o: &Option<String>) -> (r: Option<String>)
    ensures
        opt_text(r) == opt_text(*o),
{
    match o {
        Some(s) => Some(s.clone()),
        None => None,
    }
}

/// A copy of an optional source.
pub fn copy_source(s: &Option<FirstParentSource>) -> (r: Option<FirstParentSource>)
    ensures
        opt_source_view(r) == opt_source_view(*s),
{
    match s {
        Some(v) => Some(
            FirstParentSource {
                commit_hash: v.commit_hash.clone(),
                historical_path: v.historical_path.clone(),
                first_parent_hash: v.first_parent_hash.clone(),
                old_blob_id: copy_opt_string(&v.old_blob_id),
                new_blob_id: copy_opt_string(&v.new_blob_id),
                change_status: v.change_status.clone(),
            },
        ),
        None => None,
    }
}

/// The validated sources by commit and historical path, each key once.
pub struct SourceValidationCache {
    entries: Vec<(String, String, Option<FirstParentSource>)>,
}

/// The key of a cache entry.
pub open spec fn entry_key(e: (String, String, Option<FirstParentSource>)) -> (Seq<char>, Seq<char>) {
    (e.0@, e.1@)
}

impl SourceValidationCache {
    /// The cached answers by commit hash and historical path.
    pub closed spec fn view_map(&self) -> Map<
        (Seq<char>, Seq<char>),
        Option<(Seq<char>, Seq<char>, Seq<char>, Option<Seq<char>>, Option<Seq<char>>, Seq<char>)>,
    > {
        Map::new(
            |k: (Seq<char>, Seq<char>)|
                exists|i: int| 0 <= i < self.entries@.len() && entry_key(self.entries@[i]) == k,
            |k: (Seq<char>, Seq<char>)|
                {
                    let i = choose|i: int|
                        0 <= i < self.entries@.len() && entry_key(self.entries@[i]) == k;
                    opt_source_view(self.entries@[i].2)
                },
        )
    }

    /// No key occurs twice.
    pub closed spec fn well_formed(&self) -> bool {
        forall|i: int, j: int|
            0 <= i < j < self.entries@.len() ==> entry_key(#[trigger] self.entries@[i])
                != entry_key(#[trigger] self.entries@[j])
    }

    /// The number of cached answers.
    pub closed spec fn size(&self) -> nat {
        self.entries@.len()
    }

    /// An empty cache.
    pub fn new() -> (c: Self)
        ensures
            c.well_formed(),
            c.view_map() == Map::<
                (Seq<char>, Seq<char>),
                Option<
                    (
                        Seq<char>,
                        Seq<char>,
                        Seq<char>,
                        Option<Seq<char>>,
                        Option<Seq<char>>,
                        Seq<char>,
                    ),
                >,
            >::empty(),
            c.size() == 0,
    {
        let c = SourceValidationCache { entries: Vec::new() };
        assert(c.view_map() =~= Map::empty());
        c
    }

    /// The number of cached answers: in a well-formed cache, the number of keys it answers.
    pub fn len(&self) -> (n: usize)
        ensures
            n == self.size(),
            self.well_formed() ==> n == self.view_map().dom().len(),
    {
        proof {
            if self.well_formed() {
                lemma_size_counts_keys(self);
            }
        }
        self.entries.len()
    }

    /// The cached answer for a commit and historical path, if any.
    pub fn lookup(&self, commit_hash: &str, historical_path: &str) -> (r: Option<Option<FirstParentSource>>)
        requires
            self.well_formed(),
        ensures
            match r {
                Some(v) => self.view_map().contains_key((commit_hash@, historical_path@))
                    && self.view_map()[(commit_hash@, historical_path@)] == opt_source_view(v),
                None => !self.view_map().contains_key((commit_hash@, historical_path@)),
            },
    {
        let ghost key = (commit_hash@, historical_path@);
        let mut i: usize = 0;
        while i < self.entries.len()
            invariant
                i <= self.entries.len(),
                key == (commit_hash@, historical_path@),
                self.well_formed(),
                forall|k: int| 0 <= k < i ==> entry_key(#[trigger] self.entries@[k]) != key,
            decreases self.entries.len() - i,
        {
            let e = &self.entries[i];
            assert(*e == self.entries@[i as int]);
            let same_hash = str_eq(e.0.as_str(), commit_hash);
            let same_path = str_eq(e.1.as_str(), historical_path);
            assert(same_hash == (e.0@ == commit_hash@));
            assert(same_path == (e.1@ == historical_path@));
            assert((same_hash && same_path) == (entry_key(self.entries@[i as int]) == key));
            if same_hash && same_path {
                assert(entry_key(self.entries@[i as int]) == key);
                proof {
                    assert(self.view_map().contains_key(key));
                    let j = choose|j: int|
                        0 <= j < self.entries@.len() && entry_key(self.entries@[j]) == key;
                    assert(j == i) by {
                        if j < i {
                            assert(entry_key(self.entries@[j]) != entry_key(self.entries@[i as int]));
                        } else if j > i {
                            assert(entry_key(self.entries@[i as int]) != entry_key(self.entries@[j]));
                        }
                    }
                }
                return Some(copy_source(&e.2));
            }
            i += 1;
        }
        assert(!self.view_map().contains_key(key)) by {
            if self.view_map().contains_key(key) {
                let j = choose|j: int|
                    0 <= j < self.entries@.len() && entry_key(self.entries@[j]) == key;
                assert(entry_key(self.entries@[j]) != key);
            }
        }
        None
    }

    /// Records the answer for a key the cache does not hold.
    pub fn insert(&mut self, commit_hash: &str, historical_path: &str, source: &Option<FirstParentSource>)
        requires
            old(self).well_formed(),
            !old(self).view_map().contains_key((commit_hash@, historical_path@)),
        ensures
            final(self).well_formed(),
            final(self).view_map() == old(self).view_map().insert(
                (commit_hash@, historical_path@),
                opt_source_view(*source),
            ),
            final(self).size() == old(self).size() + 1,
    {
        let ghost key = (commit_hash@, historical_path@);
        let ghost before = self.entries@;
        let ghost old_map = self.view_map();
        let entry = (String::from_str(commit_hash), String::from_str(historical_path), copy_source(source));
        self.entries.push(entry);
        assert(forall|i: int| 0 <= i < before.len() ==> entry_key(before[i]) != key) by {
            assert forall|i: int| 0 <= i < before.len() implies entry_key(before[i]) != key by {
                if entry_key(before[i]) == key {
                    assert(old_map.contains_key(key));
                }
            }
        }
        assert forall|i: int, j: int|
            0 <= i < j < self.entries@.len() implies entry_key(#[trigger] self.entries@[i])
            != entry_key(#[trigger] self.entries@[j]) by {
            if j == before.len() {
                assert(self.entries@[i] == before[i]);
            } else {
                assert(self.entries@[i] == before[i]);
                assert(self.entries@[j] == before[j]);
            }
        }
        assert(self.view_map() =~= old_map.insert(key, opt_source_view(*source))) by {
            assert forall|k: (Seq<char>, Seq<char>)| #[trigger] self.view_map().contains_key(k) <==> old_map.insert(
                key,
                opt_source_view(*source),
            ).contains_key(k) by {
                if self.view_map().contains_key(k) && k != key {
                    let i = choose|i: int|
                        0 <= i < self.entries@.len() && entry_key(self.entries@[i]) == k;
                    assert(i < before.len());
                    assert(entry_key(before[i]) == k);
                }
                if old_map.contains_key(k) {
                    let i = choose|i: int| 0 <= i < before.len() && entry_key(before[i]) == k;
                    assert(entry_key(self.entries@[i]) == k);
                }
                if k == key {
                    assert(entry_key(self.entries@[before.len() as int]) == k);
                }
            }
            assert forall|k: (Seq<char>, Seq<char>)| #[trigger] self.view_map().contains_key(k) implies self.view_map()[k]
                == old_map.insert(key, opt_source_view(*source))[k] by {
                let i = choose|i: int|
                    0 <= i < self.entries@.len() && entry_key(self.entries@[i]) == k;
                if k == key {
                    assert(i == before.len()) by {
                        if i < before.len() {
                            assert(entry_key(before[i]) != key);
                        }
                    }
                } else {
                    assert(i < before.len());
                    let j = choose|j: int| 0 <= j < before.len() && entry_key(before[j]) == k;
                    assert(i == j) by {
                        if i < j {
                            assert(entry_key(self.entries@[i]) != entry_key(self.entries@[j]));
                        } else if j < i {
                            assert(entry_key(self.entries@[j]) != entry_key(self.entries@[i]));
                        }
                    }
                    assert(self.entries@[i] == before[i]);
                }
            }
        }
    }

    /// The first-parent source of a file path at a commit, answered from the cache when it
    /// holds the key, else by `resolve` and recorded unless `resolve` fails.
    pub fn validate_first_parent_source_with<F>(
        &mut self,
        commit_hash: &str,
        historical_path: &str,
        resolve: F,
    ) -> (r: Result<Option<FirstParentSource>, AppError>)
        where
            F: FnOnce() -> Result<Option<FirstParentSource>, AppError>,
        requires
            old(self).well_formed(),
            call_requires(resolve, ()),
        ensures
            final(self).well_formed(),
            old(self).view_map().contains_key((commit_hash@, historical_path@)) ==> (r matches Ok(v)
                && opt_source_view(v) == old(self).view_map()[(commit_hash@, historical_path@)]
                && final(self).view_map() == old(self).view_map()
                && final(self).size() == old(self).size()),
            !old(self).view_map().contains_key((commit_hash@, historical_path@)) ==> exists|
                res: Result<Option<FirstParentSource>, AppError>,
            |
                call_ensures(resolve, (), res) && match res {
                    Ok(v) => (r matches Ok(w) && opt_source_view(w) == opt_source_view(v))
                        && final(self).view_map() == old(self).view_map().insert(
                        (commit_hash@, historical_path@),
                        opt_source_view(v),
                    ) && final(self).size() == old(self).size() + 1,
                    Err(e) => r == Err::<Option<FirstParentSource>, AppError>(e)
                        && final(self).view_map() == old(self).view_map()
                        && final(self).size() == old(self).size(),
                },
    {
        match self.lookup(commit_hash, historical_path) {
            Some(cached) => Ok(cached),
            None => {
                let res = resolve();
                match res {
                    Ok(v) => {
                        self.insert(commit_hash, historical_path, &v);
                        Ok(v)
                    },
                    Err(e) => Err(e),
                }
            },
        }
    }
}

/// The change reports the file at `path` against the first parent, under its path or its old
/// path.
pub open spec fn first_parent_change_of(c: CommitFileChange, path: Seq<char>) -> bool {
    c.parent_index == 0 && (c.path@ == path || (c.old_path matches Some(o) && o@ == path))
}

/// The indices of the changes that report `path` against the first parent, in order.
pub open spec fn first_parent_matches(changes: Seq<CommitFileChange>, path: Seq<char>) -> Seq<int>
    decreases changes.len(),
{
    if changes.len() == 0 {
        Seq::empty()
    } else {
        let prev = first_parent_matches(changes.drop_last(), path);
        if first_parent_change_of(changes.last(), path) {
            prev.push(changes.len() - 1)
        } else {
            prev
        }
    }
}

/// The one change of a commit that reports `historical_path` against the first parent, by its
/// index: `None` when no change or more than one does.
pub fn select_first_parent_change(changes: &[CommitFileChange], historical_path: &str) -> (r: Option<
    usize,
>)
    ensures
        match r {
            Some(i) => first_parent_matches(changes@, historical_path@) == seq![i as int],
            None => first_parent_matches(changes@, historical_path@).len() != 1,
        },
{
    let mut found: Vec<usize> = Vec::new();
    let mut i: usize = 0;
    while i < changes.len()
        invariant
            i <= changes.len(),
            found@.map_values(|x: usize| x as int) == first_parent_matches(
                changes@.take(i as int),
                historical_path@,
            ),
        decreases changes.len() - i,
    {
        assert(changes@.take(i + 1).drop_last() =~= changes@.take(i as int));
        assert(changes@.take(i + 1).last() == changes@[i as int]);
        let c = &changes[i];
        let matched = c.parent_index == 0 && (str_eq(historical_path, c.path.as_str()) || match &c.old_path {
            Some(o) => str_eq(o.as_str(), historical_path),
            None => false,
        });
        if matched {
            let ghost before = found@;
            found.push(i);
            assert(found@.map_values(|x: usize| x as int) =~= before.map_values(|x: usize| x as int).push(
                i as int,
            ));
        }
        i += 1;
    }
    assert(changes@.take(changes.len() as int) =~= changes@);
    if found.len() == 1 {
        assert(found@.map_values(|x: usize| x as int) =~= seq![found@[0] as int]);
        Some(found[0])
    } else {
        None
    }
}

/// The path a change read the file from: the old path of a rename (its path when it has none),
/// else the old path when the change names one, else the path.
pub open spec fn historical_path_of(c: CommitFileChange) -> Seq<char> {
    match c.old_path {
        Some(o) => o@,
        None => c.path@,
    }
}

/// Whether a merge commit's change is its own and not one that a single non-merge second
/// parent brought: `matches` tells, for each parent after the first, whether it held the
/// merge's blob for the file and whether it is a merge itself.
pub open spec fn first_parent_only_spec(commit_new_blob_absent: bool, matches: Seq<(bool, bool)>) -> bool {
    if commit_new_blob_absent {
        true
    } else {
        let matching = matches.filter(|m: (bool, bool)| m.0);
        let matching_non_merge = matches.filter(|m: (bool, bool)| m.0 && !m.1);
        !(matching.len() == 1 && matching_non_merge.len() == 1)
    }
}

/// Decides whether a merge commit's change is its own.
pub fn first_parent_only_from_matches(commit_new_blob_absent: bool, matches: &[(bool, bool)]) -> (r:
    bool)
    ensures
        r == first_parent_only_spec(commit_new_blob_absent, matches@),
{
    if commit_new_blob_absent {
        return true;
    }
    let mut matching: usize = 0;
    let mut matching_non_merge: usize = 0;
    let mut i: usize = 0;
    while i < matches.len()
        invariant
            i <= matches.len(),
            matching == matches@.take(i as int).filter(|m: (bool, bool)| m.0).len(),
            matching_non_merge == matches@.take(i as int).filter(|m: (bool, bool)| m.0 && !m.1).len(),
            matching <= i,
            matching_non_merge <= i,
        decreases matches.len() - i,
    {
        proof {
            let s = matches@.take(i + 1);
            assert(matches@.take(i as int).push(matches@[i as int]) =~= s);
            matches@.take(i as int).lemma_filter_len_push(|m: (bool, bool)| m.0, matches@[i as int]);
            matches@.take(i as int).lemma_filter_len_push(
                |m: (bool, bool)| m.0 && !m.1,
                matches@[i as int],
            );
        }
        let (matched, is_merge) = matches[i];
        if matched {
            matching += 1;
            if !is_merge {
                matching_non_merge += 1;
            }
        }
        i += 1;
    }
    assert(matches@.take(matches.len() as int) =~= matches@);
    !(matching == 1 && matching_non_merge == 1)
}

/// The source a commit's selected change gives: `None` for a merge whose change is not its
/// own, else the change seen from the first parent (empty for a root commit).
pub fn first_parent_source(commit: &IndexedCommit, change: &CommitFileChange, first_parent_only: bool) -> (r:
    Option<FirstParentSource>)
    ensures
        (commit.parents@.len() > 1 && !first_parent_only) ==> r is None,
        !(commit.parents@.len() > 1 && !first_parent_only) ==> (r matches Some(s) && source_view(s) == (
            commit.hash@,
            historical_path_of(*change),
            if commit.parents@.len() > 0 {
                commit.parents@[0]@
            } else {
                Seq::empty()
            },
            opt_text(change.old_blob_id),
            opt_text(change.new_blob_id),
            change.status@,
        )),
{
    if commit.parents.len() > 1 && !first_parent_only {
        return None;
    }
    let historical_path = match &change.old_path {
        Some(o) => o.clone(),
        None => change.path.clone(),
    };
    let first_parent_hash = if commit.parents.len() > 0 {
        commit.parents[0].clone()
    } else {
        String::new()
    };
    Some(
        FirstParentSource {
            commit_hash: commit.hash.clone(),
            historical_path,
            first_parent_hash,
            old_blob_id: copy_opt_string(&change.old_blob_id),
            new_blob_id: copy_opt_string(&change.new_blob_id),
            change_status: change.status.clone(),
        },
    )
}

/// The view of an optional blob.
pub open spec fn opt_bytes(b: Option<Vec<u8>>) -> Option<Seq<u8>> {
    match b {
        Some(v) => Some(v@),
        None => None,
    }
}

fn same_blob(a: &Option<Vec<u8>>, b: &Option<Vec<u8>>) -> (r: bool)
    ensures
        r == (opt_bytes(*a) == opt_bytes(*b)),
{
    match (a, b) {
        (Some(x), Some(y)) => {
            if x.len() != y.len() {
                assert(x@.len() != y@.len());
                return false;
            }
            let mut i: usize = 0;
            while i < x.len()
                invariant
                    i <= x@.len(),
                    x@.len() == y@.len(),
                    opt_bytes(*a) == Some(x@),
                    opt_bytes(*b) == Some(y@),
                    forall|k: int| 0 <= k < i ==> x@[k] == y@[k],
                decreases x.len() - i,
            {
                if x[i] != y[i] {
                    assert(x@[i as int] != y@[i as int]);
                    return false;
                }
                i += 1;
            }
            assert(x@ =~= y@);
            true
        },
        (None, None) => true,
        _ => false,
    }
}

/// Every read of `read_blob` succeeds.
pub open spec fn blobs_read_fully<FB: Fn(&str, &str) -> Result<Option<Vec<u8>>, AppError>>(read_blob: FB) -> bool {
    forall|h: &str, p: &str, res: Result<Option<Vec<u8>>, AppError>|
        #[trigger] read_blob.ensures((h, p), res) ==> res is Ok
}

/// Every call of `parent_paths` succeeds.
pub open spec fn paths_read_fully<FP: Fn(&str, &str, &str) -> Result<Vec<String>, AppError>>(parent_paths: FP) -> bool {
    forall|h: &str, c: &str, p: &str, res: Result<Vec<String>, AppError>|
        #[trigger] parent_paths.ensures((h, c, p), res) ==> res is Ok
}

/// `b` is a blob that `read_blob` may give back for `path` at `hash`.
pub open spec fn blob_read<FB: Fn(&str, &str) -> Result<Option<Vec<u8>>, AppError>>(
    read_blob: FB,
    hash: Seq<char>,
    path: Seq<char>,
    b: Option<Vec<u8>>,
) -> bool {
    exists|h: &str, p: &str|
        h@ == hash && p@ == path && #[trigger] read_blob.ensures((h, p), Ok::<Option<Vec<u8>>, AppError>(b))
}

/// A blob read for `path` at `hash` was found equal to `target` or not, as `same` says.
pub open spec fn blob_compared<FB: Fn(&str, &str) -> Result<Option<Vec<u8>>, AppError>>(
    read_blob: FB,
    hash: Seq<char>,
    path: Seq<char>,
    target: Option<Seq<u8>>,
    same: bool,
) -> bool {
    exists|b: Option<Vec<u8>>| #[trigger] blob_read(read_blob, hash, path, b) && (opt_bytes(b) == target) == same
}

/// `paths` is what `parent_paths` may give back for the file at `path` in `child`, seen from
/// `parent`.
pub open spec fn paths_read<FP: Fn(&str, &str, &str) -> Result<Vec<String>, AppError>>(
    parent_paths: FP,
    parent: Seq<char>,
    child: Seq<char>,
    path: Seq<char>,
    paths: Vec<String>,
) -> bool {
    exists|h: &str, c: &str, p: &str|
        h@ == parent && c@ == child && p@ == path && #[trigger] parent_paths.ensures(
            (h, c, p),
            Ok::<Vec<String>, AppError>(paths),
        )
}

/// `m` is what a merge's parent says of the file: whether one of its paths for the file (as
/// `parent_paths` gives them) held the merge's blob `target`, and whether the parent (as
/// `get_commit` gives it) is a merge itself.
pub open spec fn merge_parent_read<FB, FP, FC>(
    read_blob: FB,
    parent_paths: FP,
    get_commit: FC,
    child: Seq<char>,
    path: Seq<char>,
    parent: Seq<char>,
    target: Option<Seq<u8>>,
    m: (bool, bool),
) -> bool where
    FB: Fn(&str, &str) -> Result<Option<Vec<u8>>, AppError>,
    FP: Fn(&str, &str, &str) -> Result<Vec<String>, AppError>,
    FC: Fn(&str) -> Result<IndexedCommit, AppError>,
 {
    exists|paths: Vec<String>, pc: IndexedCommit|
        #![trigger paths_read(parent_paths, parent, child, path, paths), looked_up(get_commit, parent, pc)]
        {
            &&& paths_read(parent_paths, parent, child, path, paths)
            &&& looked_up(get_commit, parent, pc)
            &&& m.1 == pc.is_merge
            &&& m.0 ==> exists|q: int|
                0 <= q < paths@.len() && #[trigger] blob_compared(read_blob, parent, paths@[q]@, target, true)
            &&& !m.0 ==> forall|q: int|
                0 <= q < paths@.len() ==> #[trigger] blob_compared(read_blob, parent, paths@[q]@, target, false)
        }
}

/// `b` is the verdict on a merge whose blob of the file at `path` is `target`, from what each
/// parent after the first says of it.
pub open spec fn merge_verdict<FB, FP, FC>(
    read_blob: FB,
    parent_paths: FP,
    get_commit: FC,
    commit: IndexedCommit,
    path: Seq<char>,
    target: Option<Seq<u8>>,
    b: bool,
) -> bool where
    FB: Fn(&str, &str) -> Result<Option<Vec<u8>>, AppError>,
    FP: Fn(&str, &str, &str) -> Result<Vec<String>, AppError>,
    FC: Fn(&str) -> Result<IndexedCommit, AppError>,
 {
    exists|matches: Seq<(bool, bool)>|
        {
            &&& matches.len() == commit.parents@.len() - 1
            &&& forall|k: int|
                0 <= k < matches.len() ==> merge_parent_read(
                    read_blob,
                    parent_paths,
                    get_commit,
                    commit.hash@,
                    path,
                    commit.parents@[k + 1]@,
                    target,
                    #[trigger] matches[k],
                )
            &&& b == #[trigger] first_parent_only_spec(false, matches)
        }
}

/// `b` is the verdict on whether the commit's change of the file at `path` is its own, from
/// what the reads gave: always for a commit that is no merge with several parents, or whose
/// blob of the file is missing; else from what each parent after the first says.
pub open spec fn own_change_read<FB, FP, FC>(
    read_blob: FB,
    parent_paths: FP,
    get_commit: FC,
    commit: IndexedCommit,
    path: Seq<char>,
    b: bool,
) -> bool where
    FB: Fn(&str, &str) -> Result<Option<Vec<u8>>, AppError>,
    FP: Fn(&str, &str, &str) -> Result<Vec<String>, AppError>,
    FC: Fn(&str) -> Result<IndexedCommit, AppError>,
 {
    if !(commit.is_merge && commit.parents@.len() > 1) {
        b
    } else {
        exists|blob: Option<Vec<u8>>|
            #[trigger] blob_read(read_blob, commit.hash@, path, blob) && (blob is None ==> b) && (blob is Some
                ==> merge_verdict(read_blob, parent_paths, get_commit, commit, path, opt_bytes(blob), b))
    }
}

/// Whether a commit's change of the file at `current_path` is its own: always for a commit
/// that is no merge; for a merge, unless exactly one parent after the first held the merge's
/// blob of the file (at one of the paths `parent_paths` gives) and that parent is no merge.
/// Blobs are read with `read_blob` and parents with `get_commit`.
pub fn first_parent_only_change_with<FB, FP, FC>(
    read_blob: FB,
    parent_paths: FP,
    get_commit: FC,
    commit: &IndexedCommit,
    current_path: &str,
) -> (r: Result<bool, AppError>)
    where
        FB: Fn(&str, &str) -> Result<Option<Vec<u8>>, AppError> + Copy,
        FP: Fn(&str, &str, &str) -> Result<Vec<String>, AppError> + Copy,
        FC: Fn(&str) -> Result<IndexedCommit, AppError> + Copy,
    requires
        forall|h: &str, p: &str| #[trigger] read_blob.requires((h, p)),
        forall|h: &str, c: &str, p: &str| #[trigger] parent_paths.requires((h, c, p)),
        forall|h: &str| #[trigger] get_commit.requires((h,)),
    ensures
        !(commit.is_merge && commit.parents@.len() > 1) ==> r == Ok::<bool, AppError>(true),
        r matches Ok(b) ==> own_change_read(read_blob, parent_paths, get_commit, *commit, current_path@, b),
        blobs_read_fully(read_blob) && paths_read_fully(parent_paths) && commits_read_fully(get_commit) ==> r is Ok,
{
    if !(commit.is_merge && commit.parents.len() > 1) {
        return Ok(true);
    }
    let ch = commit.hash.as_str();
    let commit_new_blob = match read_blob(ch, current_path) {
        Ok(b) => b,
        Err(e) => {
            return Err(e);
        },
    };
    proof {
        assert(blob_read(read_blob, commit.hash@, current_path@, commit_new_blob));
    }
    if commit_new_blob.is_none() {
        let empty: Vec<(bool, bool)> = Vec::new();
        let only = first_parent_only_from_matches(true, empty.as_slice());
        assert(only == first_parent_only_spec(true, empty@));
        proof {
            assert(blob_read(read_blob, commit.hash@, current_path@, commit_new_blob));
            assert(own_change_read(read_blob, parent_paths, get_commit, *commit, current_path@, only));
        }
        return Ok(only);
    }
    let ghost target = opt_bytes(commit_new_blob);
    let mut matches: Vec<(bool, bool)> = Vec::new();
    let mut pi: usize = 1;
    while pi < commit.parents.len()
        invariant
            forall|h: &str, p: &str| #[trigger] read_blob.requires((h, p)),
            forall|h: &str, c: &str, p: &str| #[trigger] parent_paths.requires((h, c, p)),
            forall|h: &str| #[trigger] get_commit.requires((h,)),
            1 <= pi <= commit.parents@.len(),
            commit.is_merge && commit.parents@.len() > 1,
            target == opt_bytes(commit_new_blob),
            matches@.len() == pi - 1,
            forall|k: int|
                0 <= k < matches@.len() ==> merge_parent_read(
                    read_blob,
                    parent_paths,
                    get_commit,
                    commit.hash@,
                    current_path@,
                    commit.parents@[k + 1]@,
                    target,
                    #[trigger] matches@[k],
                ),
        decreases commit.parents.len() - pi,
    {
        let parent_hash = commit.parents[pi].as_str();
        let ch = commit.hash.as_str();
        let paths = match parent_paths(parent_hash, ch, current_path) {
            Ok(p) => p,
            Err(e) => {
                return Err(e);
            },
        };
        proof {
            assert(paths_read(parent_paths, parent_hash@, commit.hash@, current_path@, paths));
        }
        let parent_commit = match get_commit(parent_hash) {
            Ok(c) => c,
            Err(e) => {
                return Err(e);
            },
        };
        proof {
            assert(looked_up(get_commit, parent_hash@, parent_commit));
        }
        let mut parent_matches = false;
        let mut qi: usize = 0;
        while qi < paths.len() && !parent_matches
            invariant
                forall|h: &str, p: &str| #[trigger] read_blob.requires((h, p)),
                commit.is_merge && commit.parents@.len() > 1,
                target == opt_bytes(commit_new_blob),
                qi <= paths@.len(),
                parent_matches ==> exists|q: int|
                    0 <= q < paths@.len() && #[trigger] blob_compared(read_blob, parent_hash@, paths@[q]@, target, true),
                !parent_matches ==> forall|q: int|
                    0 <= q < qi ==> #[trigger] blob_compared(read_blob, parent_hash@, paths@[q]@, target, false),
            decreases paths.len() - qi,
        {
            let pq = paths[qi].as_str();
            let parent_blob = match read_blob(parent_hash, pq) {
                Ok(b) => b,
                Err(e) => {
                    return Err(e);
                },
            };
            let same = same_blob(&parent_blob, &commit_new_blob);
            proof {
                assert(blob_read(read_blob, parent_hash@, paths@[qi as int]@, parent_blob));
                assert(blob_compared(read_blob, parent_hash@, paths@[qi as int]@, target, same));
            }
            if same {
                parent_matches = true;
            }
            qi += 1;
        }
        let ghost m = (parent_matches, parent_commit.is_merge);
        proof {
            assert(merge_parent_read(
                read_blob,
                parent_paths,
                get_commit,
                commit.hash@,
                current_path@,
                commit.parents@[pi as int]@,
                target,
                m,
            ));
        }
        let ghost pre = matches@;
        matches.push((parent_matches, parent_commit.is_merge));
        proof {
            assert forall|k: int|
                0 <= k < matches@.len() implies merge_parent_read(
                read_blob,
                parent_paths,
                get_commit,
                commit.hash@,
                current_path@,
                commit.parents@[k + 1]@,
                target,
                #[trigger] matches@[k],
            ) by {
                if k < pre.len() {
                    assert(matches@[k] == pre[k]);
                }
            }
        }
        pi += 1;
    }
    let only = first_parent_only_from_matches(false, matches.as_slice());
    assert(only == first_parent_only_spec(false, matches@));
    proof {
        assert(merge_verdict(read_blob, parent_paths, get_commit, *commit, current_path@, target, only));
        assert(blob_read(read_blob, commit.hash@, current_path@, commit_new_blob));
        assert(own_change_read(read_blob, parent_paths, get_commit, *commit, current_path@, only));
    }
    Ok(only)
}

/// `changes` is what `commit_changes` may give back for the commit `hash`.
pub open spec fn changes_read<FF: Fn(&str) -> Result<Vec<CommitFileChange>, AppError>>(
    commit_changes: FF,
    hash: Seq<char>,
    changes: Vec<CommitFileChange>,
) -> bool {
    exists|h: &str| h@ == hash && #[trigger] commit_changes.ensures((h,), Ok::<Vec<CommitFileChange>, AppError>(changes))
}

/// The source (by its texts) that a commit's change `c` gives, with `only` the verdict on
/// whether the change is the commit's own.
pub open spec fn source_of(
    commit: IndexedCommit,
    c: CommitFileChange,
    only: bool,
    rv: Option<(Seq<char>, Seq<char>, Seq<char>, Option<Seq<char>>, Option<Seq<char>>, Seq<char>)>,
) -> bool {
    if commit.parents@.len() > 1 && !only {
        rv is None
    } else {
        rv == Some(
            (
                commit.hash@,
                historical_path_of(c),
                if commit.parents@.len() > 0 {
                    commit.parents@[0]@
                } else {
                    Seq::empty()
                },
                opt_text(c.old_blob_id),
                opt_text(c.new_blob_id),
                c.status@,
            ),
        )
    }
}

/// `rv` is the first-parent source (by its texts) that the commit's `changes` give for `path`:
/// none unless exactly one change reports the path against the first parent; else that
/// change's source, with the reads' verdict on whether a merge's change is its own.
pub open spec fn first_parent_resolution<FB, FP, FC>(
    read_blob: FB,
    parent_paths: FP,
    get_commit: FC,
    commit: IndexedCommit,
    path: Seq<char>,
    changes: Seq<CommitFileChange>,
    rv: Option<(Seq<char>, Seq<char>, Seq<char>, Option<Seq<char>>, Option<Seq<char>>, Seq<char>)>,
) -> bool where
    FB: Fn(&str, &str) -> Result<Option<Vec<u8>>, AppError>,
    FP: Fn(&str, &str, &str) -> Result<Vec<String>, AppError>,
    FC: Fn(&str) -> Result<IndexedCommit, AppError>,
 {
    let ms = first_parent_matches(changes, path);
    if ms.len() != 1 {
        rv is None
    } else {
        let c = changes[ms[0]];
        if commit.parents@.len() > 1 {
            exists|only: bool|
                #[trigger] own_change_read(read_blob, parent_paths, get_commit, commit, c.path@, only)
                    && source_of(commit, c, only, rv)
        } else {
            source_of(commit, c, true, rv)
        }
    }
}

/// The first-parent source of a commit for a file at `historical_path`: the one change of the
/// commit (read with `commit_changes`) that reports the path against the first parent, seen
/// from the first parent; none when no change or several do, or when the commit is a merge
/// whose change is not its own.
pub fn resolve_first_parent_source_with<FF, FB, FP, FC>(
    commit_changes: FF,
    read_blob: FB,
    parent_paths: FP,
    get_commit: FC,
    commit: &IndexedCommit,
    historical_path: &str,
) -> (r: Result<Option<FirstParentSource>, AppError>)
    where
        FF: Fn(&str) -> Result<Vec<CommitFileChange>, AppError> + Copy,
        FB: Fn(&str, &str) -> Result<Option<Vec<u8>>, AppError> + Copy,
        FP: Fn(&str, &str, &str) -> Result<Vec<String>, AppError> + Copy,
        FC: Fn(&str) -> Result<IndexedCommit, AppError> + Copy,
    requires
        forall|h: &str| #[trigger] commit_changes.requires((h,)),
        forall|h: &str, p: &str| #[trigger] read_blob.requires((h, p)),
        forall|h: &str, c: &str, p: &str| #[trigger] parent_paths.requires((h, c, p)),
        forall|h: &str| #[trigger] get_commit.requires((h,)),
    ensures
        r matches Ok(Some(s)) ==> exists|c: CommitFileChange|
            first_parent_change_of(c, historical_path@) && #[trigger] source_view(s) == (
                commit.hash@,
                historical_path_of(c),
                if commit.parents@.len() > 0 {
                    commit.parents@[0]@
                } else {
                    Seq::empty()
                },
                opt_text(c.old_blob_id),
                opt_text(c.new_blob_id),
                c.status@,
            ),
        r matches Ok(res) ==> exists|changes: Vec<CommitFileChange>|
            #[trigger] changes_read(commit_changes, commit.hash@, changes) && first_parent_resolution(
                read_blob,
                parent_paths,
                get_commit,
                *commit,
                historical_path@,
                changes@,
                opt_source_view(res),
            ),
        changes_read_fully(commit_changes) && blobs_read_fully(read_blob) && paths_read_fully(parent_paths)
            && commits_read_fully(get_commit) ==> r is Ok,
{
    let ch = commit.hash.as_str();
    let changes = match commit_changes(ch) {
        Ok(c) => c,
        Err(e) => {
            return Err(e);
        },
    };
    proof {
        assert(changes_read(commit_changes, commit.hash@, changes));
    }
    match select_first_parent_change(changes.as_slice(), historical_path) {
        None => {
            proof {
                assert(first_parent_resolution(
                    read_blob,
                    parent_paths,
                    get_commit,
                    *commit,
                    historical_path@,
                    changes@,
                    None,
                ));
            }
            Ok(None)
        },
        Some(idx) => {
            proof {
                lemma_first_parent_matches_are_matches(changes@, historical_path@, 0);
            }
            assert(first_parent_matches(changes@, historical_path@)[0] == idx as int);
            assert(first_parent_change_of(changes@[idx as int], historical_path@));
            let change = &changes[idx];
            let only = if commit.parents.len() > 1 {
                match first_parent_only_change_with(read_blob, parent_paths, get_commit, commit, change.path.as_str()) {
                    Ok(b) => b,
                    Err(e) => {
                        return Err(e);
                    },
                }
            } else {
                true
            };
            let res = first_parent_source(commit, change, only);
            proof {
                assert(source_of(*commit, changes@[idx as int], only, opt_source_view(res)));
                assert(first_parent_resolution(
                    read_blob,
                    parent_paths,
                    get_commit,
                    *commit,
                    historical_path@,
                    changes@,
                    opt_source_view(res),
                ));
                if res is Some {
                    assert(source_view(res->0) == (
                        commit.hash@,
                        historical_path_of(changes@[idx as int]),
                        if commit.parents@.len() > 0 {
                            commit.parents@[0]@
                        } else {
                            Seq::empty()
                        },
                        opt_text(changes@[idx as int].old_blob_id),
                        opt_text(changes@[idx as int].new_blob_id),
                        changes@[idx as int].status@,
                    ));
                }
            }
            Ok(res)
        },
    }
}

/// A well-formed cache holds as many entries as it answers keys.
pub proof fn lemma_size_counts_keys(c: &SourceValidationCache)
    requires
        c.well_formed(),
    ensures
        c.view_map().dom().finite(),
        c.view_map().dom().len() == c.size(),
{
    let keys = c.entries@.map_values(|e: (String, String, Option<FirstParentSource>)| entry_key(e));
    assert(keys.no_duplicates()) by {
        assert forall|i: int, j: int| 0 <= i < keys.len() && 0 <= j < keys.len() && i != j implies keys[i]
            != keys[j] by {
            if i < j {
                assert(entry_key(c.entries@[i]) != entry_key(c.entries@[j]));
            } else {
                assert(entry_key(c.entries@[j]) != entry_key(c.entries@[i]));
            }
        }
    }
    keys.unique_seq_to_set();
    assert(c.view_map().dom() =~= keys.to_set()) by {
        assert forall|k: (Seq<char>, Seq<char>)| c.view_map().dom().contains(k) <==> keys.to_set().contains(k) by {
            if c.view_map().dom().contains(k) {
                let i = choose|i: int| 0 <= i < c.entries@.len() && entry_key(c.entries@[i]) == k;
                assert(keys[i] == k);
            }
            if keys.to_set().contains(k) {
                let i = choose|i: int| 0 <= i < keys.len() && keys[i] == k;
                assert(entry_key(c.entries@[i]) == k);
            }
        }
    }
}

proof fn lemma_first_parent_matches_are_matches(changes: Seq<CommitFileChange>, path: Seq<char>, k: int)
    ensures
        forall|j: int|
            0 <= j < first_parent_matches(changes, path).len() ==> 0 <= #[trigger] first_parent_matches(
                changes,
                path,
            )[j] < changes.len() && first_parent_change_of(changes[first_parent_matches(changes, path)[j]], path),
    decreases changes.len(),
{
    if changes.len() > 0 {
        lemma_first_parent_matches_are_matches(changes.drop_last(), path, k);
        let prev = first_parent_matches(changes.drop_last(), path);
        assert forall|j: int| 0 <= j < prev.len() implies changes[prev[j]] == changes.drop_last()[prev[j]] by {}
    }
}

impl SourceValidationCache {
    /// The first-parent source of a file path at a commit, answered from the cache when it
    /// holds the key, else resolved from the repository's reads and recorded unless they fail.
    pub fn validate_first_parent_source<FF, FB, FP, FC>(
        &mut self,
        commit_changes: FF,
        read_blob: FB,
        parent_paths: FP,
        get_commit: FC,
        commit: &IndexedCommit,
        historical_path: &str,
    ) -> (r: Result<Option<FirstParentSource>, AppError>)
        where
            FF: Fn(&str) -> Result<Vec<CommitFileChange>, AppError> + Copy,
            FB: Fn(&str, &str) -> Result<Option<Vec<u8>>, AppError> + Copy,
            FP: Fn(&str, &str, &str) -> Result<Vec<String>, AppError> + Copy,
            FC: Fn(&str) -> Result<IndexedCommit, AppError> + Copy,
        requires
            old(self).well_formed(),
            forall|h: &str| #[trigger] commit_changes.requires((h,)),
            forall|h: &str, p: &str| #[trigger] read_blob.requires((h, p)),
            forall|h: &str, c: &str, p: &str| #[trigger] parent_paths.requires((h, c, p)),
            forall|h: &str| #[trigger] get_commit.requires((h,)),
        ensures
            final(self).well_formed(),
            old(self).view_map().contains_key((commit.hash@, historical_path@)) ==> (r matches Ok(v)
                && opt_source_view(v) == old(self).view_map()[(commit.hash@, historical_path@)]
                && final(self).view_map() == old(self).view_map()),
            !old(self).view_map().contains_key((commit.hash@, historical_path@)) ==> (r matches Ok(v)
                ==> final(self).view_map() == old(self).view_map().insert(
                (commit.hash@, historical_path@),
                opt_source_view(v),
            )),
            r is Err ==> final(self).view_map() == old(self).view_map(),
            old(self).view_map().contains_key((commit.hash@, historical_path@)) ==> final(self).size() == old(
                self,
            ).size(),
            !old(self).view_map().contains_key((commit.hash@, historical_path@)) && r is Ok ==> final(self).size()
                == old(self).size() + 1,
            r is Err ==> final(self).size() == old(self).size(),
            !old(self).view_map().contains_key((commit.hash@, historical_path@)) ==> (r matches Ok(v)
                ==> exists|changes: Vec<CommitFileChange>|
                #[trigger] changes_read(commit_changes, commit.hash@, changes) && first_parent_resolution(
                    read_blob,
                    parent_paths,
                    get_commit,
                    *commit,
                    historical_path@,
                    changes@,
                    opt_source_view(v),
                )),
    {
        let resolve = || -> (res: Result<Option<FirstParentSource>, AppError>)
            requires
                forall|h: &str| #[trigger] commit_changes.requires((h,)),
                forall|h: &str, p: &str| #[trigger] read_blob.requires((h, p)),
                forall|h: &str, c: &str, p: &str| #[trigger] parent_paths.requires((h, c, p)),
                forall|h: &str| #[trigger] get_commit.requires((h,)),
            ensures
                res matches Ok(v) ==> exists|changes: Vec<CommitFileChange>|
                    #[trigger] changes_read(commit_changes, commit.hash@, changes) && first_parent_resolution(
                        read_blob,
                        parent_paths,
                        get_commit,
                        *commit,
                        historical_path@,
                        changes@,
                        opt_source_view(v),
                    ),
            {
                resolve_first_parent_source_with(
                    commit_changes,
                    read_blob,
                    parent_paths,
                    get_commit,
                    commit,
                    historical_path,
                )
            };
        let ghost pre = self.view_map();
        let r = self.validate_first_parent_source_with(commit.hash.as_str(), historical_path, resolve);
        proof {
            if !pre.contains_key((commit.hash@, historical_path@)) {
                let res = choose|res: Result<Option<FirstParentSource>, AppError>|
                    call_ensures(resolve, (), res) && match res {
                        Ok(v) => (r matches Ok(w) && opt_source_view(w) == opt_source_view(v))
                            && self.view_map() == pre.insert((commit.hash@, historical_path@), opt_source_view(v))
                            && self.size() == old(self).size() + 1,
                        Err(e) => r == Err::<Option<FirstParentSource>, AppError>(e) && self.view_map() == pre
                            && self.size() == old(self).size(),
                    };
                assert(res is Ok <==> r is Ok);
            }
            if !pre.contains_key((commit.hash@, historical_path@)) && r is Ok {
                let res = choose|res: Result<Option<FirstParentSource>, AppError>|
                    call_ensures(resolve, (), res) && match res {
                        Ok(v) => (r matches Ok(w) && opt_source_view(w) == opt_source_view(v))
                            && self.view_map() == pre.insert((commit.hash@, historical_path@), opt_source_view(v))
                            && self.size() == old(self).size() + 1,
                        Err(e) => r == Err::<Option<FirstParentSource>, AppError>(e) && self.view_map() == pre
                            && self.size() == old(self).size(),
                    };
                assert(res is Ok);
            }
        }
        r
    }
}

} // verus!
