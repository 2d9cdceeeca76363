//! File changes between commits, and the path sets that renames connect.
use crate::attribution::patch_inference::texts;
use crate::overlay::lcs::lcs_len;
use crate::overlay::line_diff::{diff_lines, equal_side, new_side, old_side, LineDiffPart};
use crate::text::{str_eq, text_lines};
use vstd::prelude::*;

verus! {

/// The paths that a commit changed against its parents, over all parents.
#[derive(Debug)]
pub struct PairwiseChanges {
    pub parent_count: usize,
    pub paths: Vec<String>,
}

/// A file renamed between two trees.
#[derive(Debug)]
pub struct RenameChange {
    pub old_path: String,
    pub new_path: String,
}

/// One file changed by a commit against one of its parents.
#[derive(Debug, Clone)]
pub struct CommitFileChange {
    pub commit_hash: String,
    pub parent_hash: String,
    pub parent_index: usize,
    pub path: String,
    pub old_path: Option<String>,
    pub status: String,
    pub additions: u64,
    pub deletions: u64,
    pub is_binary: bool,
    pub is_previewable: bool,
    pub old_blob_id: Option<String>,
    pub new_blob_id: Option<String>,
}

/// Whether `paths` holds the path `p`.
pub fn contains_path(paths: &Vec<String>, p: &str) -> (r: bool)
    ensures
        r == texts(paths@).contains(p@),
{
    let mut i: usize = 0;
    while i < paths.len()
        invariant
            i <= paths.len(),
            forall|k: int| 0 <= k < i ==> paths@[k]@ != p@,
        decreases paths.len() - i,
    {
        if str_eq(paths[i].as_str(), p) {
            assert(texts(paths@)[i as int] == p@);
            return true;
        }
        i += 1;
    }
    assert(!texts(paths@).contains(p@)) by {
        if texts(paths@).contains(p@) {
            let k = choose|k: int| 0 <= k < texts(paths@).len() && texts(paths@)[k] == p@;
            assert(paths@[k]@ == p@);
        }
    }
    false
}

/// Appends `path` unless `paths` already holds it; tells whether it was appended.
pub fn push_unique_path(paths: &mut Vec<String>, path: &str) -> (added: bool)
    ensures
        added == !texts(old(paths)@).contains(path@),
        added ==> texts(final(paths)@) == texts(old(paths)@).push(path@),
        !added ==> final(paths)@ == old(paths)@,
{
    if contains_path(paths, path) {
        return false;
    }
    let ghost before = paths@;
    paths.push(String::from_str(path));
    assert(texts(paths@) =~= texts(before).push(path@));
    true
}

/// The two paths of every rename, in order.
pub open spec fn rename_endpoints(renames: Seq<RenameChange>) -> Seq<Seq<char>>
    decreases renames.len(),
{
    if renames.len() == 0 {
        Seq::empty()
    } else {
        rename_endpoints(renames.drop_last()).push(renames.last().old_path@).push(
            renames.last().new_path@,
        )
    }
}

/// The paths a search for `path` may reach: itself, its old path, and the paths of renames.
pub open spec fn path_universe(
    path: Seq<char>,
    old_path: Option<Seq<char>>,
    renames: Seq<RenameChange>,
) -> Seq<Seq<char>> {
    seq![path] + match old_path {
        Some(o) => seq![o],
        None => Seq::empty(),
    } + rename_endpoints(renames)
}

/// The old and new path of each rename.
pub open spec fn rename_pairs(renames: Seq<RenameChange>) -> Seq<(Seq<char>, Seq<char>)> {
    renames.map_values(|r: RenameChange| (r.old_path@, r.new_path@))
}

/// Each pair links two paths: a set of paths that holds one of them holds the other.
pub open spec fn closed_under_pairs(paths: Seq<Seq<char>>, pairs: Seq<(Seq<char>, Seq<char>)>) -> bool {
    forall|k: int|
        0 <= k < pairs.len() ==> (paths.contains((#[trigger] pairs[k]).0) || paths.contains(
            pairs[k].1,
        )) ==> paths.contains(pairs[k].0) && paths.contains(pairs[k].1)
}

/// A rename links two paths: a set of paths that holds one of them holds the other.
pub open spec fn closed_under_renames(paths: Seq<Seq<char>>, renames: Seq<RenameChange>) -> bool {
    closed_under_pairs(paths, rename_pairs(renames))
}

/// Every path of `paths` is forced by the seeds: each set that holds the seeds and is closed
/// under the pairs holds it.
pub open spec fn forced_by(
    paths: Seq<Seq<char>>,
    seeds: Seq<Seq<char>>,
    pairs: Seq<(Seq<char>, Seq<char>)>,
) -> bool {
    forall|c: Seq<Seq<char>>|
        #[trigger] closed_under_pairs(c, pairs) && (forall|s: int|
            0 <= s < seeds.len() ==> c.contains(#[trigger] seeds[s])) ==> forall|k: int|
            0 <= k < paths.len() ==> c.contains(#[trigger] paths[k])
}

proof fn lemma_forced_push(
    before: Seq<Seq<char>>,
    p: Seq<char>,
    seeds: Seq<Seq<char>>,
    pairs: Seq<(Seq<char>, Seq<char>)>,
    j: int,
)
    requires
        forced_by(before, seeds, pairs),
        0 <= j < pairs.len(),
        before.contains(pairs[j].0) || before.contains(pairs[j].1),
        p == pairs[j].0 || p == pairs[j].1,
    ensures
        forced_by(before.push(p), seeds, pairs),
{
    let after = before.push(p);
    assert forall|c: Seq<Seq<char>>|
        #[trigger] closed_under_pairs(c, pairs) && (forall|s: int|
            0 <= s < seeds.len() ==> c.contains(#[trigger] seeds[s])) implies forall|k: int|
        0 <= k < after.len() ==> c.contains(#[trigger] after[k]) by {
        assert forall|k: int| 0 <= k < after.len() implies c.contains(#[trigger] after[k]) by {
            if k < before.len() {
                assert(after[k] == before[k]);
                assert(c.contains(before[k]));
            } else {
                if before.contains(pairs[j].0) {
                    let i = choose|i: int| 0 <= i < before.len() && before[i] == pairs[j].0;
                    assert(c.contains(before[i]));
                } else {
                    let i = choose|i: int| 0 <= i < before.len() && before[i] == pairs[j].1;
                    assert(c.contains(before[i]));
                }
                assert(c.contains(pairs[j].0) || c.contains(pairs[j].1));
                assert(c.contains(pairs[j].0) && c.contains(pairs[j].1));
            }
        }
    }
}

/// The seeds of a path search: the path and its old path, if any.
pub open spec fn path_seeds(path: Seq<char>, old_path: Option<Seq<char>>) -> Seq<Seq<char>> {
    seq![path] + match old_path {
        Some(o) => seq![o],
        None => Seq::empty(),
    }
}

proof fn lemma_rename_endpoints(renames: Seq<RenameChange>, k: int)
    requires
        0 <= k < renames.len(),
    ensures
        rename_endpoints(renames).contains(renames[k].old_path@),
        rename_endpoints(renames).contains(renames[k].new_path@),
    decreases renames.len(),
{
    let e = rename_endpoints(renames);
    let n = renames.len();
    if k == n - 1 {
        assert(e[e.len() - 2] == renames[k].old_path@);
        assert(e[e.len() - 1] == renames[k].new_path@);
    } else {
        lemma_rename_endpoints(renames.drop_last(), k);
        let p = rename_endpoints(renames.drop_last());
        assert(renames.drop_last()[k] == renames[k]);
        let i = choose|i: int| 0 <= i < p.len() && p[i] == renames[k].old_path@;
        let j = choose|j: int| 0 <= j < p.len() && p[j] == renames[k].new_path@;
        assert(e[i] == p[i]);
        assert(e[j] == p[j]);
    }
}

proof fn lemma_rename_endpoints_len(renames: Seq<RenameChange>)
    ensures
        rename_endpoints(renames).len() == 2 * renames.len(),
    decreases renames.len(),
{
    if renames.len() > 0 {
        lemma_rename_endpoints_len(renames.drop_last());
    }
}

proof fn lemma_bounded_by_universe(paths: Seq<Seq<char>>, universe: Seq<Seq<char>>)
    requires
        paths.no_duplicates(),
        forall|k: int| 0 <= k < paths.len() ==> universe.contains(#[trigger] paths[k]),
    ensures
        paths.len() <= universe.len(),
{
    paths.unique_seq_to_set();
    universe.lemma_cardinality_of_set();
    assert(paths.to_set().subset_of(universe.to_set())) by {
        assert forall|x: Seq<char>| paths.to_set().contains(x) implies universe.to_set().contains(
            x,
        ) by {
            let k = choose|k: int| 0 <= k < paths.len() && paths[k] == x;
            assert(universe.contains(paths[k]));
        }
    }
    vstd::set_lib::lemma_len_subset(paths.to_set(), universe.to_set());
}

/// The paths connected to `path` (and `old_path`) through renames: `path` first, then
/// `old_path`, then paths in the order the search met them, none twice, and closed under
/// every rename.
pub fn connected_paths(path: &str, old_path: Option<&str>, renames: &[RenameChange]) -> (paths: Vec<
    String,
>)
    ensures
        paths@.len() >= 1,
        paths@[0]@ == path@,
        old_path matches Some(o) ==> texts(paths@).contains(o@),
        texts(paths@).no_duplicates(),
        closed_under_renames(texts(paths@), renames@),
        forced_by(
            texts(paths@),
            path_seeds(
                path@,
                match old_path {
                    Some(o) => Some(o@),
                    None => None,
                },
            ),
            rename_pairs(renames@),
        ),
        forall|k: int|
            0 <= k < paths@.len() ==> path_universe(
                path@,
                match old_path {
                    Some(o) => Some(o@),
                    None => None,
                },
                renames@,
            ).contains(#[trigger] texts(paths@)[k]),
{
    let ghost universe = path_universe(
        path@,
        match old_path {
            Some(o) => Some(o@),
            None => None,
        },
        renames@,
    );
    let ghost bound: int = universe.len() as int;
    proof {
        lemma_rename_endpoints_len(renames@);
    }
    let mut paths: Vec<String> = Vec::new();
    paths.push(String::from_str(path));
    assert(universe[0] == path@);
    assert(texts(paths@) =~= seq![path@]);
    match old_path {
        Some(o) => {
            let ghost before = paths@;
            push_unique_path(&mut paths, o);
            assert(universe[1] == o@);
            assert(texts(before).contains(o@) ==> before[0]@ == o@);
            assert(texts(paths@).len() >= 1);
            assert(texts(paths@)[0] == texts(before)[0]);
            assert(paths@[0]@ == texts(paths@)[0]);
            assert(texts(paths@).contains(o@)) by {
                if !texts(before).contains(o@) {
                    assert(texts(paths@)[texts(paths@).len() - 1] == o@);
                }
            }
            assert(forall|k: int| 0 <= k < texts(paths@).len() ==> #[trigger] texts(paths@)[k] == path@
                || texts(paths@)[k] == o@);
        },
        None => {},
    }
    let ghost seeds = path_seeds(
        path@,
        match old_path {
            Some(o) => Some(o@),
            None => None,
        },
    );
    let ghost pairs = rename_pairs(renames@);
    proof {
        assert forall|c: Seq<Seq<char>>|
            #[trigger] closed_under_pairs(c, pairs) && (forall|s: int|
                0 <= s < seeds.len() ==> c.contains(#[trigger] seeds[s])) implies forall|k: int|
            0 <= k < texts(paths@).len() ==> c.contains(#[trigger] texts(paths@)[k]) by {
            assert forall|k: int| 0 <= k < texts(paths@).len() implies c.contains(
                #[trigger] texts(paths@)[k],
            ) by {
                assert(seeds[0] == path@);
                assert(c.contains(seeds[0]));
                match old_path {
                    Some(o) => {
                        assert(seeds[1] == o@);
                        assert(c.contains(seeds[1]));
                    },
                    None => {},
                }
            }
        }
    }
    let mut changed = true;
    while changed
        invariant
            paths@.len() >= 1,
            paths@[0]@ == path@,
            old_path matches Some(o) ==> texts(paths@).contains(o@),
            texts(paths@).no_duplicates(),
            forall|k: int| 0 <= k < paths@.len() ==> universe.contains(#[trigger] texts(paths@)[k]),
            universe == path_universe(
                path@,
                match old_path {
                    Some(o) => Some(o@),
                    None => None,
                },
                renames@,
            ),
            bound == universe.len(),
            !changed ==> closed_under_renames(texts(paths@), renames@),
            seeds == path_seeds(
                path@,
                match old_path {
                    Some(o) => Some(o@),
                    None => None,
                },
            ),
            pairs == rename_pairs(renames@),
            forced_by(texts(paths@), seeds, pairs),
        decreases bound - paths@.len() + (if changed {
            1int
        } else {
            0int
        }),
    {
        proof {
            lemma_bounded_by_universe(texts(paths@), universe);
        }
        let ghost start = paths@;
        changed = false;
        let mut j: usize = 0;
        while j < renames.len()
            invariant
                j <= renames.len(),
                paths@.len() >= start.len(),
                paths@.len() >= 1,
                paths@[0]@ == path@,
                old_path matches Some(o) ==> texts(paths@).contains(o@),
                texts(paths@).no_duplicates(),
                forall|k: int|
                    0 <= k < paths@.len() ==> universe.contains(#[trigger] texts(paths@)[k]),
                universe == path_universe(
                    path@,
                    match old_path {
                        Some(o) => Some(o@),
                        None => None,
                    },
                    renames@,
                ),
                changed ==> paths@.len() > start.len(),
                !changed ==> paths@ == start,
                pairs == rename_pairs(renames@),
                forced_by(texts(paths@), seeds, pairs),
                !changed ==> forall|k: int|
                    0 <= k < j ==> (texts(paths@).contains((#[trigger] renames@[k]).old_path@)
                        || texts(paths@).contains(renames@[k].new_path@)) ==> texts(
                        paths@,
                    ).contains(renames@[k].old_path@) && texts(paths@).contains(
                        renames@[k].new_path@,
                    ),
            decreases renames.len() - j,
        {
            let rename = &renames[j];
            assert(*rename == renames@[j as int]);
            proof {
                lemma_rename_endpoints(renames@, j as int);
                assert(universe.contains(rename.old_path@)) by {
                    let i = choose|i: int|
                        0 <= i < rename_endpoints(renames@).len() && rename_endpoints(
                            renames@,
                        )[i] == rename.old_path@;
                    assert(universe[universe.len() - rename_endpoints(renames@).len() + i]
                        == rename.old_path@);
                }
                assert(universe.contains(rename.new_path@)) by {
                    let i = choose|i: int|
                        0 <= i < rename_endpoints(renames@).len() && rename_endpoints(
                            renames@,
                        )[i] == rename.new_path@;
                    assert(universe[universe.len() - rename_endpoints(renames@).len() + i]
                        == rename.new_path@);
                }
            }
            if contains_path(&paths, rename.old_path.as_str()) || contains_path(
                &paths,
                rename.new_path.as_str(),
            ) {
                let ghost p0 = paths@;
                let a = push_unique_path(&mut paths, rename.old_path.as_str());
                proof {
                    assert(pairs[j as int] == (rename.old_path@, rename.new_path@));
                    if a {
                        lemma_forced_push(texts(p0), rename.old_path@, seeds, pairs, j as int);
                        assert(texts(paths@) == texts(p0).push(rename.old_path@));
                        assert(texts(paths@)[0] == texts(p0)[0]);
                        assert forall|k: int|
                            0 <= k < paths@.len() implies universe.contains(
                            #[trigger] texts(paths@)[k],
                        ) by {
                            if k < p0.len() {
                                assert(texts(paths@)[k] == texts(p0)[k]);
                            } else {
                                assert(texts(p0).len() == p0.len());
                                assert(texts(paths@).len() == paths@.len());
                                assert(texts(paths@)[k] == rename.old_path@);
                            }
                        }
                        assert forall|x: Seq<char>| texts(p0).contains(x) implies texts(
                            paths@,
                        ).contains(x) by {
                            let k = choose|k: int| 0 <= k < texts(p0).len() && texts(p0)[k] == x;
                            assert(texts(paths@)[k] == x);
                        }
                        assert(texts(paths@).contains(rename.old_path@)) by {
                            assert(texts(paths@)[texts(paths@).len() - 1] == rename.old_path@);
                        }
                    }
                }
                let ghost p1 = paths@;
                let b = push_unique_path(&mut paths, rename.new_path.as_str());
                proof {
                    if b {
                        assert(texts(p1).contains(pairs[j as int].0) || texts(p1).contains(pairs[j as int].1)) by {
                            if !a {
                                assert(p1 == p0);
                            } else {
                                assert(texts(p1)[texts(p1).len() - 1] == rename.old_path@);
                            }
                        }
                        lemma_forced_push(texts(p1), rename.new_path@, seeds, pairs, j as int);
                        assert(texts(paths@) == texts(p1).push(rename.new_path@));
                        assert(texts(paths@)[0] == texts(p1)[0]);
                        assert forall|k: int|
                            0 <= k < paths@.len() implies universe.contains(
                            #[trigger] texts(paths@)[k],
                        ) by {
                            if k < p1.len() {
                                assert(texts(paths@)[k] == texts(p1)[k]);
                            } else {
                                assert(texts(p1).len() == p1.len());
                                assert(texts(paths@).len() == paths@.len());
                                assert(texts(paths@)[k] == rename.new_path@);
                            }
                        }
                        assert forall|x: Seq<char>| texts(p1).contains(x) implies texts(
                            paths@,
                        ).contains(x) by {
                            let k = choose|k: int| 0 <= k < texts(p1).len() && texts(p1)[k] == x;
                            assert(texts(paths@)[k] == x);
                        }
                    }
                    if !a && !b {
                        assert(paths@ == p0);
                    }
                }
                changed = changed || a || b;
            }
            j += 1;
        }
        proof {
            lemma_bounded_by_universe(texts(paths@), universe);
        }
    }
    paths
}

/// The number of lines in the runs of the given kind.
pub open spec fn kind_count(parts: Seq<LineDiffPart>, kind: int) -> nat
    decreases parts.len(),
{
    if parts.len() == 0 {
        0
    } else {
        kind_count(parts.drop_last(), kind) + if parts.last().kind() == kind {
            parts.last().lines().len()
        } else {
            0
        }
    }
}

proof fn lemma_side_lengths(parts: Seq<LineDiffPart>)
    ensures
        old_side(parts).len() == kind_count(parts, 0) + kind_count(parts, 2),
        new_side(parts).len() == kind_count(parts, 0) + kind_count(parts, 1),
        equal_side(parts).len() == kind_count(parts, 0),
    decreases parts.len(),
{
    if parts.len() > 0 {
        lemma_side_lengths(parts.drop_last());
    }
}

/// The added and removed line counts of a line diff.
pub fn line_change_counts(parts: &Vec<LineDiffPart>) -> (counts: (u64, u64))
    requires
        kind_count(parts@, 1) <= u64::MAX,
        kind_count(parts@, 2) <= u64::MAX,
    ensures
        counts.0 == kind_count(parts@, 1),
        counts.1 == kind_count(parts@, 2),
{
    let mut additions: u64 = 0;
    let mut deletions: u64 = 0;
    let mut i: usize = 0;
    proof {
        lemma_kind_count_prefix(parts@, 1, 0);
        lemma_kind_count_prefix(parts@, 2, 0);
    }
    while i < parts.len()
        invariant
            i <= parts.len(),
            additions == kind_count(parts@.take(i as int), 1),
            deletions == kind_count(parts@.take(i as int), 2),
            kind_count(parts@, 1) <= u64::MAX,
            kind_count(parts@, 2) <= u64::MAX,
        decreases parts.len() - i,
    {
        assert(parts@.take(i + 1).drop_last() =~= parts@.take(i as int));
        proof {
            lemma_kind_count_prefix(parts@, 1, i + 1);
            lemma_kind_count_prefix(parts@, 2, i + 1);
        }
        match &parts[i] {
            LineDiffPart::Added(lines) => {
                additions = additions + lines.len() as u64;
            },
            LineDiffPart::Removed(lines) => {
                deletions = deletions + lines.len() as u64;
            },
            LineDiffPart::Equal(_) => {},
        }
        i += 1;
    }
    assert(parts@.take(parts.len() as int) =~= parts@);
    (additions, deletions)
}

proof fn lemma_kind_count_prefix(parts: Seq<LineDiffPart>, kind: int, n: int)
    requires
        0 <= n <= parts.len(),
    ensures
        kind_count(parts.take(n), kind) <= kind_count(parts, kind),
    decreases parts.len() - n,
{
    if n < parts.len() {
        lemma_kind_count_prefix(parts, kind, n + 1);
        assert(parts.take(n + 1).drop_last() =~= parts.take(n));
    } else {
        assert(parts.take(n) =~= parts);
    }
}

/// The added and removed line counts between two texts, by their line diff: the lines of
/// each side that a longest common subsequence of the two texts' lines leaves out.
pub fn range_line_counts(old_text: &str, new_text: &str) -> (counts: (u64, u64))
    ensures
        counts.0 == text_lines(new_text@).len() - lcs_len(text_lines(old_text@), text_lines(new_text@)),
        counts.1 == text_lines(old_text@).len() - lcs_len(text_lines(old_text@), text_lines(new_text@)),
        counts.1 <= text_lines(old_text@).len(),
        counts.0 <= text_lines(new_text@).len(),
        counts.0 - counts.1 == text_lines(new_text@).len() - text_lines(old_text@).len(),
{
    let old_len = old_text.unicode_len();
    let new_len = new_text.unicode_len();
    let parts = diff_lines(old_text, new_text);
    proof {
        lemma_side_lengths(parts@);
        crate::text::lemma_text_lines_len(old_text@);
        crate::text::lemma_text_lines_len(new_text@);
    }
    line_change_counts(&parts)
}

/// One change between two trees as the tree diff reports it, with what the analysis reads of
/// its entries: whether each entry is a tree, its object id, and whether a blob's content
/// holds a NUL byte (`*_binary`, false where the content was not inspected).
#[derive(Debug)]
pub enum TreeChange {
    Addition { location: String, is_tree: bool, id: String, binary: bool },
    Deletion { location: String, is_tree: bool, id: String, binary: bool },
    Modification {
        location: String,
        previous_is_tree: bool,
        previous_id: String,
        previous_binary: bool,
        is_tree: bool,
        id: String,
        binary: bool,
    },
    Rewrite {
        source_location: String,
        location: String,
        copy: bool,
        source_is_tree: bool,
        source_id: String,
        source_binary: bool,
        is_tree: bool,
        id: String,
        binary: bool,
    },
}

/// `c` is the file change with the given identity, paths, status, binary flag and blob ids,
/// and no counted lines yet.
pub open spec fn file_change_is(
    c: CommitFileChange,
    commit_hash: Seq<char>,
    parent_hash: Seq<char>,
    parent_index: usize,
    path: Seq<char>,
    old_path: Option<Seq<char>>,
    status: Seq<char>,
    is_binary: bool,
    old_blob_id: Option<Seq<char>>,
    new_blob_id: Option<Seq<char>>,
) -> bool {
    &&& c.commit_hash@ == commit_hash
    &&& c.parent_hash@ == parent_hash
    &&& c.parent_index == parent_index
    &&& c.path@ == path
    &&& crate::json::opt_text(c.old_path) == old_path
    &&& c.status@ == status
    &&& c.additions == 0
    &&& c.deletions == 0
    &&& c.is_binary == is_binary
    &&& c.is_previewable == !is_binary
    &&& crate::json::opt_text(c.old_blob_id) == old_blob_id
    &&& crate::json::opt_text(c.new_blob_id) == new_blob_id
}

/// The file change a tree change makes: none for a change of a directory or a copy; an
/// addition, deletion, modification or rename of a file otherwise, binary only when the
/// content was inspected and holds a NUL byte.
pub open spec fn tree_change_spec(
    change: TreeChange,
    commit_hash: Seq<char>,
    parent_hash: Seq<char>,
    parent_index: usize,
    inspect_content: bool,
    r: Option<CommitFileChange>,
) -> bool {
    match change {
        TreeChange::Addition { location, is_tree, id, binary } => if is_tree {
            r is None
        } else {
            r matches Some(c) && file_change_is(c, commit_hash, parent_hash, parent_index, location@,
                None, "added"@, inspect_content && binary, None, Some(id@))
        },
        TreeChange::Deletion { location, is_tree, id, binary } => if is_tree {
            r is None
        } else {
            r matches Some(c) && file_change_is(c, commit_hash, parent_hash, parent_index, location@,
                None, "deleted"@, inspect_content && binary, Some(id@), None)
        },
        TreeChange::Modification { location, previous_is_tree, previous_id, previous_binary, is_tree, id, binary } =>
            if previous_is_tree || is_tree {
            r is None
        } else {
            r matches Some(c) && file_change_is(c, commit_hash, parent_hash, parent_index, location@,
                None, "modified"@, inspect_content && (previous_binary || binary), Some(previous_id@),
                Some(id@))
        },
        TreeChange::Rewrite {
            source_location,
            location,
            copy,
            source_is_tree,
            source_id,
            source_binary,
            is_tree,
            id,
            binary,
        } => if copy || source_is_tree || is_tree {
            r is None
        } else {
            r matches Some(c) && file_change_is(c, commit_hash, parent_hash, parent_index, location@,
                Some(source_location@), "renamed"@, inspect_content && (source_binary || binary),
                Some(source_id@), Some(id@))
        },
    }
}

fn new_file_change(
    commit_hash: &str,
    parent_hash: &str,
    parent_index: usize,
    path: String,
    old_path: Option<String>,
    status: &str,
    is_binary: bool,
    old_blob_id: Option<String>,
    new_blob_id: Option<String>,
) -> (c: CommitFileChange)
    ensures
        file_change_is(c, commit_hash@, parent_hash@, parent_index, path@, crate::json::opt_text(old_path),
            status@, is_binary, crate::json::opt_text(old_blob_id), crate::json::opt_text(new_blob_id)),
{
    CommitFileChange {
        commit_hash: String::from_str(commit_hash),
        parent_hash: String::from_str(parent_hash),
        parent_index,
        path,
        old_path,
        status: String::from_str(status),
        additions: 0,
        deletions: 0,
        is_binary,
        is_previewable: !is_binary,
        old_blob_id,
        new_blob_id,
    }
}

/// The file change a tree change makes, if it is a change of a file.
pub fn file_change_from_tree_change(
    change: TreeChange,
    commit_hash: &str,
    parent_hash: &str,
    parent_index: usize,
    inspect_content: bool,
) -> (r: Option<CommitFileChange>)
    ensures
        tree_change_spec(change, commit_hash@, parent_hash@, parent_index, inspect_content, r),
{
    match change {
        TreeChange::Addition { location, is_tree, id, binary } => {
            if is_tree {
                return None;
            }
            Some(new_file_change(commit_hash, parent_hash, parent_index, location, None, "added",
                inspect_content && binary, None, Some(id)))
        },
        TreeChange::Deletion { location, is_tree, id, binary } => {
            if is_tree {
                return None;
            }
            Some(new_file_change(commit_hash, parent_hash, parent_index, location, None, "deleted",
                inspect_content && binary, Some(id), None))
        },
        TreeChange::Modification { location, previous_is_tree, previous_id, previous_binary, is_tree, id, binary } => {
            if previous_is_tree || is_tree {
                return None;
            }
            Some(new_file_change(commit_hash, parent_hash, parent_index, location, None, "modified",
                inspect_content && (previous_binary || binary), Some(previous_id), Some(id)))
        },
        TreeChange::Rewrite {
            source_location,
            location,
            copy,
            source_is_tree,
            source_id,
            source_binary,
            is_tree,
            id,
            binary,
        } => {
            if copy || source_is_tree || is_tree {
                return None;
            }
            Some(new_file_change(commit_hash, parent_hash, parent_index, location, Some(source_location),
                "renamed", inspect_content && (source_binary || binary), Some(source_id), Some(id)))
        },
    }
}

/// Whether a change is the change of the file at `p`: the file's path, or the path it had
/// before a rename, is `p`.
pub open spec fn names_path(c: CommitFileChange, p: Seq<char>) -> bool {
    c.path@ == p || (c.old_path matches Some(o) && o@ == p)
}

/// The first change of the file at `requested_path`, by its path or by the path it had
/// before a rename; none when no change names it.
pub fn change_for_path(changes: Vec<CommitFileChange>, requested_path: &str) -> (r: Option<
    CommitFileChange,
>)
    ensures
        match r {
            Some(c) => exists|i: int|
                #![trigger changes@[i]]
                0 <= i < changes@.len() && changes@[i] == c && names_path(c, requested_path@) && forall|
                    j: int,
                | 0 <= j < i ==> !names_path(#[trigger] changes@[j], requested_path@),
            None => forall|j: int|
                0 <= j < changes@.len() ==> !names_path(#[trigger] changes@[j], requested_path@),
        },
{
    let ghost all = changes@;
    let mut rest = changes;
    let mut i: usize = 0;
    while i < rest.len()
        invariant
            rest@ == all,
            all == changes@,
            i <= all.len(),
            forall|j: int| 0 <= j < i ==> !names_path(#[trigger] all[j], requested_path@),
        decreases rest.len() - i,
    {
        let hit = str_eq(rest[i].path.as_str(), requested_path) || match &rest[i].old_path {
            Some(o) => str_eq(o.as_str(), requested_path),
            None => false,
        };
        if hit {
            let c = rest.remove(i);
            assert(all[i as int] == c);
            assert(names_path(c, requested_path@));
            assert(exists|k: int|
                #![trigger all[k]]
                0 <= k < all.len() && all[k] == c && names_path(c, requested_path@) && forall|j: int|
                    0 <= j < k ==> !names_path(#[trigger] all[j], requested_path@));
            return Some(c);
        }
        i += 1;
    }
    None
}

} // verus!
