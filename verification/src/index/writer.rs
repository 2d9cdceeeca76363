//! The index writer's own logic: which commits a prune keeps and the range checks of values.
use crate::attribution::patch_inference::texts;
use crate::error::AppError;
use crate::git::diff::{contains_path, push_unique_path};
use vstd::prelude::*;

verus! {

/// What one index run wrote.
pub struct IndexWriteSummary {
    pub run_id: String,
    pub indexed_commit_count: u64,
    pub indexed_file_count: u64,
}

/// The message for a value beyond the database's integer range.
pub open spec fn out_of_range_message(field: Seq<char>) -> Seq<char> {
    field + " 超出 DuckDB BIGINT 范围"@
}

/// A value as the database's signed 64-bit integer, refused when it does not fit.
pub fn as_i64(value: u64, field: &str) -> (r: Result<i64, AppError>)
    ensures
        value <= i64::MAX ==> r == Ok::<i64, AppError>(value as i64),
        value > i64::MAX ==> (r matches Err(AppError::InvalidArgument(m)) && m@
            == out_of_range_message(field@)),
{
    if value <= 0x7fff_ffff_ffff_ffffu64 {
        Ok(value as i64)
    } else {
        let mut m = String::from_str(field);
        m.append(" 超出 DuckDB BIGINT 范围");
        Err(AppError::InvalidArgument(m))
    }
}

/// A parent link: a commit and one of its parents.
pub open spec fn edge_view(e: (String, String)) -> (Seq<char>, Seq<char>) {
    (e.0@, e.1@)
}

/// A set of commits that holds, with each commit, its parents.
pub open spec fn closed_under_parents(set: Seq<Seq<char>>, edges: Seq<(String, String)>) -> bool {
    forall|k: int|
        0 <= k < edges.len() ==> set.contains((#[trigger] edges[k]).0@) ==> set.contains(edges[k].1@)
}

/// The commits a prune may keep: the protected ones and the parents named by links.
pub open spec fn commit_universe(initial: Seq<String>, edges: Seq<(String, String)>) -> Seq<Seq<char>> {
    texts(initial) + edges.map_values(|e: (String, String)| e.1@)
}

proof fn lemma_unique_bounded(paths: Seq<Seq<char>>, universe: Seq<Seq<char>>)
    requires
        paths.no_duplicates(),
        forall|k: int| 0 <= k < paths.len() ==> universe.contains(#[trigger] paths[k]),
    ensures
        paths.len() <= universe.len(),
{
    paths.unique_seq_to_set();
    universe.lemma_cardinality_of_set();
    assert(paths.to_set().subset_of(universe.to_set())) by {
        assert forall|x: Seq<char>| paths.to_set().contains(x) implies universe.to_set().contains(
            x,
        ) by {
            let k = choose|k: int| 0 <= k < paths.len() && paths[k] == x;
            assert(universe.contains(paths[k]));
        }
    }
    vstd::set_lib::lemma_len_subset(paths.to_set(), universe.to_set());
}

/// `x` is a protected commit or an ancestor of one: some walk through parent links starts at a
/// protected commit and ends at `x`.
pub open spec fn reached(initial: Seq<String>, edges: Seq<(String, String)>, x: Seq<char>) -> bool {
    exists|path: Seq<Seq<char>>|
        #[trigger] parent_walk(path, edges) && path.len() > 0 && texts(initial).contains(path[0]) && path.last()
            == x
}

proof fn lemma_reached_start(initial: Seq<String>, edges: Seq<(String, String)>, i: int)
    requires
        0 <= i < initial.len(),
    ensures
        reached(initial, edges, initial[i]@),
{
    let path = seq![initial[i]@];
    assert(texts(initial)[i] == initial[i]@);
    assert(parent_walk(path, edges));
}

proof fn lemma_reached_step(initial: Seq<String>, edges: Seq<(String, String)>, j: int)
    requires
        0 <= j < edges.len(),
        reached(initial, edges, edges[j].0@),
    ensures
        reached(initial, edges, edges[j].1@),
{
    let path = choose|path: Seq<Seq<char>>|
        #[trigger] parent_walk(path, edges) && path.len() > 0 && texts(initial).contains(path[0])
            && path.last() == edges[j].0@;
    let next = path.push(edges[j].1@);
    assert(is_parent_link(edges, edges[j].0@, edges[j].1@)) by {
        assert(edge_view(edges[j]) == (edges[j].0@, edges[j].1@));
    }
    assert forall|k: int| 0 <= k < next.len() - 1 implies is_parent_link(edges, #[trigger] next[k], next[k + 1]) by {
        if k < path.len() - 1 {
            assert(next[k] == path[k] && next[k + 1] == path[k + 1]);
        } else {
            assert(next[k] == edges[j].0@);
        }
    }
    assert(parent_walk(next, edges));
    assert(next[0] == path[0]);
}

/// The protected commits with every commit they reach through parent links: it holds the
/// protected commits, holds each commit's parents with it, names no commit twice, and names
/// only protected commits and parents.
pub fn protected_closure(initial: &[String], edges: &[(String, String)]) -> (protected: Vec<String>)
    ensures
        forall|k: int| 0 <= k < initial@.len() ==> texts(protected@).contains(#[trigger] initial@[k]@),
        closed_under_parents(texts(protected@), edges@),
        texts(protected@).no_duplicates(),
        forall|k: int|
            0 <= k < protected@.len() ==> commit_universe(initial@, edges@).contains(
                #[trigger] texts(protected@)[k],
            ),
        forall|k: int| 0 <= k < protected@.len() ==> reached(initial@, edges@, #[trigger] texts(protected@)[k]),
{
    let ghost universe = commit_universe(initial@, edges@);
    let mut protected: Vec<String> = Vec::new();
    let mut i: usize = 0;
    while i < initial.len()
        invariant
            i <= initial.len(),
            universe == commit_universe(initial@, edges@),
            texts(protected@).no_duplicates(),
            forall|k: int| 0 <= k < i ==> texts(protected@).contains(#[trigger] initial@[k]@),
            forall|k: int| 0 <= k < protected@.len() ==> universe.contains(#[trigger] texts(protected@)[k]),
            forall|k: int| 0 <= k < protected@.len() ==> reached(initial@, edges@, #[trigger] texts(protected@)[k]),
        decreases initial.len() - i,
    {
        let ghost before = texts(protected@);
        let added = push_unique_path(&mut protected, initial[i].as_str());
        proof {
            assert(universe[i as int] == initial@[i as int]@);
            lemma_push_facts(before, texts(protected@), initial@[i as int]@, added);
            lemma_reached_start(initial@, edges@, i as int);
            assert forall|k: int| 0 <= k < protected@.len() implies reached(
                initial@,
                edges@,
                #[trigger] texts(protected@)[k],
            ) by {
                if k < before.len() {
                    assert(texts(protected@)[k] == before[k]);
                }
            }
        }
        i += 1;
    }
    let mut changed = true;
    while changed
        invariant
            universe == commit_universe(initial@, edges@),
            texts(protected@).no_duplicates(),
            forall|k: int| 0 <= k < initial@.len() ==> texts(protected@).contains(#[trigger] initial@[k]@),
            forall|k: int| 0 <= k < protected@.len() ==> universe.contains(#[trigger] texts(protected@)[k]),
            forall|k: int| 0 <= k < protected@.len() ==> reached(initial@, edges@, #[trigger] texts(protected@)[k]),
            !changed ==> closed_under_parents(texts(protected@), edges@),
        decreases universe.len() - protected@.len() + (if changed {
            1int
        } else {
            0int
        }),
    {
        proof {
            lemma_unique_bounded(texts(protected@), universe);
        }
        let ghost start = protected@;
        changed = false;
        let mut j: usize = 0;
        while j < edges.len()
            invariant
                j <= edges.len(),
                universe == commit_universe(initial@, edges@),
                texts(protected@).no_duplicates(),
                forall|k: int| 0 <= k < initial@.len() ==> texts(protected@).contains(#[trigger] initial@[k]@),
                forall|k: int|
                    0 <= k < protected@.len() ==> universe.contains(#[trigger] texts(protected@)[k]),
                forall|k: int| 0 <= k < protected@.len() ==> reached(initial@, edges@, #[trigger] texts(protected@)[k]),
                protected@.len() >= start.len(),
                changed ==> protected@.len() > start.len(),
                !changed ==> protected@ == start,
                !changed ==> forall|k: int|
                    0 <= k < j ==> texts(protected@).contains((#[trigger] edges@[k]).0@) ==> texts(
                        protected@,
                    ).contains(edges@[k].1@),
            decreases edges.len() - j,
        {
            let (commit, parent) = &edges[j];
            if contains_path(&protected, commit.as_str()) {
                let ghost before = texts(protected@);
                let added = push_unique_path(&mut protected, parent.as_str());
                proof {
                    assert(universe[initial@.len() + j] == parent@);
                    lemma_push_facts(before, texts(protected@), parent@, added);
                    let m = choose|m: int| 0 <= m < before.len() && before[m] == commit@;
                    assert(reached(initial@, edges@, before[m]));
                    lemma_reached_step(initial@, edges@, j as int);
                    assert forall|k: int| 0 <= k < protected@.len() implies reached(
                        initial@,
                        edges@,
                        #[trigger] texts(protected@)[k],
                    ) by {
                        if k < before.len() {
                            assert(texts(protected@)[k] == before[k]);
                        }
                    }
                    if !added {
                        assert(protected@ == start || changed);
                    }
                }
                changed = changed || added;
            }
            j += 1;
        }
        proof {
            lemma_unique_bounded(texts(protected@), universe);
        }
    }
    protected
}

proof fn lemma_push_facts(before: Seq<Seq<char>>, after: Seq<Seq<char>>, p: Seq<char>, added: bool)
    requires
        before.no_duplicates(),
        added == !before.contains(p),
        added ==> after == before.push(p),
        !added ==> after == before,
    ensures
        after.no_duplicates(),
        forall|x: Seq<char>| after.contains(x) <==> (before.contains(x) || x == p),
        after.len() >= before.len(),
        added ==> after.len() == before.len() + 1,
        forall|k: int| 0 <= k < before.len() ==> after[k] == before[k],
{
    if added {
        assert forall|a: int, b: int| 0 <= a < b < after.len() implies after[a] != after[b] by {
            if b == before.len() {
                assert(after[a] == before[a]);
            } else {
                assert(after[a] == before[a]);
                assert(after[b] == before[b]);
            }
        }
        assert forall|x: Seq<char>| after.contains(x) <==> (before.contains(x) || x == p) by {
            if after.contains(x) {
                let k = choose|k: int| 0 <= k < after.len() && after[k] == x;
                if k < before.len() {
                    assert(before[k] == x);
                }
            }
            if before.contains(x) {
                let k = choose|k: int| 0 <= k < before.len() && before[k] == x;
                assert(after[k] == x);
            }
            if x == p {
                assert(after[before.len() as int] == x);
            }
        }
    }
}

/// The indexed commits that a prune deletes: those not protected, in order.
pub fn obsolete_hashes(hashes: &[String], protected: &Vec<String>) -> (obsolete: Vec<String>)
    ensures
        texts(obsolete@) == texts(hashes@).filter(|h: Seq<char>| !texts(protected@).contains(h)),
{
    let ghost keep = |h: Seq<char>| !texts(protected@).contains(h);
    let mut obsolete: Vec<String> = Vec::new();
    let mut i: usize = 0;
    while i < hashes.len()
        invariant
            i <= hashes.len(),
            keep == |h: Seq<char>| !texts(protected@).contains(h),
            texts(obsolete@) == texts(hashes@).take(i as int).filter(keep),
        decreases hashes.len() - i,
    {
        proof {
            assert(texts(hashes@).take(i + 1) =~= texts(hashes@).take(i as int).push(hashes@[i as int]@));
            texts(hashes@).take(i as int).lemma_filter_push(hashes@[i as int]@, keep);
        }
        if !contains_path(protected, hashes[i].as_str()) {
            let ghost before = obsolete@;
            let h = hashes[i].clone();
            obsolete.push(h);
            assert(texts(obsolete@) =~= texts(before).push(h@));
        }
        i += 1;
    }
    assert(texts(hashes@).take(hashes.len() as int) =~= texts(hashes@));
    obsolete
}

/// `path` walks from a commit to an ancestor, each step from a commit to one of its parents.
pub open spec fn parent_walk(path: Seq<Seq<char>>, edges: Seq<(String, String)>) -> bool {
    forall|k: int|
        #![trigger path[k]]
        0 <= k < path.len() - 1 ==> is_parent_link(edges, path[k], path[k + 1])
}

/// Some link names `parent` as a parent of `commit`.
pub open spec fn is_parent_link(edges: Seq<(String, String)>, commit: Seq<char>, parent: Seq<char>) -> bool {
    exists|e: int| 0 <= e < edges.len() && edge_view(#[trigger] edges[e]) == (commit, parent)
}

/// A prune keeps every ancestor of a protected commit: a set closed under parent links that
/// holds the start of a walk to an ancestor holds every commit of the walk.
pub proof fn lemma_closure_keeps_ancestors(
    set: Seq<Seq<char>>,
    edges: Seq<(String, String)>,
    path: Seq<Seq<char>>,
)
    requires
        closed_under_parents(set, edges),
        parent_walk(path, edges),
        path.len() > 0,
        set.contains(path[0]),
    ensures
        forall|k: int| 0 <= k < path.len() ==> set.contains(#[trigger] path[k]),
    decreases path.len(),
{
    if path.len() > 1 {
        assert(is_parent_link(edges, path[0], path[1]));
        let e = choose|e: int| 0 <= e < edges.len() && edge_view(#[trigger] edges[e]) == (path[0], path[1]);
        assert(set.contains(edges[e].0@));
        let rest = path.drop_first();
        assert forall|k: int| 0 <= k < rest.len() - 1 implies is_parent_link(edges, #[trigger] rest[k], rest[k + 1]) by {
            assert(rest[k] == path[k + 1] && rest[k + 1] == path[k + 2]);
            assert(is_parent_link(edges, path[k + 1], path[k + 2]));
        }
        lemma_closure_keeps_ancestors(set, edges, rest);
        assert forall|k: int| 0 <= k < path.len() implies set.contains(#[trigger] path[k]) by {
            if k > 0 {
                assert(path[k] == rest[k - 1]);
            }
        }
    }
}

/// A prune keeps exactly the protected commits and their ancestors: a set that holds the
/// protected commits, is closed under parent links and holds only reached commits holds a
/// commit if and only if it is reached.
pub proof fn lemma_kept_exactly_reached(
    initial: Seq<String>,
    edges: Seq<(String, String)>,
    kept: Seq<Seq<char>>,
    x: Seq<char>,
)
    requires
        forall|k: int| 0 <= k < initial.len() ==> kept.contains(#[trigger] initial[k]@),
        closed_under_parents(kept, edges),
        forall|k: int| 0 <= k < kept.len() ==> reached(initial, edges, #[trigger] kept[k]),
    ensures
        kept.contains(x) <==> reached(initial, edges, x),
{
    if kept.contains(x) {
        let k = choose|k: int| 0 <= k < kept.len() && kept[k] == x;
        assert(reached(initial, edges, kept[k]));
    }
    if reached(initial, edges, x) {
        let path = choose|path: Seq<Seq<char>>|
            #[trigger] parent_walk(path, edges) && path.len() > 0 && texts(initial).contains(path[0])
                && path.last() == x;
        let i = choose|i: int| 0 <= i < texts(initial).len() && texts(initial)[i] == path[0];
        assert(kept.contains(initial[i]@));
        lemma_closure_keeps_ancestors(kept, edges, path);
        assert(kept.contains(path[path.len() - 1]));
    }
}

} // verus!
