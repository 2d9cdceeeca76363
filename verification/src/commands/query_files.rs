//! The file query's own logic: which final changes the indexed commits touched, renames the
//! index saw, and the listed form of a change.
use crate::attribution::patch_inference::texts;
use crate::contracts::OperationStage;
use crate::error::AppError;
use crate::execution::{AnalysisExecutionContext, OperationProgressUpdate};
use crate::index::queries::{
    any_candidate_matches, first_invalid_rule, glob_rules_spec, path_matches_globs, same_files, sets_build,
    sort_files_by_path, sorted_by_path, with_path,
};
use crate::git::diff::{
    closed_under_pairs, connected_paths, contains_path, path_seeds, rename_pairs,
    CommitFileChange, RenameChange,
};
use crate::json::{opt_text, ChangedFileOutput};
use crate::text::str_eq;
use vstd::prelude::*;

verus! {

/// A final change and a file touched by the range's commits name a common path.
pub open spec fn paths_overlap_spec(change: CommitFileChange, touched: ChangedFileOutput) -> bool {
    ||| change.path@ == touched.path@
    ||| (change.old_path matches Some(o) && o@ == touched.path@)
    ||| (touched.old_path matches Some(t) && (change.path@ == t@ || (change.old_path matches Some(o)
        && o@ == t@)))
}

/// Whether a final change and a touched file name a common path.
pub fn paths_overlap(change: &CommitFileChange, touched: &ChangedFileOutput) -> (r: bool)
    ensures
        r == paths_overlap_spec(*change, *touched),
{
    if str_eq(change.path.as_str(), touched.path.as_str()) {
        return true;
    }
    match &change.old_path {
        Some(o) => {
            if str_eq(o.as_str(), touched.path.as_str()) {
                return true;
            }
        },
        None => {},
    }
    match &touched.old_path {
        Some(t) => {
            if str_eq(change.path.as_str(), t.as_str()) {
                return true;
            }
            match &change.old_path {
                Some(o) => str_eq(o.as_str(), t.as_str()),
                None => false,
            }
        },
        None => false,
    }
}

/// The renames the index recorded: the old and new path of each renamed file with an old path.
pub open spec fn hint_pairs(hints: Seq<ChangedFileOutput>) -> Seq<(Seq<char>, Seq<char>)>
    decreases hints.len(),
{
    if hints.len() == 0 {
        Seq::empty()
    } else {
        let prev = hint_pairs(hints.drop_last());
        let h = hints.last();
        match h.old_path {
            Some(o) if h.status@ == "renamed"@ => prev.push((o@, h.path@)),
            _ => prev,
        }
    }
}

/// Two paths are connected by the recorded renames: every set of paths that holds `a` and is
/// closed under the renames holds `b`.
pub open spec fn renames_connect(hints: Seq<ChangedFileOutput>, a: Seq<char>, b: Seq<char>) -> bool {
    forall|c: Seq<Seq<char>>|
        closed_under_pairs(c, hint_pairs(hints)) && c.contains(a) ==> #[trigger] c.contains(b)
}

fn renames_from_hints(hints: &[ChangedFileOutput]) -> (renames: Vec<RenameChange>)
    ensures
        rename_pairs(renames@) == hint_pairs(hints@),
{
    let mut renames: Vec<RenameChange> = Vec::new();
    let mut i: usize = 0;
    while i < hints.len()
        invariant
            i <= hints.len(),
            rename_pairs(renames@) == hint_pairs(hints@.take(i as int)),
        decreases hints.len() - i,
    {
        assert(hints@.take(i + 1).drop_last() =~= hints@.take(i as int));
        assert(hints@.take(i + 1).last() == hints@[i as int]);
        let h = &hints[i];
        if str_eq(h.status.as_str(), "renamed") {
            match &h.old_path {
                Some(o) => {
                    let ghost before = renames@;
                    let r = RenameChange { old_path: o.clone(), new_path: h.path.clone() };
                    renames.push(r);
                    assert(rename_pairs(renames@) =~= rename_pairs(before).push((o@, h.path@)));
                },
                None => {},
            }
        }
        i += 1;
    }
    assert(hints@.take(hints.len() as int) =~= hints@);
    renames
}

/// Whether the recorded renames connect `old_path` to `new_path`.
pub fn rename_paths_connected(hints: &[ChangedFileOutput], old_path: &str, new_path: &str) -> (r: bool)
    ensures
        r == renames_connect(hints@, old_path@, new_path@),
{
    let renames = renames_from_hints(hints);
    let found = connected_paths(old_path, None, renames.as_slice());
    let r = contains_path(&found, new_path);
    proof {
        let f = texts(found@);
        let pairs = hint_pairs(hints@);
        let seeds = path_seeds(old_path@, None);
        assert(seeds[0] == old_path@);
        if r {
            let k = choose|k: int| 0 <= k < f.len() && f[k] == new_path@;
            assert forall|c: Seq<Seq<char>>|
                closed_under_pairs(c, pairs) && c.contains(old_path@) implies #[trigger] c.contains(
                new_path@,
            ) by {
                assert(forall|s: int| 0 <= s < seeds.len() ==> c.contains(#[trigger] seeds[s]));
                assert(c.contains(f[k]));
            }
        } else {
            assert(f[0] == old_path@);
            assert(f.contains(old_path@));
            assert(closed_under_pairs(f, pairs));
            assert(!f.contains(new_path@));
        }
    }
    r
}

/// The listed form of a final change: binary files are listed with the status `"binary"`.
pub open spec fn listed_change(change: CommitFileChange, f: ChangedFileOutput) -> bool {
    &&& f.path@ == change.path@
    &&& opt_text(f.old_path) == opt_text(change.old_path)
    &&& opt_text(f.old_blob_id) == opt_text(change.old_blob_id)
    &&& opt_text(f.new_blob_id) == opt_text(change.new_blob_id)
    &&& f.status@ == (if change.is_binary {
        "binary"@
    } else {
        change.status@
    })
    &&& f.additions == change.additions
    &&& f.deletions == change.deletions
    &&& f.is_binary == change.is_binary
    &&& f.is_previewable == change.is_previewable
}

/// A listed file's status tells a binary file from a text file: a binary file is listed with
/// the status `"binary"`, any other with the status its change has.
pub proof fn lemma_listed_status(change: CommitFileChange, f: ChangedFileOutput)
    requires
        listed_change(change, f),
    ensures
        f.is_binary == change.is_binary,
        change.is_binary ==> f.status@ == "binary"@,
        !change.is_binary ==> f.status@ == change.status@,
{
}

/// The listed form of a final change.
pub fn changed_file_from_change(change: CommitFileChange) -> (f: ChangedFileOutput)
    ensures
        listed_change(change, f),
        change.is_binary ==> f.status@ == "binary"@,
        !change.is_binary ==> f.status@ == change.status@,
{
    let status = if change.is_binary {
        String::from_str("binary")
    } else {
        change.status
    };
    ChangedFileOutput {
        path: change.path,
        old_path: change.old_path,
        old_blob_id: change.old_blob_id,
        new_blob_id: change.new_blob_id,
        status,
        additions: change.additions,
        deletions: change.deletions,
        is_binary: change.is_binary,
        is_previewable: change.is_previewable,
    }
}

/// The final changes that a file touched by the range's commits overlaps, in order.
pub open spec fn touched_changes_spec(
    changes: Seq<CommitFileChange>,
    touched: Seq<ChangedFileOutput>,
) -> Seq<int>
    decreases changes.len(),
{
    if changes.len() == 0 {
        Seq::empty()
    } else {
        let prev = touched_changes_spec(changes.drop_last(), touched);
        if exists|t: int| 0 <= t < touched.len() && paths_overlap_spec(changes.last(), #[trigger] touched[t]) {
            prev.push(changes.len() - 1)
        } else {
            prev
        }
    }
}

/// The positions of the final changes that some touched file overlaps.
pub fn touched_change_positions(changes: &[CommitFileChange], touched: &[ChangedFileOutput]) -> (pos:
    Vec<usize>)
    ensures
        pos@.map_values(|p: usize| p as int) == touched_changes_spec(changes@, touched@),
{
    let mut pos: Vec<usize> = Vec::new();
    let mut i: usize = 0;
    while i < changes.len()
        invariant
            i <= changes.len(),
            pos@.map_values(|p: usize| p as int) == touched_changes_spec(changes@.take(i as int), touched@),
        decreases changes.len() - i,
    {
        assert(changes@.take(i + 1).drop_last() =~= changes@.take(i as int));
        assert(changes@.take(i + 1).last() == changes@[i as int]);
        let mut hit = false;
        let mut t: usize = 0;
        while t < touched.len()
            invariant
                t <= touched.len(),
                i < changes.len(),
                hit == exists|k: int| 0 <= k < t && paths_overlap_spec(changes@[i as int], #[trigger] touched@[k]),
            decreases touched.len() - t,
        {
            if paths_overlap(&changes[i], &touched[t]) {
                hit = true;
            }
            t += 1;
        }
        if hit {
            let ghost before = pos@;
            pos.push(i);
            assert(pos@.map_values(|p: usize| p as int) =~= before.map_values(|p: usize| p as int).push(
                i as int,
            ));
        }
        i += 1;
    }
    assert(changes@.take(changes.len() as int) =~= changes@);
    pos
}

/// The first position below `n` that is not removed and holds a deletion that the recorded
/// renames connect to `added_path`.
pub open spec fn first_deleted_partner(
    changes: Seq<CommitFileChange>,
    removed: Seq<bool>,
    hints: Seq<ChangedFileOutput>,
    added_path: Seq<char>,
    n: int,
) -> Option<int>
    decreases n,
{
    if n <= 0 {
        None
    } else {
        match first_deleted_partner(changes, removed, hints, added_path, n - 1) {
            Some(d) => Some(d),
            None => if !removed[n - 1] && changes[n - 1].status@ == "deleted"@ && renames_connect(
                hints,
                changes[n - 1].path@,
                added_path,
            ) {
                Some(n - 1)
            } else {
                None
            },
        }
    }
}

/// The deletion an added change at `i` pairs with, if it is an addition and one is left.
pub open spec fn pick_at(
    changes: Seq<CommitFileChange>,
    removed: Seq<bool>,
    hints: Seq<ChangedFileOutput>,
    i: int,
) -> Option<int> {
    if changes[i].status@ == "added"@ {
        first_deleted_partner(changes, removed, hints, changes[i].path@, changes.len() as int)
    } else {
        None
    }
}

/// After the first `i` changes: which deletions were paired away, and each change's partner.
pub open spec fn coalesce_state(
    changes: Seq<CommitFileChange>,
    hints: Seq<ChangedFileOutput>,
    i: int,
) -> (Seq<bool>, Seq<Option<int>>)
    decreases i,
{
    if i <= 0 {
        (Seq::new(changes.len(), |k: int| false), Seq::empty())
    } else {
        let (r, p) = coalesce_state(changes, hints, i - 1);
        match pick_at(changes, r, hints, i - 1) {
            Some(d) => (r.update(d, true), p.push(Some(d))),
            None => (r, p.push(None)),
        }
    }
}

/// The positions of the changes that were not paired away, in order.
pub open spec fn kept_positions(removed: Seq<bool>) -> Seq<int>
    decreases removed.len(),
{
    if removed.len() == 0 {
        Seq::empty()
    } else if removed.last() {
        kept_positions(removed.drop_last())
    } else {
        kept_positions(removed.drop_last()).push(removed.len() - 1)
    }
}

/// `out` is the addition `added` turned into a rename of the deletion `deleted`.
pub open spec fn renamed_from(out: CommitFileChange, added: CommitFileChange, deleted: CommitFileChange) -> bool {
    &&& out == (CommitFileChange {
        status: out.status,
        old_path: out.old_path,
        old_blob_id: out.old_blob_id,
        ..added
    })
    &&& out.status@ == "renamed"@
    &&& opt_text(out.old_path) == Some(deleted.path@)
    &&& opt_text(out.old_blob_id) == opt_text(deleted.old_blob_id)
}

proof fn lemma_state_lengths(changes: Seq<CommitFileChange>, hints: Seq<ChangedFileOutput>, i: int)
    requires
        0 <= i <= changes.len(),
    ensures
        coalesce_state(changes, hints, i).0.len() == changes.len(),
        coalesce_state(changes, hints, i).1.len() == i,
        forall|k: int|
            0 <= k < i ==> ((#[trigger] coalesce_state(changes, hints, i).1[k]) matches Some(d) ==> 0 <= d
                < changes.len()),
    decreases i,
{
    if i > 0 {
        lemma_state_lengths(changes, hints, i - 1);
        let (r, p) = coalesce_state(changes, hints, i - 1);
        lemma_partner_in_range(changes, r, hints, changes[i - 1].path@, changes.len() as int);
        let (r2, p2) = coalesce_state(changes, hints, i);
        assert forall|k: int|
            0 <= k < i implies ((#[trigger] p2[k]) matches Some(d) ==> 0 <= d < changes.len()) by {
            if k < i - 1 {
                assert(p2[k] == p[k]);
            }
        }
    }
}

proof fn lemma_partner_in_range(
    changes: Seq<CommitFileChange>,
    removed: Seq<bool>,
    hints: Seq<ChangedFileOutput>,
    added_path: Seq<char>,
    n: int,
)
    requires
        0 <= n <= changes.len(),
    ensures
        first_deleted_partner(changes, removed, hints, added_path, n) matches Some(d) ==> 0 <= d < n,
    decreases n,
{
    if n > 0 {
        lemma_partner_in_range(changes, removed, hints, added_path, n - 1);
    }
}

/// `out` is `changes` with each rename the index recorded paired up: the changes that stay, in
/// order, each one the change itself or the rename made of it and the deletion it pairs with.
pub open spec fn coalesced_from(
    changes: Seq<CommitFileChange>,
    hints: Seq<ChangedFileOutput>,
    out: Seq<CommitFileChange>,
) -> bool {
    let (removed, picks) = coalesce_state(changes, hints, changes.len() as int);
    let kept = kept_positions(removed);
    &&& out.len() == kept.len()
    &&& forall|j: int|
        0 <= j < out.len() ==> match picks[kept[j]] {
            Some(d) => renamed_from(#[trigger] out[j], changes[kept[j]], changes[d]),
            None => out[j] == changes[kept[j]],
        }
}

/// Pairs each added final change with the first deletion left that the recorded renames
/// connect to it: the addition becomes a rename of it and the deletion leaves the list.
pub fn coalesce_indexed_renames(changes: Vec<CommitFileChange>, hints: &[ChangedFileOutput]) -> (out:
    Vec<CommitFileChange>)
    ensures
        coalesced_from(changes@, hints@, out@),
{
    let n = changes.len();
    let mut removed: Vec<bool> = Vec::new();
    let mut k: usize = 0;
    while k < n
        invariant
            k <= n,
            removed@ == Seq::new(k as nat, |x: int| false),
        decreases n - k,
    {
        removed.push(false);
        assert(removed@ =~= Seq::new((k + 1) as nat, |x: int| false));
        k += 1;
    }
    let mut picks: Vec<Option<usize>> = Vec::new();
    let mut partners: Vec<Option<(String, Option<String>)>> = Vec::new();
    let mut i: usize = 0;
    while i < n
        invariant
            n == changes@.len(),
            i <= n,
            removed@ == coalesce_state(changes@, hints@, i as int).0,
            picks@.len() == i,
            partners@.len() == i,
            forall|x: int|
                0 <= x < i ==> ((#[trigger] picks@[x]) matches Some(d) ==> coalesce_state(
                    changes@,
                    hints@,
                    i as int,
                ).1[x] == Some(d as int)) && (picks@[x] is None ==> coalesce_state(
                    changes@,
                    hints@,
                    i as int,
                ).1[x] is None),
            forall|x: int|
                0 <= x < i ==> match (#[trigger] picks@[x]) {
                    Some(d) => d < n && (partners@[x] matches Some(pd) && pd.0@ == changes@[d as int].path@
                        && opt_text(pd.1) == opt_text(changes@[d as int].old_blob_id)),
                    None => partners@[x] is None,
                },
        decreases n - i,
    {
        proof {
            lemma_state_lengths(changes@, hints@, i as int);
        }
        let ghost before = coalesce_state(changes@, hints@, i as int);
        let mut pick: Option<usize> = None;
        if str_eq(changes[i].status.as_str(), "added") {
            let mut d: usize = 0;
            while d < n
                invariant_except_break
                    pick is None,
                invariant
                    n == changes@.len(),
                    i < n,
                    d <= n,
                    removed@ == before.0,
                    removed@.len() == n,
                    changes@[i as int].status@ == "added"@,
                    first_deleted_partner(changes@, before.0, hints@, changes@[i as int].path@, d as int)
                        is None,
                ensures
                    pick matches Some(x) ==> first_deleted_partner(changes@, before.0, hints@, changes@[i as int].path@, n as int) == Some(x as int),
                    pick is None ==> first_deleted_partner(changes@, before.0, hints@, changes@[i as int].path@, n as int) is None,
                decreases n - d,
            {
                if !removed[d] && str_eq(changes[d].status.as_str(), "deleted")
                    && rename_paths_connected(hints, changes[d].path.as_str(), changes[i].path.as_str()) {
                    pick = Some(d);
                    proof {
                        lemma_partner_stable(changes@, before.0, hints@, changes@[i as int].path@, d + 1, n as int);
                    }
                    break;
                }
                d += 1;
            }
        }
        proof {
            lemma_state_lengths(changes@, hints@, i + 1);
            lemma_partner_in_range(changes@, before.0, hints@, changes@[i as int].path@, n as int);
        }
        match pick {
            Some(d) => {
                removed.set(d, true);
                let partner_path = changes[d].path.clone();
                let partner_blob = match &changes[d].old_blob_id {
                    Some(b) => Some(b.clone()),
                    None => None,
                };
                partners.push(Some((partner_path, partner_blob)));
            },
            None => {
                partners.push(None);
            },
        }
        picks.push(pick);
        proof {
            let after = coalesce_state(changes@, hints@, i + 1);
            assert(after.1 =~= before.1.push(
                match pick {
                    Some(d) => Some(d as int),
                    None => None,
                },
            ));
        }
        i += 1;
    }
    let ghost final_state = coalesce_state(changes@, hints@, n as int);
    proof {
        lemma_state_lengths(changes@, hints@, n as int);
    }
    let ghost original = changes@;
    let mut remaining = changes;
    let mut out: Vec<CommitFileChange> = Vec::new();
    let mut p = partners;
    let mut j: usize = 0;
    while j < n
        invariant
            n == original.len(),
            j <= n,
            remaining@ == original.skip(j as int),
            p@.len() == n - j,
            removed@ == final_state.0,
            removed@.len() == n,
            final_state == coalesce_state(original, hints@, n as int),
            picks@.len() == n,
            forall|x: int|
                j <= x < n ==> match (#[trigger] picks@[x]) {
                    Some(d) => d < n && (p@[x - j] matches Some(pd) && pd.0@ == original[d as int].path@
                        && opt_text(pd.1) == opt_text(original[d as int].old_blob_id)),
                    None => p@[x - j] is None,
                },
            forall|x: int|
                0 <= x < n ==> ((#[trigger] picks@[x]) matches Some(d) ==> final_state.1[x] == Some(d as int))
                    && (picks@[x] is None ==> final_state.1[x] is None),
            out@.len() == kept_positions(removed@.take(j as int)).len(),
            forall|q: int|
                0 <= q < out@.len() ==> match final_state.1[kept_positions(removed@.take(j as int))[q]] {
                    Some(d) => renamed_from(
                        #[trigger] out@[q],
                        original[kept_positions(removed@.take(j as int))[q]],
                        original[d],
                    ),
                    None => out@[q] == original[kept_positions(removed@.take(j as int))[q]],
                },
        decreases n - j,
    {
        let mut c = remaining.remove(0);
        assert(c == original[j as int]);
        let partner = p.remove(0);
        proof {
            lemma_state_lengths(original, hints@, n as int);
            assert(removed@.take(j + 1).drop_last() =~= removed@.take(j as int));
            assert(removed@.take(j + 1).last() == removed@[j as int]);
            lemma_kept_bound(removed@.take(j as int));
        }
        if !removed[j] {
            let ghost q = out@.len();
            let ghost pk = picks@[j as int];
            assert(match pk {
                Some(d) => d < n && (partner matches Some(pd) && pd.0@ == original[d as int].path@
                    && opt_text(pd.1) == opt_text(original[d as int].old_blob_id)),
                None => partner is None,
            });
            assert(pk matches Some(d) ==> final_state.1[j as int] == Some(d as int));
            assert(pk is None ==> final_state.1[j as int] is None);
            match partner {
                Some((path, blob)) => {
                    c.status = String::from_str("renamed");
                    c.old_path = Some(path);
                    c.old_blob_id = blob;
                },
                None => {},
            }
            out.push(c);
            proof {
                assert(kept_positions(removed@.take(j + 1)) == kept_positions(removed@.take(j as int)).push(
                    j as int,
                ));
                assert forall|q2: int|
                    0 <= q2 < out@.len() implies match final_state.1[kept_positions(removed@.take(j + 1))[q2]] {
                    Some(d) => renamed_from(
                        #[trigger] out@[q2],
                        original[kept_positions(removed@.take(j + 1))[q2]],
                        original[d],
                    ),
                    None => out@[q2] == original[kept_positions(removed@.take(j + 1))[q2]],
                } by {
                    if q2 < q {
                        assert(kept_positions(removed@.take(j + 1))[q2] == kept_positions(
                            removed@.take(j as int),
                        )[q2]);
                    } else {
                        assert(kept_positions(removed@.take(j + 1))[q2] == j);
                        assert(out@[q2] == out@[q as int]);
                    }
                }
            }
        }
        j += 1;
    }
    assert(removed@.take(n as int) =~= removed@);
    out
}

proof fn lemma_kept_bound(removed: Seq<bool>)
    ensures
        forall|q: int| 0 <= q < kept_positions(removed).len() ==> 0 <= #[trigger] kept_positions(removed)[q] < removed.len(),
    decreases removed.len(),
{
    if removed.len() > 0 {
        lemma_kept_bound(removed.drop_last());
        let prev = kept_positions(removed.drop_last());
        assert forall|q: int| 0 <= q < kept_positions(removed).len() implies 0
            <= #[trigger] kept_positions(removed)[q] < removed.len() by {
            if q < prev.len() {
                assert(kept_positions(removed)[q] == prev[q]);
            }
        }
    }
}

proof fn lemma_partner_stable(
    changes: Seq<CommitFileChange>,
    removed: Seq<bool>,
    hints: Seq<ChangedFileOutput>,
    added_path: Seq<char>,
    m: int,
    n: int,
)
    requires
        1 <= m <= n,
        first_deleted_partner(changes, removed, hints, added_path, m) is Some,
    ensures
        first_deleted_partner(changes, removed, hints, added_path, n) == first_deleted_partner(
            changes,
            removed,
            hints,
            added_path,
            m,
        ),
    decreases n - m,
{
    if m < n {
        lemma_partner_stable(changes, removed, hints, added_path, m, n - 1);
    }
}

fn holds_position(positions: &Vec<usize>, index: usize) -> (r: bool)
    ensures
        r == positions@.contains(index),
{
    let mut i: usize = 0;
    while i < positions.len()
        invariant
            i <= positions@.len(),
            forall|k: int| 0 <= k < i ==> positions@[k] != index,
        decreases positions.len() - i,
    {
        if positions[i] == index {
            assert(positions@[i as int] == index);
            return true;
        }
        i += 1;
    }
    false
}

/// Some file touched by the range's commits overlaps the change.
pub open spec fn overlapped(c: CommitFileChange, touched: Seq<ChangedFileOutput>) -> bool {
    exists|t: int| 0 <= t < touched.len() && paths_overlap_spec(c, #[trigger] touched[t])
}

/// `b` is the glob rules' verdict on a change, wherever the outside glob sets answer for its
/// paths.
pub open spec fn glob_verdict(rules: Seq<Seq<char>>, c: CommitFileChange, b: bool) -> bool {
    let (inc, exc) = glob_rules_spec(rules);
    let old = opt_text(c.old_path);
    sets_build(inc, c.path@, old) && sets_build(exc, c.path@, old) ==> b == ((inc.len() == 0
        || any_candidate_matches(inc, c.path@, old)) && !(exc.len() > 0 && any_candidate_matches(
        exc,
        c.path@,
        old,
    )))
}

/// `keep` marks the changes that are listed: only changes some touched file overlaps, each of
/// those as the glob rules decide.
pub open spec fn selection(
    changes: Seq<CommitFileChange>,
    touched: Seq<ChangedFileOutput>,
    rules: Seq<Seq<char>>,
    keep: Seq<bool>,
) -> bool {
    &&& keep.len() == changes.len()
    &&& forall|i: int|
        0 <= i < changes.len() ==> (#[trigger] keep[i] ==> overlapped(changes[i], touched)) && (overlapped(
            changes[i],
            touched,
        ) ==> glob_verdict(rules, changes[i], keep[i]))
}

/// The changes that `keep` marks, in order.
pub open spec fn picked(xs: Seq<CommitFileChange>, keep: Seq<bool>) -> Seq<CommitFileChange>
    decreases xs.len(),
{
    if xs.len() == 0 {
        Seq::empty()
    } else {
        let prev = picked(xs.drop_last(), keep.take(xs.len() - 1));
        if keep[xs.len() - 1] {
            prev.push(xs.last())
        } else {
            prev
        }
    }
}

/// The glob rules are valid and the outside glob sets answer for every path.
pub open spec fn glob_rules_answer(rules: Seq<Seq<char>>) -> bool {
    let (inc, exc) = glob_rules_spec(rules);
    &&& first_invalid_rule(rules) is None
    &&& forall|p: Seq<char>, o: Option<Seq<char>>| #[trigger] sets_build(inc, p, o) && sets_build(exc, p, o)
}

/// Every call of `populate` succeeds.
pub open spec fn populates_fully<FS: Fn(CommitFileChange) -> Result<CommitFileChange, AppError>>(populate: FS) -> bool {
    forall|c: CommitFileChange, res: Result<CommitFileChange, AppError>|
        #[trigger] populate.ensures((c,), res) ==> res is Ok
}

/// `pops` holds, one for each of `chosen` and in order, what `populate` may give back for it.
pub open spec fn populated<FS: Fn(CommitFileChange) -> Result<CommitFileChange, AppError>>(
    populate: FS,
    chosen: Seq<CommitFileChange>,
    pops: Seq<CommitFileChange>,
) -> bool {
    &&& pops.len() == chosen.len()
    &&& forall|k: int|
        0 <= k < pops.len() ==> populate.ensures(
            (chosen[k],),
            Ok::<CommitFileChange, AppError>(#[trigger] pops[k]),
        )
}

/// `listed` is the listed form of each of `changes`, in order.
pub open spec fn listed_all(changes: Seq<CommitFileChange>, listed: Seq<ChangedFileOutput>) -> bool {
    &&& listed.len() == changes.len()
    &&& forall|k: int| 0 <= k < listed.len() ==> listed_change(changes[k], #[trigger] listed[k])
}

/// `files` lists, ordered by path and otherwise in order, what `populate` gave for each final
/// change of the range that stays once renames are paired up, that a touched file overlaps
/// and that the glob rules pass.
pub open spec fn range_files_result<FS: Fn(CommitFileChange) -> Result<CommitFileChange, AppError>>(
    populate: FS,
    final_changes: Seq<CommitFileChange>,
    touched: Seq<ChangedFileOutput>,
    rules: Seq<Seq<char>>,
    files: Seq<ChangedFileOutput>,
) -> bool {
    exists|
        changes: Seq<CommitFileChange>,
        keep: Seq<bool>,
        pops: Seq<CommitFileChange>,
        listed: Seq<ChangedFileOutput>,
    |
        #![trigger coalesced_from(final_changes, touched, changes), selection(changes, touched, rules, keep), populated(populate, picked(changes, keep), pops), listed_all(pops, listed)]
        {
            &&& coalesced_from(final_changes, touched, changes)
            &&& selection(changes, touched, rules, keep)
            &&& populated(populate, picked(changes, keep), pops)
            &&& listed_all(pops, listed)
            &&& same_files(files, listed)
            &&& forall|p: Seq<char>| #[trigger] with_path(files, p) == with_path(listed, p)
        }
}

proof fn lemma_touched_positions(changes: Seq<CommitFileChange>, touched: Seq<ChangedFileOutput>)
    ensures
        forall|x: int|
            #[trigger] touched_changes_spec(changes, touched).contains(x) <==> (0 <= x < changes.len()
                && overlapped(changes[x], touched)),
    decreases changes.len(),
{
    if changes.len() > 0 {
        let prev = changes.drop_last();
        lemma_touched_positions(prev, touched);
        let n = changes.len() - 1;
        assert forall|x: int|
            #[trigger] touched_changes_spec(changes, touched).contains(x) <==> (0 <= x < changes.len()
                && overlapped(changes[x], touched)) by {
            let ps = touched_changes_spec(prev, touched);
            if overlapped(changes[n], touched) {
                assert(touched_changes_spec(changes, touched) == ps.push(n));
                if touched_changes_spec(changes, touched).contains(x) {
                    let q = choose|q: int| 0 <= q < ps.push(n).len() && ps.push(n)[q] == x;
                    if q < ps.len() {
                        assert(ps.contains(x));
                        assert(changes[x] == prev[x]);
                    }
                }
                if 0 <= x < changes.len() && overlapped(changes[x], touched) {
                    if x < n {
                        assert(prev[x] == changes[x]);
                        assert(ps.contains(x));
                        let q = choose|q: int| 0 <= q < ps.len() && ps[q] == x;
                        assert(ps.push(n)[q] == x);
                    } else {
                        assert(ps.push(n)[ps.len() as int] == x);
                    }
                }
            } else {
                assert(touched_changes_spec(changes, touched) == ps);
                if ps.contains(x) {
                    assert(changes[x] == prev[x]);
                }
                if 0 <= x < changes.len() && overlapped(changes[x], touched) && x < n {
                    assert(prev[x] == changes[x]);
                }
            }
        }
    }
}

/// The files of a range's final changes that the filtered commits touched: renames the index
/// recorded are paired up, the changes some touched file overlaps and the glob rules pass are
/// kept in order, each gets its final statistics from `populate`, and the list comes out
/// ordered by path. Cancellation is checked before each change, progress is reported, and
/// the first failure is returned as it is.
pub fn files_for_range_changes<FS>(
    final_changes: Vec<CommitFileChange>,
    touched_files: &[ChangedFileOutput],
    globs: &[String],
    context: &AnalysisExecutionContext,
    populate: FS,
) -> (r: Result<Vec<ChangedFileOutput>, AppError>)
    where
        FS: Fn(CommitFileChange) -> Result<CommitFileChange, AppError>,
    requires
        forall|c: CommitFileChange| #[trigger] populate.requires((c,)),
    ensures
        r matches Ok(files) ==> sorted_by_path(files@),
        r matches Ok(files) ==> range_files_result(populate, final_changes@, touched_files@, texts(globs@), files@),
        touched_files@.len() == 0 ==> (r matches Ok(files) ==> files@.len() == 0),
        !context.can_cancel() && populates_fully(populate) && glob_rules_answer(texts(globs@)) ==> r is Ok,
{
    let ghost finals = final_changes@;
    let changes = coalesce_indexed_renames(final_changes, touched_files);
    let positions = touched_change_positions(changes.as_slice(), touched_files);
    let ghost all = changes@;
    proof {
        if touched_files@.len() == 0 {
            lemma_no_touched_no_positions(changes@, touched_files@);
        }
        lemma_touched_positions(all, touched_files@);
    }
    let change_count = changes.len();
    let ghost n = changes@.len();
    assert(n == change_count);
    let mut remaining = changes;
    let mut selected: Vec<CommitFileChange> = Vec::new();
    let ghost mut keep: Seq<bool> = Seq::empty();
    let mut index: usize = 0;
    while remaining.len() > 0
        invariant
            index + remaining@.len() == n,
            n == all.len(),
            n <= usize::MAX,
            remaining@ == all.skip(index as int),
            positions@.map_values(|p: usize| p as int) == touched_changes_spec(all, touched_files@),
            forall|x: int|
                #[trigger] touched_changes_spec(all, touched_files@).contains(x) <==> (0 <= x < all.len()
                    && overlapped(all[x], touched_files@)),
            selected@.len() <= index,
            positions@.len() == 0 ==> selected@.len() == 0,
            keep.len() == index,
            selected@ == picked(all.take(index as int), keep),
            forall|i: int|
                0 <= i < index ==> (#[trigger] keep[i] ==> overlapped(all[i], touched_files@)) && (
                overlapped(all[i], touched_files@) ==> glob_verdict(texts(globs@), all[i], keep[i])),
        decreases remaining@.len(),
    {
        match context.check_cancelled() {
            Ok(()) => {},
            Err(e) => {
                return Err(e);
            },
        }
        let change = remaining.remove(0);
        assert(change == all[index as int]);
        assert(all.take(index + 1).drop_last() =~= all.take(index as int));
        assert(all.take(index + 1).last() == all[index as int]);
        let ghost pre_selected = selected@;
        let ghost mut verdict = false;
        let held = holds_position(&positions, index);
        proof {
            let pm = positions@.map_values(|p: usize| p as int);
            assert(pm.contains(index as int) <==> positions@.contains(index)) by {
                if positions@.contains(index) {
                    let q = choose|q: int| 0 <= q < positions@.len() && positions@[q] == index;
                    assert(pm[q] == index as int);
                }
                if pm.contains(index as int) {
                    let q = choose|q: int| 0 <= q < pm.len() && pm[q] == index as int;
                    assert(positions@[q] == index);
                }
            }
            assert(held == overlapped(all[index as int], touched_files@));
        }
        if held {
            let passes = match path_matches_globs(
                globs,
                change.path.as_str(),
                match &change.old_path {
                    Some(o) => Some(o.as_str()),
                    None => None,
                },
            ) {
                Ok(b) => b,
                Err(e) => {
                    return Err(e);
                },
            };
            proof {
                verdict = passes;
                assert(glob_verdict(texts(globs@), change, passes));
            }
            if passes {
                selected.push(change);
            }
        }
        proof {
            let pre_keep = keep;
            keep = keep.push(verdict);
            assert(keep.take(index as int) =~= pre_keep);
            assert(selected@ == picked(all.take(index + 1), keep));
            assert forall|i: int|
                0 <= i < index + 1 implies (#[trigger] keep[i] ==> overlapped(all[i], touched_files@)) && (
                overlapped(all[i], touched_files@) ==> glob_verdict(texts(globs@), all[i], keep[i])) by {
                if i < index {
                    assert(keep[i] == pre_keep[i]);
                }
            }
        }
        index += 1;
    }
    assert(all.take(n as int) =~= all);
    let ghost chosen = selected@;
    let selected_count = selected.len();
    let total = selected_count as u64;
    context.report_progress(
        OperationProgressUpdate {
            stage: OperationStage::ComputeFileStatistics,
            message: String::from_str("计算最终文件行数"),
            completed_units: Some(0),
            total_units: Some(total),
        },
    );
    let ghost m = selected@.len();
    let ghost mut pops: Seq<CommitFileChange> = Seq::empty();
    let mut files: Vec<ChangedFileOutput> = Vec::new();
    let mut done: usize = 0;
    while selected.len() > 0
        invariant
            forall|c: CommitFileChange| #[trigger] populate.requires((c,)),
            done + selected@.len() == m,
            m == chosen.len(),
            m == selected_count,
            selected@ == chosen.skip(done as int),
            files@.len() == done,
            pops.len() == done,
            total == m,
            forall|k: int|
                0 <= k < done ==> populate.ensures(
                    (chosen[k],),
                    Ok::<CommitFileChange, AppError>(#[trigger] pops[k]),
                ),
            forall|k: int| 0 <= k < done ==> listed_change(pops[k], #[trigger] files@[k]),
        decreases selected@.len(),
    {
        match context.check_cancelled() {
            Ok(()) => {},
            Err(e) => {
                return Err(e);
            },
        }
        let change = selected.remove(0);
        assert(change == chosen[done as int]);
        let change = match populate(change) {
            Ok(c) => c,
            Err(e) => {
                return Err(e);
            },
        };
        proof {
            pops = pops.push(change);
        }
        let mut message = String::from_str("计算文件统计：");
        message.append(change.path.as_str());
        context.report_progress(
            OperationProgressUpdate {
                stage: OperationStage::ComputeFileStatistics,
                message,
                completed_units: Some(done as u64 + 1),
                total_units: Some(total),
            },
        );
        files.push(changed_file_from_change(change));
        done += 1;
    }
    let ghost unsorted = files@;
    let sorted = sort_files_by_path(files);
    proof {
        vstd::seq_lib::to_multiset_len(sorted@);
        vstd::seq_lib::to_multiset_len(unsorted);
        assert(selection(all, touched_files@, texts(globs@), keep));
        assert(coalesced_from(finals, touched_files@, all));
        assert(same_files(sorted@, unsorted));
        assert(populated(populate, picked(all, keep), pops));
        assert(listed_all(pops, unsorted));
        assert(range_files_result(populate, finals, touched_files@, texts(globs@), sorted@));
    }
    Ok(sorted)
}

proof fn lemma_no_touched_no_positions(changes: Seq<CommitFileChange>, touched: Seq<ChangedFileOutput>)
    requires
        touched.len() == 0,
    ensures
        touched_changes_spec(changes, touched).len() == 0,
    decreases changes.len(),
{
    if changes.len() > 0 {
        lemma_no_touched_no_positions(changes.drop_last(), touched);
    }
}

} // verus!
