//! The paths a file had over a range, as renames connect them.
use crate::attribution::patch_inference::texts;
use crate::error::AppError;
use crate::git::diff::{
    closed_under_pairs, closed_under_renames, connected_paths, forced_by, path_seeds, rename_pairs,
    RenameChange,
};
use vstd::prelude::*;

verus! {

/// The paths a file may have had, and what the search for them noted.
#[derive(Debug)]
pub struct PathCandidates {
    pub paths: Vec<String>,
    pub warnings: Vec<String>,
}

/// The paths connected to `path` (and `old_path`) by the renames between two commits: exactly
/// the paths that every rename-closed set holding `path` and `old_path` holds, `path` first.
pub fn path_candidates_from_renames(path: &str, old_path: Option<&str>, renames: &[RenameChange]) -> (c:
    PathCandidates)
    ensures
        c.paths@.len() >= 1,
        c.paths@[0]@ == path@,
        texts(c.paths@).no_duplicates(),
        closed_under_renames(texts(c.paths@), renames@),
        forced_by(
            texts(c.paths@),
            path_seeds(
                path@,
                match old_path {
                    Some(o) => Some(o@),
                    None => None,
                },
            ),
            rename_pairs(renames@),
        ),
        old_path matches Some(o) ==> texts(c.paths@).contains(o@),
        c.warnings@.len() == 0,
{
    PathCandidates { paths: connected_paths(path, old_path, renames), warnings: Vec::new() }
}

/// The rename search finds exactly the connected paths: a path is found if and only if every
/// set of paths that holds the seeds and is closed under the renames holds it.
pub proof fn lemma_found_paths_are_the_connected_ones(
    found: Seq<Seq<char>>,
    seeds: Seq<Seq<char>>,
    pairs: Seq<(Seq<char>, Seq<char>)>,
    x: Seq<char>,
)
    requires
        closed_under_pairs(found, pairs),
        forced_by(found, seeds, pairs),
        forall|s: int| 0 <= s < seeds.len() ==> found.contains(#[trigger] seeds[s]),
    ensures
        found.contains(x) <==> forall|c: Seq<Seq<char>>|
            closed_under_pairs(c, pairs) && (forall|s: int|
                0 <= s < seeds.len() ==> c.contains(#[trigger] seeds[s])) ==> #[trigger] c.contains(
                x,
            ),
{
    if found.contains(x) {
        let k = choose|k: int| 0 <= k < found.len() && found[k] == x;
        assert forall|c: Seq<Seq<char>>|
            closed_under_pairs(c, pairs) && (forall|s: int|
                0 <= s < seeds.len() ==> c.contains(#[trigger] seeds[s])) implies #[trigger] c.contains(
            x,
        ) by {
            assert(c.contains(found[k]));
        }
    }
}

/// The view of an optional path.
pub open spec fn opt_path(p: Option<&str>) -> Option<Seq<char>> {
    match p {
        Some(o) => Some(o@),
        None => None,
    }
}

/// `c` holds the paths that `renames` connect to `path` and `old_path`, `path` first, each once.
pub open spec fn candidates_for_renames(
    c: PathCandidates,
    path: Seq<char>,
    old_path: Option<Seq<char>>,
    renames: Seq<RenameChange>,
) -> bool {
    &&& c.paths@.len() >= 1
    &&& c.paths@[0]@ == path
    &&& texts(c.paths@).no_duplicates()
    &&& closed_under_renames(texts(c.paths@), renames)
    &&& forced_by(texts(c.paths@), path_seeds(path, old_path), rename_pairs(renames))
    &&& c.warnings@.len() == 0
}

/// `c` holds the paths that the renames `rename_changes` may give for `base` to `head` connect
/// to `path` and `old_path`.
pub open spec fn found_through_renames<FR: Fn(&str, &str) -> Result<Vec<RenameChange>, AppError>>(
    rename_changes: FR,
    base: &str,
    head: &str,
    c: PathCandidates,
    path: Seq<char>,
    old_path: Option<Seq<char>>,
) -> bool {
    exists|renames: Vec<RenameChange>|
        #[trigger] rename_changes.ensures((base, head), Ok::<Vec<RenameChange>, AppError>(renames))
            && candidates_for_renames(c, path, old_path, renames@)
}

/// The paths a file had over the range from `base` to `head`: `path` and `old_path` with every
/// path the renames between the two commits (read with `rename_changes`) connect to them.
pub fn path_candidates<FR>(
    rename_changes: FR,
    base: &str,
    head: &str,
    path: &str,
    old_path: Option<&str>,
) -> (r: Result<PathCandidates, AppError>)
    where
        FR: Fn(&str, &str) -> Result<Vec<RenameChange>, AppError>,
    requires
        forall|b: &str, h: &str| #[trigger] rename_changes.requires((b, h)),
    ensures
        r matches Ok(c) ==> found_through_renames(rename_changes, base, head, c, path@, opt_path(old_path)),
        (forall|b: &str, h: &str, res: Result<Vec<RenameChange>, AppError>|
            #[trigger] rename_changes.ensures((b, h), res) ==> res is Ok) ==> r is Ok,
        r is Err ==> exists|e: AppError| #[trigger] rename_changes.ensures(
            (base, head),
            Err::<Vec<RenameChange>, AppError>(e),
        ) && r == Err::<PathCandidates, AppError>(e),
{
    let renames = match rename_changes(base, head) {
        Ok(r) => r,
        Err(e) => {
            return Err(e);
        },
    };
    let c = path_candidates_from_renames(path, old_path, renames.as_slice());
    assert(candidates_for_renames(c, path@, opt_path(old_path), renames@));
    assert(found_through_renames(rename_changes, base, head, c, path@, opt_path(old_path)));
    Ok(c)
}

/// The paths a file at `path` in `child` may have had in its parent `parent`.
pub fn parent_path_candidates<FR>(rename_changes: FR, parent: &str, child: &str, path: &str) -> (r: Result<
    PathCandidates,
    AppError,
>)
    where
        FR: Fn(&str, &str) -> Result<Vec<RenameChange>, AppError>,
    requires
        forall|b: &str, h: &str| #[trigger] rename_changes.requires((b, h)),
    ensures
        r matches Ok(c) ==> found_through_renames(rename_changes, parent, child, c, path@, None),
        r matches Ok(c) ==> c.paths@.len() >= 1 && c.paths@[0]@ == path@ && texts(c.paths@).no_duplicates(),
        (forall|b: &str, h: &str, res: Result<Vec<RenameChange>, AppError>|
            #[trigger] rename_changes.ensures((b, h), res) ==> res is Ok) ==> r is Ok,
        r is Err ==> exists|e: AppError| #[trigger] rename_changes.ensures(
            (parent, child),
            Err::<Vec<RenameChange>, AppError>(e),
        ) && r == Err::<PathCandidates, AppError>(e),
{
    path_candidates(rename_changes, parent, child, path, None)
}

} // verus!
