//! Attribution of a deleted block to the single commit whose own diff deleted those lines.
use crate::attribution::blame::{attribution_is, looked_up, precise_attribution, precise_confidence};
use crate::attribution::merge_trace::{line_window, line_window_spec};
use crate::attribution::patch_inference::{
    authors_from_related_commits, author_view, authors_spec, related_from_commit, texts,
    touched_range_from_block, touched_range_spec,
};
use crate::attribution::patch_inference::{
    advance_active_paths, change_touches_active_path, new_change_path, old_change_path,
    advance_spec, old_change_path_spec, change_read, changes_read_fully, commit_of_range,
    commits_read_fully, opt_str, texts_read_fully, FilterMatcher,
};
use crate::error::AppError;
use crate::git::commits::IndexedCommit;
use crate::git::diff::{contains_path, push_unique_path, CommitFileChange};
use crate::overlay::diff_builder::{build_overlay_diff, overlay_of_texts, BuiltOverlayDiff};
use crate::json::{
    AuthorOutput, DiffBlockOutput, RelatedCommitAttributionOutput, RelatedCommitOutput,
    SideBySideDiffRowOutput, TouchedRangeOutput,
};
use crate::text::{lines_view, str_eq};
use vstd::prelude::*;

verus! {

/// Whether some row of `rows` has an old line.
pub open spec fn has_old_line(rows: Seq<SideBySideDiffRowOutput>) -> bool {
    exists|k: int| 0 <= k < rows.len() && (#[trigger] rows[k]).old_line_number is Some
}

/// A block removes old lines: it has an old line and is not an addition.
pub open spec fn has_old_side_deletion_spec(b: DiffBlockOutput) -> bool {
    has_old_line(b.rows@) && b.change_type@ != "added"@
}

/// Whether a block removes old lines.
pub fn has_old_side_deletion(block: &DiffBlockOutput) -> (r: bool)
    ensures
        r == has_old_side_deletion_spec(*block),
{
    let mut found = false;
    let mut i: usize = 0;
    while i < block.rows.len()
        invariant
            i <= block.rows.len(),
            found == exists|k: int| 0 <= k < i && (#[trigger] block.rows@[k]).old_line_number is Some,
        decreases block.rows.len() - i,
    {
        if block.rows[i].old_line_number.is_some() {
            found = true;
        }
        i += 1;
    }
    found && !str_eq(block.change_type.as_str(), "added")
}

/// The old (`old == true`) or new texts of the rows that have a line on that side and a text.
pub open spec fn side_texts(rows: Seq<SideBySideDiffRowOutput>, old: bool) -> Seq<Seq<char>>
    decreases rows.len(),
{
    if rows.len() == 0 {
        Seq::empty()
    } else {
        let prev = side_texts(rows.drop_last(), old);
        let r = rows.last();
        let (number, text) = if old {
            (r.old_line_number, r.old_text)
        } else {
            (r.new_line_number, r.new_text)
        };
        match (number, text) {
            (Some(_), Some(t)) => prev.push(t@),
            _ => prev,
        }
    }
}

/// The texts of one side of a block's rows.
pub fn side_lines(block: &DiffBlockOutput, old: bool) -> (lines: Vec<String>)
    ensures
        lines_view(lines@) == side_texts(block.rows@, old),
{
    let mut lines: Vec<String> = Vec::new();
    let mut i: usize = 0;
    while i < block.rows.len()
        invariant
            i <= block.rows.len(),
            lines_view(lines@) == side_texts(block.rows@.take(i as int), old),
        decreases block.rows.len() - i,
    {
        assert(block.rows@.take(i + 1).drop_last() =~= block.rows@.take(i as int));
        assert(block.rows@.take(i + 1).last() == block.rows@[i as int]);
        let row = &block.rows[i];
        let (number, text) = if old {
            (row.old_line_number, &row.old_text)
        } else {
            (row.new_line_number, &row.new_text)
        };
        match (number, text) {
            (Some(_), Some(t)) => {
                let ghost before = lines@;
                let copy = t.clone();
                lines.push(copy);
                assert(lines_view(lines@) =~= lines_view(before).push(copy@));
            },
            _ => {},
        }
        i += 1;
    }
    assert(block.rows@.take(block.rows.len() as int) =~= block.rows@);
    lines
}

/// The lines a block deletes.
pub fn deleted_old_lines(block: &DiffBlockOutput) -> (lines: Vec<String>)
    ensures
        lines_view(lines@) == side_texts(block.rows@, true),
{
    side_lines(block, true)
}

/// The lines a block adds.
pub fn new_side_lines(block: &DiffBlockOutput) -> (lines: Vec<String>)
    ensures
        lines_view(lines@) == side_texts(block.rows@, false),
{
    side_lines(block, false)
}

fn lines_equal(a: &Vec<String>, b: &Vec<String>) -> (r: bool)
    ensures
        r == (lines_view(a@) == lines_view(b@)),
{
    if a.len() != b.len() {
        assert(lines_view(a@).len() != lines_view(b@).len());
        return false;
    }
    let mut k: usize = 0;
    while k < a.len()
        invariant
            k <= a.len(),
            a@.len() == b@.len(),
            forall|j: int| 0 <= j < k ==> a@[j]@ == b@[j]@,
        decreases a.len() - k,
    {
        if !str_eq(a[k].as_str(), b[k].as_str()) {
            assert(lines_view(a@)[k as int] != lines_view(b@)[k as int]);
            return false;
        }
        k += 1;
    }
    assert(lines_view(a@) =~= lines_view(b@));
    true
}

/// Whether the one-based lines `start_line..=end_line` of `text` are exactly `expected`.
pub fn line_window_matches(text: &str, start_line: usize, end_line: usize, expected_lines: &Vec<String>) -> (r:
    bool)
    ensures
        r == (line_window_spec(text@, start_line as int, end_line as int) == Some(
            lines_view(expected_lines@),
        )),
{
    match line_window(text, start_line, end_line) {
        Some(window) => lines_equal(&window, expected_lines),
        None => false,
    }
}

/// Two non-empty ranges overlap.
pub open spec fn both_ranges_intersect(ls: usize, le: usize, rs: usize, re: usize) -> bool {
    ls > 0 && le > 0 && rs > 0 && re > 0 && ls <= re && rs <= le
}

/// Two blocks overlap on their old or their new side.
pub open spec fn blocks_intersect(l: DiffBlockOutput, r: DiffBlockOutput) -> bool {
    both_ranges_intersect(l.old_start, l.old_end, r.old_start, r.old_end) || both_ranges_intersect(
        l.new_start,
        l.new_end,
        r.new_start,
        r.new_end,
    )
}

/// Whether two blocks overlap.
pub fn block_ranges_intersect(left: &DiffBlockOutput, right: &DiffBlockOutput) -> (r: bool)
    ensures
        r == blocks_intersect(*left, *right),
{
    (left.old_start > 0 && left.old_end > 0 && right.old_start > 0 && right.old_end > 0
        && left.old_start <= right.old_end && right.old_start <= left.old_end) || (left.new_start > 0
        && left.new_end > 0 && right.new_start > 0 && right.new_end > 0 && left.new_start
        <= right.new_end && right.new_start <= left.new_end)
}

/// A commit's block stands for a block of the review diff: it overlaps it, or its old lines
/// are the same range when the review block's deleted lines are where they were; and a
/// modification must add the same lines.
pub open spec fn anchors_spec(overlay: DiffBlockOutput, commit_block: DiffBlockOutput, window_matches: bool) -> bool {
    let anchored = blocks_intersect(overlay, commit_block) || (window_matches && overlay.old_start
        == commit_block.old_start && overlay.old_end == commit_block.old_end);
    anchored && (overlay.change_type@ == "modified"@ ==> side_texts(overlay.rows@, false)
        == side_texts(commit_block.rows@, false))
}

/// Whether a commit's block stands for a block of the review diff.
pub fn commit_block_anchors_overlay_block(
    overlay_block: &DiffBlockOutput,
    commit_block: &DiffBlockOutput,
    overlay_window_matches: bool,
) -> (r: bool)
    ensures
        r == anchors_spec(*overlay_block, *commit_block, overlay_window_matches),
{
    let anchored = block_ranges_intersect(overlay_block, commit_block) || (overlay_window_matches
        && overlay_block.old_start == commit_block.old_start && overlay_block.old_end
        == commit_block.old_end);
    if !anchored {
        return false;
    }
    if str_eq(overlay_block.change_type.as_str(), "modified") {
        let a = new_side_lines(overlay_block);
        let b = new_side_lines(commit_block);
        return lines_equal(&a, &b);
    }
    true
}

/// A commit block counts for a deleted review block: it deletes the same lines and anchors it.
pub open spec fn deletion_block_counts(
    overlay: DiffBlockOutput,
    commit_block: DiffBlockOutput,
    deleted: Seq<Seq<char>>,
    window_matches: bool,
) -> bool {
    has_old_side_deletion_spec(commit_block) && side_texts(commit_block.rows@, true) == deleted
        && anchors_spec(overlay, commit_block, window_matches)
}

/// The touched ranges of the commit blocks that count for a deleted review block, in order.
pub open spec fn deletion_ranges_spec(
    overlay: DiffBlockOutput,
    commit_blocks: Seq<DiffBlockOutput>,
    deleted: Seq<Seq<char>>,
    window_matches: bool,
) -> Seq<TouchedRangeOutput>
    decreases commit_blocks.len(),
{
    if commit_blocks.len() == 0 {
        Seq::empty()
    } else {
        let prev = deletion_ranges_spec(overlay, commit_blocks.drop_last(), deleted, window_matches);
        if deletion_block_counts(overlay, commit_blocks.last(), deleted, window_matches) {
            prev.push(touched_range_spec(commit_blocks.last()))
        } else {
            prev
        }
    }
}

/// The touched ranges of a commit's blocks that delete what a review block deletes.
pub fn deletion_ranges_for_blocks(
    overlay_block: &DiffBlockOutput,
    commit_blocks: &[DiffBlockOutput],
    deleted_lines: &Vec<String>,
    overlay_window_matches: bool,
) -> (ranges: Vec<TouchedRangeOutput>)
    ensures
        ranges@ == deletion_ranges_spec(
            *overlay_block,
            commit_blocks@,
            lines_view(deleted_lines@),
            overlay_window_matches,
        ),
{
    let mut ranges: Vec<TouchedRangeOutput> = Vec::new();
    let mut i: usize = 0;
    while i < commit_blocks.len()
        invariant
            i <= commit_blocks.len(),
            ranges@ == deletion_ranges_spec(
                *overlay_block,
                commit_blocks@.take(i as int),
                lines_view(deleted_lines@),
                overlay_window_matches,
            ),
        decreases commit_blocks.len() - i,
    {
        assert(commit_blocks@.take(i + 1).drop_last() =~= commit_blocks@.take(i as int));
        assert(commit_blocks@.take(i + 1).last() == commit_blocks@[i as int]);
        let cb = &commit_blocks[i];
        if has_old_side_deletion(cb) {
            let deleted = deleted_old_lines(cb);
            if lines_equal(&deleted, deleted_lines) {
                if commit_block_anchors_overlay_block(overlay_block, cb, overlay_window_matches) {
                    ranges.push(touched_range_from_block(cb));
                }
            }
        }
        i += 1;
    }
    assert(commit_blocks@.take(commit_blocks.len() as int) =~= commit_blocks@);
    ranges
}

/// The paths a deletion may be traced on: the candidates with the file's path and old path.
pub fn candidate_path_set(candidate_paths: &[String], file_path: &str, old_path: Option<&str>) -> (paths:
    Vec<String>)
    ensures
        texts(paths@).no_duplicates(),
        forall|x: Seq<char>|
            texts(paths@).contains(x) <==> (texts(candidate_paths@).contains(x) || x == file_path@
                || (old_path matches Some(o) && x == o@)),
{
    let mut paths: Vec<String> = Vec::new();
    let mut i: usize = 0;
    while i < candidate_paths.len()
        invariant
            i <= candidate_paths.len(),
            texts(paths@).no_duplicates(),
            forall|x: Seq<char>|
                texts(paths@).contains(x) <==> texts(candidate_paths@).take(i as int).contains(x),
        decreases candidate_paths.len() - i,
    {
        let ghost before = texts(paths@);
        let added = push_unique_path(&mut paths, candidate_paths[i].as_str());
        proof {
            let c = candidate_paths@[i as int]@;
            assert(texts(candidate_paths@).take(i + 1) =~= texts(candidate_paths@).take(i as int).push(c));
            lemma_push_unique_facts(before, texts(paths@), c, added);
            let t = texts(candidate_paths@).take(i as int);
            assert forall|x: Seq<char>| t.push(c).contains(x) <==> (t.contains(x) || x == c) by {
                if t.push(c).contains(x) {
                    let k = choose|k: int| 0 <= k < t.push(c).len() && t.push(c)[k] == x;
                    if k < t.len() {
                        assert(t[k] == x);
                    }
                }
                if t.contains(x) {
                    let k = choose|k: int| 0 <= k < t.len() && t[k] == x;
                    assert(t.push(c)[k] == x);
                }
                if x == c {
                    assert(t.push(c)[t.len() as int] == x);
                }
            }
        }
        i += 1;
    }
    assert(texts(candidate_paths@).take(candidate_paths.len() as int) =~= texts(candidate_paths@));
    let ghost before = texts(paths@);
    let added = push_unique_path(&mut paths, file_path);
    proof {
        lemma_push_unique_facts(before, texts(paths@), file_path@, added);
    }
    match old_path {
        Some(o) => {
            let ghost before2 = texts(paths@);
            let added2 = push_unique_path(&mut paths, o);
            proof {
                lemma_push_unique_facts(before2, texts(paths@), o@, added2);
            }
        },
        None => {},
    }
    paths
}

proof fn lemma_push_unique_facts(before: Seq<Seq<char>>, after: Seq<Seq<char>>, p: Seq<char>, added: bool)
    requires
        before.no_duplicates(),
        added == !before.contains(p),
        added ==> after == before.push(p),
        !added ==> after == before,
    ensures
        after.no_duplicates(),
        forall|x: Seq<char>| after.contains(x) <==> (before.contains(x) || x == p),
{
    if added {
        assert forall|a: int, b: int| 0 <= a < b < after.len() implies after[a] != after[b] by {
            if b == before.len() {
                assert(after[a] == before[a]);
            } else {
                assert(after[a] == before[a]);
                assert(after[b] == before[b]);
            }
        }
        assert forall|x: Seq<char>| after.contains(x) <==> (before.contains(x) || x == p) by {
            if after.contains(x) {
                let k = choose|k: int| 0 <= k < after.len() && after[k] == x;
                if k < before.len() {
                    assert(before[k] == x);
                }
            }
            if before.contains(x) {
                let k = choose|k: int| 0 <= k < before.len() && before[k] == x;
                assert(after[k] == x);
            }
            if x == p {
                assert(after[before.len() as int] == x);
            }
        }
    }
}

/// The paths a deleted block starts on: its old path (or path) when it is a candidate.
pub fn initial_deletion_paths(file_path: &str, old_path: Option<&str>, candidate_paths: &Vec<String>) -> (paths:
    Vec<String>)
    ensures
        texts(candidate_paths@).contains(
            match old_path {
                Some(o) => o@,
                None => file_path@,
            },
        ) ==> texts(paths@) == seq![
            match old_path {
                Some(o) => o@,
                None => file_path@,
            },
        ],
        !texts(candidate_paths@).contains(
            match old_path {
                Some(o) => o@,
                None => file_path@,
            },
        ) ==> paths@.len() == 0,
{
    let primary = match old_path {
        Some(o) => o,
        None => file_path,
    };
    let mut paths: Vec<String> = Vec::new();
    if contains_path(candidate_paths, primary) {
        paths.push(String::from_str(primary));
        assert(texts(paths@) =~= seq![primary@]);
    }
    paths
}

/// A commit that deleted a block's lines, with the ranges it deleted them from.
pub struct DeletionTraceCandidate {
    pub commit: IndexedCommit,
    pub matched_by_filter: bool,
    pub touched_ranges: Vec<TouchedRangeOutput>,
}

impl DeletionTraceCandidate {
    /// The candidate as a related commit found by deletion trace.
    pub fn into_related_commit(self) -> (r: RelatedCommitOutput)
        ensures
            related_from_commit(
                r,
                self.commit,
                self.matched_by_filter,
                self.touched_ranges@,
                "deletion-trace"@,
                Seq::empty(),
            ),
    {
        let via: Vec<String> = Vec::new();
        assert(texts(via@) =~= Seq::<Seq<char>>::empty());
        RelatedCommitOutput {
            hash: self.commit.hash,
            short_hash: self.commit.short_hash,
            author_name: self.commit.author_name,
            author_email: self.commit.author_email,
            committed_at: self.commit.committed_at,
            subject: self.commit.subject,
            matched_by_filter: self.matched_by_filter,
            touched_ranges: self.touched_ranges,
            attribution: Some(
                RelatedCommitAttributionOutput {
                    method: String::from_str("deletion-trace"),
                    via_merge_hashes: via,
                },
            ),
        }
    }
}

/// The related commits of a deletion: the single candidate when there is exactly one, else
/// none.
pub fn deletion_related_commits(candidates: Vec<DeletionTraceCandidate>) -> (r: Vec<RelatedCommitOutput>)
    ensures
        candidates@.len() != 1 ==> r@.len() == 0,
        candidates@.len() == 1 ==> r@.len() == 1 && related_from_commit(
            r@[0],
            candidates@[0].commit,
            candidates@[0].matched_by_filter,
            candidates@[0].touched_ranges@,
            "deletion-trace"@,
            Seq::empty(),
        ),
{
    let mut candidates = candidates;
    let mut out: Vec<RelatedCommitOutput> = Vec::new();
    if candidates.len() == 1 {
        let c = candidates.remove(0);
        out.push(c.into_related_commit());
    }
    out
}

/// The block with deletion trace's answer: unchanged when no commit was found, else with the
/// commits, their authors and a precise attribution.
pub fn apply_deletion_trace(block: DiffBlockOutput, related_commits: Vec<RelatedCommitOutput>) -> (out:
    DiffBlockOutput)
    ensures
        related_commits@.len() == 0 ==> out == block,
        related_commits@.len() > 0 ==> {
            &&& out == (DiffBlockOutput {
                related_commits: related_commits,
                authors: out.authors,
                attribution: out.attribution,
                ..block
            })
            &&& out.authors@.map_values(|a: AuthorOutput| author_view(a)) == authors_spec(
                related_commits@,
            )
            &&& attribution_is(out.attribution, precise_confidence(), Seq::empty())
        },
{
    if related_commits.len() == 0 {
        return block;
    }
    let mut block = block;
    let authors = authors_from_related_commits(related_commits.as_slice());
    block.related_commits = related_commits;
    block.authors = authors;
    block.attribution = Some(precise_attribution());
    block
}

/// `v` holds the ranges a change deleted the block's lines from, its contents as `read_text`
/// may give them: none for a change with no old side or whose contents are equal; else the
/// ranges of the blocks of the side-by-side diff of its old and new contents that delete
/// exactly `deleted_lines` where the block stood.
pub open spec fn deletion_ranges_read<FT: Fn(&str, &str) -> Result<String, AppError>>(
    read_text: FT,
    commit_hash: Seq<char>,
    change: CommitFileChange,
    block: DiffBlockOutput,
    deleted_lines: Seq<String>,
    v: Seq<TouchedRangeOutput>,
) -> bool {
    match old_change_path_spec(change) {
        None => v.len() == 0,
        Some(_) => exists|pair: (String, String)|
            #[trigger] change_read(read_text, commit_hash, change, pair) && (pair.0@ == pair.1@ ==> v.len()
                == 0) && (pair.0@ != pair.1@ ==> exists|built: BuiltOverlayDiff|
                #[trigger] overlay_of_texts(built, pair.0@, pair.1@) && v == deletion_ranges_spec(
                    block,
                    built.blocks@,
                    lines_view(deleted_lines),
                    line_window_spec(pair.0@, block.old_start as int, block.old_end as int) == Some(
                        lines_view(deleted_lines),
                    ),
                )),
    }
}

/// `c` is a deletion candidate over a range: its commit is one that `get_commit` gave for a
/// hash of the range, and its one touched range comes from a change that `commit_changes` gave
/// for that commit, its contents read with `read_text`.
pub open spec fn deletion_candidate_read<FC, FF, FT>(
    get_commit: FC,
    commit_changes: FF,
    read_text: FT,
    range_hashes: Seq<String>,
    block: DiffBlockOutput,
    deleted_lines: Seq<String>,
    c: DeletionTraceCandidate,
) -> bool where
    FC: Fn(&str) -> Result<IndexedCommit, AppError>,
    FF: Fn(&str) -> Result<Vec<CommitFileChange>, AppError>,
    FT: Fn(&str, &str) -> Result<String, AppError>,
 {
    &&& commit_of_range(get_commit, range_hashes, c.commit)
    &&& exists|h: &str, changes: Vec<CommitFileChange>, j: int|
        #![trigger commit_changes.ensures((h,), Ok::<Vec<CommitFileChange>, AppError>(changes)), changes@[j]]
        h@ == c.commit.hash@ && commit_changes.ensures((h,), Ok::<Vec<CommitFileChange>, AppError>(changes))
            && 0 <= j < changes@.len() && deletion_ranges_read(
            read_text,
            c.commit.hash@,
            changes@[j],
            block,
            deleted_lines,
            c.touched_ranges@,
        )
}

/// The ranges one file change of a commit deleted the block's lines from: none for a change
/// with no old side or whose old and new contents are equal; else, in the side-by-side diff of
/// the change's old content (at the change's parent, read by `read_text`) and new content (at
/// the commit, or empty for a deletion), the ranges of the blocks that delete exactly
/// `deleted_lines` where the block stood.
pub fn deletion_touched_ranges_with<FT>(
    read_text: FT,
    commit_hash: &str,
    change: &CommitFileChange,
    block: &DiffBlockOutput,
    deleted_lines: &Vec<String>,
) -> (r: Result<Vec<TouchedRangeOutput>, AppError>)
    where
        FT: Fn(&str, &str) -> Result<String, AppError> + Copy,
    requires
        forall|h: &str, p: &str| #[trigger] read_text.requires((h, p)),
    ensures
        old_change_path_spec(*change) is None ==> (r matches Ok(v) && v@.len() == 0),
        r matches Ok(v) ==> deletion_ranges_read(read_text, commit_hash@, *change, *block, deleted_lines@, v@),
        texts_read_fully(read_text) ==> r is Ok,
{
    let old_path = match old_change_path(change) {
        Some(p) => p,
        None => {
            return Ok(Vec::new());
        },
    };
    let parent = change.parent_hash.as_str();
    let old_text = match read_text(parent, old_path) {
        Ok(t) => t,
        Err(e) => {
            return Err(e);
        },
    };
    let new_text = match new_change_path(change) {
        Some(p) => match read_text(commit_hash, p) {
            Ok(t) => t,
            Err(e) => {
                return Err(e);
            },
        },
        None => String::new(),
    };
    proof {
        assert(change_read(read_text, commit_hash@, *change, (old_text, new_text)));
    }
    if str_eq(old_text.as_str(), new_text.as_str()) {
        return Ok(Vec::new());
    }
    if old_text.as_str().unicode_len() == usize::MAX || new_text.as_str().unicode_len() == usize::MAX {
        return Err(AppError::Analysis(String::from_str("文本长度超出支持范围")));
    }
    let overlay_window_matches = line_window_matches(
        old_text.as_str(),
        block.old_start,
        block.old_end,
        deleted_lines,
    );
    let built = build_overlay_diff(old_text.as_str(), new_text.as_str());
    let ranges = deletion_ranges_for_blocks(block, built.blocks.as_slice(), deleted_lines, overlay_window_matches);
    proof {
        assert(change_read(read_text, commit_hash@, *change, (old_text, new_text)));
    }
    Ok(ranges)
}

/// The path a deleted block starts on: its old path, else its path.
pub open spec fn deletion_primary(file_path: Seq<char>, old_path: Option<Seq<char>>) -> Seq<char> {
    match old_path {
        Some(o) => o,
        None => file_path,
    }
}

/// The change is on one of the paths `active`, by its path or its old path.
pub open spec fn touches_set(c: CommitFileChange, active: Set<Seq<char>>) -> bool {
    active.contains(c.path@) || (c.old_path matches Some(o) && active.contains(o@))
}

/// Some answer for the change does not delete the lines from exactly one place.
pub open spec fn misses_once<FT: Fn(&str, &str) -> Result<String, AppError>>(
    read_text: FT,
    hash: Seq<char>,
    c: CommitFileChange,
    block: DiffBlockOutput,
    deleted_lines: Seq<String>,
) -> bool {
    exists|v: Seq<TouchedRangeOutput>|
        #[trigger] deletion_ranges_read(read_text, hash, c, block, deleted_lines, v) && v.len() != 1
}

/// `t` is what the first change on a path of `active` that deleted the lines from exactly
/// one place gives.
pub open spec fn first_single<FT: Fn(&str, &str) -> Result<String, AppError>>(
    read_text: FT,
    hash: Seq<char>,
    changes: Seq<CommitFileChange>,
    active: Set<Seq<char>>,
    block: DiffBlockOutput,
    deleted_lines: Seq<String>,
    t: Seq<TouchedRangeOutput>,
) -> bool {
    exists|j: int|
        0 <= j < changes.len() && touches_set(changes[j], active) && #[trigger] deletion_ranges_read(
            read_text,
            hash,
            changes[j],
            block,
            deleted_lines,
            t,
        ) && forall|k: int|
            0 <= k < j && touches_set(changes[k], active) ==> #[trigger] misses_once(
                read_text,
                hash,
                changes[k],
                block,
                deleted_lines,
            )
}

/// `found` is what a commit that is no merge gives: the one range of its first change on a
/// path of `active` that deleted the lines from exactly one place, or none when no such
/// change does.
pub open spec fn single_deletion<FT: Fn(&str, &str) -> Result<String, AppError>>(
    read_text: FT,
    hash: Seq<char>,
    changes: Seq<CommitFileChange>,
    active: Set<Seq<char>>,
    block: DiffBlockOutput,
    deleted_lines: Seq<String>,
    found: Option<Seq<TouchedRangeOutput>>,
) -> bool {
    match found {
        Some(t) => t.len() == 1 && first_single(read_text, hash, changes, active, block, deleted_lines, t),
        None => forall|k: int|
            0 <= k < changes.len() && touches_set(changes[k], active) ==> #[trigger] misses_once(
                read_text,
                hash,
                changes[k],
                block,
                deleted_lines,
            ),
    }
}

/// The paths the file has after the first `i` commits' changes, starting from `init`.
pub open spec fn active_at(init: Set<Seq<char>>, chs: Seq<Seq<CommitFileChange>>, i: int) -> Set<Seq<char>>
    decreases i,
{
    if i <= 0 {
        init
    } else {
        advance_spec(active_at(init, chs, i - 1), chs[i - 1])
    }
}

/// `changes` is what `commit_changes` may give back for the commit `hash`.
pub open spec fn changes_seq_read<FF: Fn(&str) -> Result<Vec<CommitFileChange>, AppError>>(
    commit_changes: FF,
    hash: Seq<char>,
    changes: Seq<CommitFileChange>,
) -> bool {
    exists|h: &str, v: Vec<CommitFileChange>|
        #![trigger commit_changes.ensures((h,), Ok::<Vec<CommitFileChange>, AppError>(v))]
        h@ == hash && v@ == changes && commit_changes.ensures((h,), Ok::<Vec<CommitFileChange>, AppError>(v))
}

/// A walk of the range as the reads may give it: for each hash its commit, the commit's
/// changes, and what a commit that is no merge gives, with the file's paths moved along each
/// commit's changes from `init`.
pub open spec fn deletion_run<FC, FF, FT>(
    get_commit: FC,
    commit_changes: FF,
    read_text: FT,
    hashes: Seq<String>,
    init: Set<Seq<char>>,
    block: DiffBlockOutput,
    deleted_lines: Seq<String>,
    commits: Seq<IndexedCommit>,
    chs: Seq<Seq<CommitFileChange>>,
    founds: Seq<Option<Seq<TouchedRangeOutput>>>,
) -> bool where
    FC: Fn(&str) -> Result<IndexedCommit, AppError>,
    FF: Fn(&str) -> Result<Vec<CommitFileChange>, AppError>,
    FT: Fn(&str, &str) -> Result<String, AppError>,
 {
    &&& commits.len() == hashes.len()
    &&& chs.len() == hashes.len()
    &&& founds.len() == hashes.len()
    &&& forall|i: int|
        0 <= i < commits.len() ==> looked_up(get_commit, hashes[i]@, #[trigger] commits[i]) && changes_seq_read(
            commit_changes,
            commits[i].hash@,
            chs[i],
        ) && (!commits[i].is_merge ==> single_deletion(
            read_text,
            commits[i].hash@,
            chs[i],
            active_at(init, chs, i),
            block,
            deleted_lines,
            founds[i],
        ))
}

/// The hashes of candidates.
pub open spec fn candidate_hashes(cands: Seq<(IndexedCommit, bool, Seq<TouchedRangeOutput>)>) -> Seq<Seq<char>> {
    cands.map_values(|x: (IndexedCommit, bool, Seq<TouchedRangeOutput>)| x.0.hash@)
}

/// The candidates of a walk, in order: each commit that is no merge and gives a range, once,
/// with its filter match.
pub open spec fn run_candidates(
    commits: Seq<IndexedCommit>,
    founds: Seq<Option<Seq<TouchedRangeOutput>>>,
    filter: FilterMatcher,
) -> Seq<(IndexedCommit, bool, Seq<TouchedRangeOutput>)>
    decreases commits.len(),
{
    if commits.len() == 0 {
        Seq::empty()
    } else {
        let prev = run_candidates(commits.drop_last(), founds.drop_last(), filter);
        let c = commits.last();
        if !c.is_merge && founds.last() is Some && !candidate_hashes(prev).contains(c.hash@) {
            prev.push((c, filter.accepts(c), founds.last()->Some_0))
        } else {
            prev
        }
    }
}

/// `v` is the answer of the candidates: the one candidate as a related commit when there is
/// exactly one, else nothing.
pub open spec fn deletion_result(
    v: Seq<RelatedCommitOutput>,
    cands: Seq<(IndexedCommit, bool, Seq<TouchedRangeOutput>)>,
) -> bool {
    if cands.len() == 1 {
        v.len() == 1 && related_from_commit(
            v[0],
            cands[0].0,
            cands[0].1,
            cands[0].2,
            "deletion-trace"@,
            Seq::empty(),
        )
    } else {
        v.len() == 0
    }
}

proof fn lemma_active_at_push(
    init: Set<Seq<char>>,
    chs: Seq<Seq<CommitFileChange>>,
    x: Seq<CommitFileChange>,
    k: int,
)
    requires
        0 <= k <= chs.len(),
    ensures
        active_at(init, chs.push(x), k) == active_at(init, chs, k),
    decreases k,
{
    if k > 0 {
        lemma_active_at_push(init, chs, x, k - 1);
        assert(chs.push(x)[k - 1] == chs[k - 1]);
    }
}

/// The candidate as plain values.
pub open spec fn candidate_view(c: DeletionTraceCandidate) -> (IndexedCommit, bool, Seq<TouchedRangeOutput>) {
    (c.commit, c.matched_by_filter, c.touched_ranges@)
}

/// The commit of the range that deleted the block's lines, as its one related commit: the
/// range's commits are walked in order, following the file's paths through renames; a commit
/// that is no merge and deleted the lines from exactly one place in one of its changes on a
/// followed path is a candidate; with exactly one candidate it is the answer, else there is
/// none.
pub fn find_deletion_commits_with<FC, FF, FT>(
    get_commit: FC,
    commit_changes: FF,
    read_text: FT,
    range_hashes: &[String],
    block: &DiffBlockOutput,
    deleted_lines: &Vec<String>,
    candidate_paths: &[String],
    file_path: &str,
    old_path: Option<&str>,
    filter: &FilterMatcher,
) -> (r: Result<Vec<RelatedCommitOutput>, AppError>)
    where
        FC: Fn(&str) -> Result<IndexedCommit, AppError> + Copy,
        FF: Fn(&str) -> Result<Vec<CommitFileChange>, AppError> + Copy,
        FT: Fn(&str, &str) -> Result<String, AppError> + Copy,
    requires
        forall|h: &str| #[trigger] get_commit.requires((h,)),
        forall|h: &str| #[trigger] commit_changes.requires((h,)),
        forall|h: &str, p: &str| #[trigger] read_text.requires((h, p)),
    ensures
        r matches Ok(v) ==> v@.len() <= 1,
        r matches Ok(v) ==> (v@.len() == 1 ==> exists|c: DeletionTraceCandidate|
            #[trigger] related_from_commit(
                v@[0],
                c.commit,
                c.matched_by_filter,
                c.touched_ranges@,
                "deletion-trace"@,
                Seq::empty(),
            ) && c.touched_ranges@.len() == 1 && !c.commit.is_merge && c.matched_by_filter
                == filter.accepts(c.commit) && deletion_candidate_read(
                get_commit,
                commit_changes,
                read_text,
                range_hashes@,
                *block,
                deleted_lines@,
                c,
            )),
        commits_read_fully(get_commit) && changes_read_fully(commit_changes) && texts_read_fully(read_text)
            ==> r is Ok,
        r matches Ok(v) ==> exists|
            commits: Seq<IndexedCommit>,
            chs: Seq<Seq<CommitFileChange>>,
            founds: Seq<Option<Seq<TouchedRangeOutput>>>,
        |
            #[trigger] deletion_run(
                get_commit,
                commit_changes,
                read_text,
                range_hashes@,
                set![deletion_primary(file_path@, opt_str(old_path))],
                *block,
                deleted_lines@,
                commits,
                chs,
                founds,
            ) && deletion_result(v@, run_candidates(commits, founds, *filter)),
{
    let candidate_set = candidate_path_set(candidate_paths, file_path, old_path);
    let mut active_paths = initial_deletion_paths(file_path, old_path, &candidate_set);
    let ghost init = set![deletion_primary(file_path@, opt_str(old_path))];
    proof {
        assert(texts(active_paths@).no_duplicates()) by {
            assert(texts(active_paths@).len() <= 1);
        }
        let primary = deletion_primary(file_path@, opt_str(old_path));
        assert(texts(candidate_set@).contains(primary));
        assert(texts(active_paths@) == seq![primary]);
        assert(texts(active_paths@).to_set() =~= init) by {
            assert(texts(active_paths@)[0] == primary);
        }
    }
    let mut candidates: Vec<DeletionTraceCandidate> = Vec::new();
    let mut seen: Vec<String> = Vec::new();
    let ghost mut commits_g: Seq<IndexedCommit> = Seq::empty();
    let ghost mut chs_g: Seq<Seq<CommitFileChange>> = Seq::empty();
    let ghost mut founds_g: Seq<Option<Seq<TouchedRangeOutput>>> = Seq::empty();
    let mut i: usize = 0;
    while i < range_hashes.len()
        invariant
            deletion_run(
                get_commit,
                commit_changes,
                read_text,
                range_hashes@.take(i as int),
                init,
                *block,
                deleted_lines@,
                commits_g,
                chs_g,
                founds_g,
            ),
            texts(active_paths@).to_set() == active_at(init, chs_g, i as int),
            candidates@.map_values(|c: DeletionTraceCandidate| candidate_view(c)) == run_candidates(
                commits_g,
                founds_g,
                *filter,
            ),
            texts(seen@) == candidate_hashes(run_candidates(commits_g, founds_g, *filter)),
            forall|h: &str| #[trigger] get_commit.requires((h,)),
            forall|h: &str| #[trigger] commit_changes.requires((h,)),
            forall|h: &str, p: &str| #[trigger] read_text.requires((h, p)),
            i <= range_hashes@.len(),
            texts(active_paths@).no_duplicates(),
            forall|k: int|
                0 <= k < candidates@.len() ==> (#[trigger] candidates@[k]).touched_ranges@.len() == 1
                    && !candidates@[k].commit.is_merge && candidates@[k].matched_by_filter
                    == filter.accepts(candidates@[k].commit) && deletion_candidate_read(
                    get_commit,
                    commit_changes,
                    read_text,
                    range_hashes@,
                    *block,
                    deleted_lines@,
                    candidates@[k],
                ),
        decreases range_hashes.len() - i,
    {
        let h = range_hashes[i].as_str();
        let commit = match get_commit(h) {
            Ok(c) => c,
            Err(e) => {
                return Err(e);
            },
        };
        proof {
            assert(commit_of_range(get_commit, range_hashes@, commit));
        }
        let ch = commit.hash.as_str();
        let changes = match commit_changes(ch) {
            Ok(c) => c,
            Err(e) => {
                return Err(e);
            },
        };
        proof {
            assert(looked_up(get_commit, range_hashes@[i as int]@, commit));
            assert(changes_seq_read(commit_changes, commit.hash@, changes@));
        }
        let ghost active = texts(active_paths@).to_set();
        let ghost mut fv: Option<Seq<TouchedRangeOutput>> = None;
        let ghost pre_cands = candidates@;
        if !commit.is_merge {
            let mut found: Option<Vec<TouchedRangeOutput>> = None;
            let mut j: usize = 0;
            while j < changes.len() && found.is_none()
                invariant
                    forall|h: &str, p: &str| #[trigger] read_text.requires((h, p)),
                    j <= changes@.len(),
                    active == texts(active_paths@).to_set(),
                    found is None ==> forall|k: int|
                        0 <= k < j && touches_set(changes@[k], active) ==> #[trigger] misses_once(
                            read_text,
                            commit.hash@,
                            changes@[k],
                            *block,
                            deleted_lines@,
                        ),
                    found matches Some(t) ==> single_deletion(
                        read_text,
                        commit.hash@,
                        changes@,
                        active,
                        *block,
                        deleted_lines@,
                        Some(t@),
                    ),
                    found matches Some(t) ==> t@.len() == 1 && exists|jj: int|
                        0 <= jj < changes@.len() && #[trigger] deletion_ranges_read(
                            read_text,
                            commit.hash@,
                            changes@[jj],
                            *block,
                            deleted_lines@,
                            t@,
                        ),
                decreases changes.len() - j,
            {
                let change = &changes[j];
                let touches = change_touches_active_path(change, &active_paths);
                proof {
                    assert(touches == touches_set(changes@[j as int], active));
                }
                if touches {
                    let touched_ranges = match deletion_touched_ranges_with(
                        read_text,
                        commit.hash.as_str(),
                        change,
                        block,
                        deleted_lines,
                    ) {
                        Ok(t) => t,
                        Err(e) => {
                            return Err(e);
                        },
                    };
                    if touched_ranges.len() == 1 {
                        proof {
                            assert(*change == changes@[j as int]);
                            assert(deletion_ranges_read(
                                read_text,
                                commit.hash@,
                                changes@[j as int],
                                *block,
                                deleted_lines@,
                                touched_ranges@,
                            ));
                            assert(touches_set(changes@[j as int], active));
                            assert(first_single(
                                read_text,
                                commit.hash@,
                                changes@,
                                active,
                                *block,
                                deleted_lines@,
                                touched_ranges@,
                            ));
                            assert(single_deletion(
                                read_text,
                                commit.hash@,
                                changes@,
                                active,
                                *block,
                                deleted_lines@,
                                Some(touched_ranges@),
                            ));
                        }
                        found = Some(touched_ranges);
                    } else {
                        proof {
                            assert(misses_once(read_text, commit.hash@, changes@[j as int], *block, deleted_lines@));
                        }
                    }
                }
                j += 1;
            }
            proof {
                fv = if found is Some {
                    Some(found->Some_0@)
                } else {
                    None
                };
                assert(single_deletion(read_text, commit.hash@, changes@, active, *block, deleted_lines@, fv));
            }
            match found {
                Some(touched_ranges) => {
                    if !contains_path(&seen, commit.hash.as_str()) {
                        let ghost seen_before = seen@;
                        let hc = commit.hash.clone();
                        seen.push(hc);
                        proof {
                            assert(texts(seen@) =~= texts(seen_before).push(commit.hash@));
                        }
                        let matched_by_filter = filter.matches(&commit);
                        let ghost pre = candidates@;
                        let cand = DeletionTraceCandidate { commit, matched_by_filter, touched_ranges };
                        proof {
                            assert(deletion_candidate_read(
                                get_commit,
                                commit_changes,
                                read_text,
                                range_hashes@,
                                *block,
                                deleted_lines@,
                                cand,
                            ));
                        }
                        candidates.push(cand);
                        proof {
                            assert forall|k: int| 0 <= k < candidates@.len() implies (#[trigger] candidates@[k]).touched_ranges@.len() == 1
                                && !candidates@[k].commit.is_merge && candidates@[k].matched_by_filter
                                == filter.accepts(candidates@[k].commit) && deletion_candidate_read(
                                get_commit,
                                commit_changes,
                                read_text,
                                range_hashes@,
                                *block,
                                deleted_lines@,
                                candidates@[k],
                            ) by {
                                if k < pre.len() {
                                    assert(candidates@[k] == pre[k]);
                                }
                            }
                        }
                    }
                },
                None => {},
            }
        }
        advance_active_paths(&mut active_paths, changes.as_slice());
        proof {
            let pc = commits_g;
            let pch = chs_g;
            let pf = founds_g;
            commits_g = commits_g.push(commit);
            chs_g = chs_g.push(changes@);
            founds_g = founds_g.push(fv);
            assert(commits_g.drop_last() =~= pc);
            assert(founds_g.drop_last() =~= pf);
            assert(range_hashes@.take(i + 1).drop_last() =~= range_hashes@.take(i as int));
            lemma_active_at_push(init, pch, changes@, i as int);
            assert(active_at(init, chs_g, i + 1) == advance_spec(active, changes@));
            assert forall|k: int| 0 <= k < commits_g.len() implies looked_up(
                get_commit,
                range_hashes@.take(i + 1)[k]@,
                #[trigger] commits_g[k],
            ) && changes_seq_read(commit_changes, commits_g[k].hash@, chs_g[k]) && (!commits_g[k].is_merge
                ==> single_deletion(
                read_text,
                commits_g[k].hash@,
                chs_g[k],
                active_at(init, chs_g, k),
                *block,
                deleted_lines@,
                founds_g[k],
            )) by {
                if k < i {
                    assert(commits_g[k] == pc[k]);
                    assert(chs_g[k] == pch[k]);
                    assert(founds_g[k] == pf[k]);
                    assert(range_hashes@.take(i + 1)[k] == range_hashes@.take(i as int)[k]);
                    lemma_active_at_push(init, pch, changes@, k);
                } else {
                    assert(commits_g[k] == commit);
                    assert(chs_g[k] == changes@);
                    assert(founds_g[k] == fv);
                    lemma_active_at_push(init, pch, changes@, k);
                }
            }
            let rc = run_candidates(commits_g, founds_g, *filter);
            assert(rc == if !commit.is_merge && fv is Some && !candidate_hashes(run_candidates(pc, pf, *filter)).contains(
                commit.hash@,
            ) {
                run_candidates(pc, pf, *filter).push((commit, filter.accepts(commit), fv->Some_0))
            } else {
                run_candidates(pc, pf, *filter)
            });
            assert(candidates@.map_values(|c: DeletionTraceCandidate| candidate_view(c)) =~= rc);
            assert(texts(seen@) =~= candidate_hashes(rc));
        }
        i += 1;
    }
    proof {
        assert(range_hashes@.take(i as int) =~= range_hashes@);
        let cv = candidates@.map_values(|c: DeletionTraceCandidate| candidate_view(c));
        if candidates@.len() == 1 {
            assert(cv[0] == candidate_view(candidates@[0]));
        }
    }
    let v = deletion_related_commits(candidates);
    proof {
        assert(deletion_result(v@, run_candidates(commits_g, founds_g, *filter)));
    }
    Ok(v)
}

/// `out` is `block` with the answer of the candidates: unchanged unless there is exactly one,
/// else related to it, with its authors and a precise attribution.
pub open spec fn deletion_block_result(
    block: DiffBlockOutput,
    out: DiffBlockOutput,
    cands: Seq<(IndexedCommit, bool, Seq<TouchedRangeOutput>)>,
) -> bool {
    if cands.len() == 1 {
        &&& out.related_commits@.len() == 1
        &&& related_from_commit(
            out.related_commits@[0],
            cands[0].0,
            cands[0].1,
            cands[0].2,
            "deletion-trace"@,
            Seq::empty(),
        )
        &&& out == (DiffBlockOutput {
            related_commits: out.related_commits,
            authors: out.authors,
            attribution: out.attribution,
            ..block
        })
        &&& out.authors@.map_values(|a: AuthorOutput| author_view(a)) == authors_spec(out.related_commits@)
        &&& attribution_is(out.attribution, precise_confidence(), Seq::empty())
    } else {
        out == block
    }
}

/// `out` is `block` with deletion trace's answer: unchanged unless the block deletes lines of
/// the old side; else unchanged, or related to the one commit found, read as
/// `deletion_candidate_read` says, with its authors and a precise attribution.
pub open spec fn deletion_traced<FC, FF, FT>(
    get_commit: FC,
    commit_changes: FF,
    read_text: FT,
    range_hashes: Seq<String>,
    file_path: Seq<char>,
    old_path: Option<Seq<char>>,
    filter: FilterMatcher,
    block: DiffBlockOutput,
    out: DiffBlockOutput,
) -> bool where
    FC: Fn(&str) -> Result<IndexedCommit, AppError>,
    FF: Fn(&str) -> Result<Vec<CommitFileChange>, AppError>,
    FT: Fn(&str, &str) -> Result<String, AppError>,
 {
    &&& has_old_side_deletion_spec(block) && side_texts(block.rows@, true).len() > 0 ==> exists|
        dl: Seq<String>,
        commits: Seq<IndexedCommit>,
        chs: Seq<Seq<CommitFileChange>>,
        founds: Seq<Option<Seq<TouchedRangeOutput>>>,
    |
        #![trigger deletion_run(get_commit, commit_changes, read_text, range_hashes, set![deletion_primary(file_path, old_path)], block, dl, commits, chs, founds)]
        lines_view(dl) == side_texts(block.rows@, true) && deletion_run(
            get_commit,
            commit_changes,
            read_text,
            range_hashes,
            set![deletion_primary(file_path, old_path)],
            block,
            dl,
            commits,
            chs,
            founds,
        ) && deletion_block_result(block, out, run_candidates(commits, founds, filter))
    &&& !has_old_side_deletion_spec(block) ==> out == block
    &&& side_texts(block.rows@, true).len() == 0 ==> out == block
    &&& (out == block || (out.related_commits@.len() == 1 && out == (DiffBlockOutput {
        related_commits: out.related_commits,
        authors: out.authors,
        attribution: out.attribution,
        ..block
    }) && out.authors@.map_values(|a: AuthorOutput| author_view(a)) == authors_spec(out.related_commits@)
        && attribution_is(out.attribution, precise_confidence(), Seq::empty()) && exists|
        c: DeletionTraceCandidate,
        dl: Seq<String>,
    |
        related_from_commit(
            out.related_commits@[0],
            c.commit,
            c.matched_by_filter,
            c.touched_ranges@,
            "deletion-trace"@,
            Seq::empty(),
        ) && lines_view(dl) == side_texts(block.rows@, true) && c.touched_ranges@.len() == 1
            && !c.commit.is_merge && c.matched_by_filter == filter.accepts(c.commit)
            && #[trigger] deletion_candidate_read(
            get_commit,
            commit_changes,
            read_text,
            range_hashes,
            block,
            dl,
            c,
        )))
}

/// The block with deletion trace's answer: unchanged unless it deletes lines of the old
/// side and one commit of the range is found to have deleted them.
pub fn attach_block_deletion_trace_with<FC, FF, FT>(
    get_commit: FC,
    commit_changes: FF,
    read_text: FT,
    range_hashes: &[String],
    block: DiffBlockOutput,
    candidate_paths: &[String],
    file_path: &str,
    old_path: Option<&str>,
    filter: &FilterMatcher,
) -> (r: Result<DiffBlockOutput, AppError>)
    where
        FC: Fn(&str) -> Result<IndexedCommit, AppError> + Copy,
        FF: Fn(&str) -> Result<Vec<CommitFileChange>, AppError> + Copy,
        FT: Fn(&str, &str) -> Result<String, AppError> + Copy,
    requires
        forall|h: &str| #[trigger] get_commit.requires((h,)),
        forall|h: &str| #[trigger] commit_changes.requires((h,)),
        forall|h: &str, p: &str| #[trigger] read_text.requires((h, p)),
    ensures
        !has_old_side_deletion_spec(block) ==> r == Ok::<DiffBlockOutput, AppError>(block),
        side_texts(block.rows@, true).len() == 0 ==> r == Ok::<DiffBlockOutput, AppError>(block),
        r matches Ok(out) ==> deletion_traced(
            get_commit,
            commit_changes,
            read_text,
            range_hashes@,
            file_path@,
            opt_str(old_path),
            *filter,
            block,
            out,
        ),
        commits_read_fully(get_commit) && changes_read_fully(commit_changes) && texts_read_fully(read_text)
            ==> r is Ok,
{
    if !has_old_side_deletion(&block) {
        return Ok(block);
    }
    let deleted_lines = deleted_old_lines(&block);
    if deleted_lines.len() == 0 {
        return Ok(block);
    }
    let related = match find_deletion_commits_with(
        get_commit,
        commit_changes,
        read_text,
        range_hashes,
        &block,
        &deleted_lines,
        candidate_paths,
        file_path,
        old_path,
        filter,
    ) {
        Ok(v) => v,
        Err(e) => {
            return Err(e);
        },
    };
    Ok(apply_deletion_trace(block, related))
}

/// Deletion trace for each block, in order, as `attach_block_deletion_trace_with` does for
/// one; the first failure is returned as it is.
pub fn attach_deletion_trace_with<FC, FF, FT>(
    get_commit: FC,
    commit_changes: FF,
    read_text: FT,
    range_hashes: &[String],
    blocks: Vec<DiffBlockOutput>,
    candidate_paths: &[String],
    file_path: &str,
    old_path: Option<&str>,
    filter: &FilterMatcher,
) -> (r: Result<Vec<DiffBlockOutput>, AppError>)
    where
        FC: Fn(&str) -> Result<IndexedCommit, AppError> + Copy,
        FF: Fn(&str) -> Result<Vec<CommitFileChange>, AppError> + Copy,
        FT: Fn(&str, &str) -> Result<String, AppError> + Copy,
    requires
        forall|h: &str| #[trigger] get_commit.requires((h,)),
        forall|h: &str| #[trigger] commit_changes.requires((h,)),
        forall|h: &str, p: &str| #[trigger] read_text.requires((h, p)),
    ensures
        r matches Ok(out) ==> out@.len() == blocks@.len() && forall|i: int|
            0 <= i < blocks@.len() ==> deletion_traced(
                get_commit,
                commit_changes,
                read_text,
                range_hashes@,
                file_path@,
                opt_str(old_path),
                *filter,
                #[trigger] blocks@[i],
                out@[i],
            ),
        (forall|i: int| 0 <= i < blocks@.len() ==> !has_old_side_deletion_spec(#[trigger] blocks@[i])) ==> (
        r matches Ok(out) && out@ == blocks@),
        commits_read_fully(get_commit) && changes_read_fully(commit_changes) && texts_read_fully(read_text)
            ==> r is Ok,
{
    let ghost original = blocks@;
    let ghost none_deletes = forall|k: int|
        0 <= k < original.len() ==> !has_old_side_deletion_spec(#[trigger] original[k]);
    let total = blocks.len();
    let mut remaining = blocks;
    let mut traced: Vec<DiffBlockOutput> = Vec::new();
    let mut i: usize = 0;
    while remaining.len() > 0
        invariant
            forall|h: &str| #[trigger] get_commit.requires((h,)),
            forall|h: &str| #[trigger] commit_changes.requires((h,)),
            forall|h: &str, p: &str| #[trigger] read_text.requires((h, p)),
            i + remaining@.len() == original.len(),
            total == original.len(),
            original == blocks@,
            remaining@ == original.skip(i as int),
            traced@.len() == i,
            none_deletes == forall|k: int|
                0 <= k < original.len() ==> !has_old_side_deletion_spec(#[trigger] original[k]),
            forall|k: int|
                0 <= k < i ==> deletion_traced(
                    get_commit,
                    commit_changes,
                    read_text,
                    range_hashes@,
                    file_path@,
                    opt_str(old_path),
                    *filter,
                    #[trigger] original[k],
                    traced@[k],
                ),
            none_deletes ==> traced@ == original.take(i as int),
        decreases remaining@.len(),
    {
        let block = remaining.remove(0);
        assert(block == original[i as int]);
        let ghost pre = traced@;
        match attach_block_deletion_trace_with(
            get_commit,
            commit_changes,
            read_text,
            range_hashes,
            block,
            candidate_paths,
            file_path,
            old_path,
            filter,
        ) {
            Ok(out) => {
                traced.push(out);
            },
            Err(e) => {
                proof {
                    if none_deletes {
                        assert(!has_old_side_deletion_spec(original[i as int]));
                    }
                }
                return Err(e);
            },
        }
        proof {
            assert forall|k: int|
                0 <= k < i + 1 implies deletion_traced(
                get_commit,
                commit_changes,
                read_text,
                range_hashes@,
                file_path@,
                opt_str(old_path),
                *filter,
                #[trigger] original[k],
                traced@[k],
            ) by {
                if k < i {
                    assert(traced@[k] == pre[k]);
                }
            }
            if none_deletes {
                assert(!has_old_side_deletion_spec(original[i as int]));
                assert(traced@ =~= original.take(i + 1));
            }
        }
        i += 1;
    }
    assert(original.take(original.len() as int) =~= original);
    Ok(traced)
}

} // verus!
