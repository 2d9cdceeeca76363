//! What `index build` decides: which commits still need indexing and what it reports.
use crate::attribution::patch_inference::texts;
use crate::contracts::OperationStage;
use crate::error::AppError;
use crate::execution::{AnalysisExecutionContext, OperationProgressUpdate};
use crate::git::diff::CommitFileChange;
use crate::git::commits::IndexedCommit;
use crate::git::diff::contains_path;
use crate::index::writer::IndexWriteSummary;
use crate::json::{IndexBuildOutput, IndexRunStatus};
use vstd::prelude::*;

verus! {

/// The commits whose hash the index does not hold yet, in order.
pub open spec fn missing_spec(commits: Seq<IndexedCommit>, indexed: Seq<Seq<char>>) -> Seq<IndexedCommit>
    decreases commits.len(),
{
    if commits.len() == 0 {
        Seq::empty()
    } else {
        let prev = missing_spec(commits.drop_last(), indexed);
        if indexed.contains(commits.last().hash@) {
            prev
        } else {
            prev.push(commits.last())
        }
    }
}

/// The commits the index still lacks.
pub fn missing_commits(commits: Vec<IndexedCommit>, indexed_hashes: &Vec<String>) -> (missing: Vec<
    IndexedCommit,
>)
    ensures
        missing@ == missing_spec(commits@, texts(indexed_hashes@)),
{
    let ghost original = commits@;
    let mut remaining = commits;
    let mut missing: Vec<IndexedCommit> = Vec::new();
    let mut i: usize = 0;
    let total = remaining.len();
    while remaining.len() > 0
        invariant
            total == original.len(),
            i + remaining@.len() == original.len(),
            remaining@ == original.skip(i as int),
            missing@ == missing_spec(original.take(i as int), texts(indexed_hashes@)),
        decreases remaining@.len(),
    {
        let c = remaining.remove(0);
        assert(c == original[i as int]);
        assert(original.take(i + 1).drop_last() =~= original.take(i as int));
        assert(original.take(i + 1).last() == c);
        if !contains_path(indexed_hashes, c.hash.as_str()) {
            missing.push(c);
        }
        i += 1;
    }
    assert(original.take(i as int) =~= original);
    missing
}

/// The report of a completed index run.
pub fn index_build_output(repo_id: String, summary: &IndexWriteSummary, elapsed_ms: u64) -> (out:
    IndexBuildOutput)
    ensures
        out.version == 1,
        out.repo_id == repo_id,
        out.status == IndexRunStatus::Completed,
        out.indexed_commit_count == summary.indexed_commit_count,
        out.indexed_file_count == summary.indexed_file_count,
        out.elapsed_ms == elapsed_ms,
        out.warnings@.len() == 0,
{
    IndexBuildOutput {
        version: 1,
        repo_id,
        status: IndexRunStatus::Completed,
        indexed_commit_count: summary.indexed_commit_count,
        indexed_file_count: summary.indexed_file_count,
        elapsed_ms,
        warnings: Vec::new(),
    }
}

/// `chunk` is what `diff`, in some state, may give back for the commit `hash`.
pub open spec fn diffed<F: FnMut(&str) -> Result<Vec<CommitFileChange>, AppError>>(
    diff: F,
    hash: Seq<char>,
    chunk: Vec<CommitFileChange>,
) -> bool {
    exists|g: F, h: &str|
        h@ == hash && #[trigger] call_ensures(g, (h,), Ok::<Vec<CommitFileChange>, AppError>(chunk))
}

/// Every call of `diff`, in any state, succeeds.
pub open spec fn diffs_fully<F: FnMut(&str) -> Result<Vec<CommitFileChange>, AppError>>(diff: F) -> bool {
    forall|g: F, h: &str, res: Result<Vec<CommitFileChange>, AppError>|
        #[trigger] call_ensures(g, (h,), res) ==> res is Ok
}

/// The changes of `chunks`, one after another.
pub open spec fn joined(chunks: Seq<Vec<CommitFileChange>>) -> Seq<CommitFileChange>
    decreases chunks.len(),
{
    if chunks.len() == 0 {
        Seq::empty()
    } else {
        joined(chunks.drop_last()) + chunks.last()@
    }
}

/// The file changes of the missing commits, asked of `diff` once per commit and in order,
/// with progress reported before the first and after each commit; cancellation is checked
/// before each commit, and a failure of `diff` is returned as it is.
pub fn collect_missing_file_changes<F>(
    missing_commits: &[IndexedCommit],
    context: &AnalysisExecutionContext,
    diff: F,
) -> (r: Result<Vec<CommitFileChange>, AppError>)
    where
        F: FnMut(&str) -> Result<Vec<CommitFileChange>, AppError>,
    requires
        forall|h: &str| #[trigger] diff.requires((h,)),
    ensures
        missing_commits@.len() == 0 ==> (r matches Ok(files) && files@.len() == 0),
        r is Err && !context.can_cancel() ==> missing_commits@.len() > 0,
        r matches Ok(files) ==> exists|chunks: Seq<Vec<CommitFileChange>>|
            {
                &&& chunks.len() == missing_commits@.len()
                &&& forall|k: int|
                    0 <= k < chunks.len() ==> diffed(diff, missing_commits@[k].hash@, #[trigger] chunks[k])
                &&& files@ == joined(chunks)
            },
        !context.can_cancel() && diffs_fully(diff) ==> r is Ok,
{
    let mut diff = diff;
    let total = missing_commits.len() as u64;
    context.report_progress(
        OperationProgressUpdate {
            stage: OperationStage::IndexCommits,
            message: String::from_str("计算缺失提交差异"),
            completed_units: Some(0),
            total_units: Some(total),
        },
    );
    let mut files: Vec<CommitFileChange> = Vec::new();
    let ghost mut chunks: Seq<Vec<CommitFileChange>> = Seq::empty();
    let mut index: usize = 0;
    while index < missing_commits.len()
        invariant
            index <= missing_commits@.len(),
            total == missing_commits@.len(),
            index == 0 ==> files@.len() == 0,
            forall|h: &str| #[trigger] diff.requires((h,)),
            chunks.len() == index,
            forall|k: int| 0 <= k < index ==> diffed(diff, missing_commits@[k].hash@, #[trigger] chunks[k]),
            files@ == joined(chunks),
        decreases missing_commits.len() - index,
    {
        match context.check_cancelled() {
            Ok(()) => {},
            Err(e) => {
                return Err(e);
            },
        }
        let h = missing_commits[index].hash.as_str();
        let ghost before = diff;
        match diff(h) {
            Ok(mut changes) => {
                proof {
                    assert(call_ensures(before, (h,), Ok::<Vec<CommitFileChange>, AppError>(changes)));
                    assert(diffed(diff, missing_commits@[index as int].hash@, changes));
                    let pre = chunks;
                    chunks = chunks.push(changes);
                    assert(chunks.drop_last() =~= pre);
                }
                files.append(&mut changes);
                proof {
                    assert(files@ =~= joined(chunks));
                }
            },
            Err(e) => {
                return Err(e);
            },
        }
        context.report_progress(
            OperationProgressUpdate {
                stage: OperationStage::IndexCommits,
                message: String::from_str("计算缺失提交差异"),
                completed_units: Some(index as u64 + 1),
                total_units: Some(total),
            },
        );
        index += 1;
    }
    Ok(files)
}

} // verus!
