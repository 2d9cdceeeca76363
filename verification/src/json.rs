//! The values that the analysis commands produce.
use vstd::prelude::*;

verus! {

/// What the spike concludes about the Git library.
#[derive(Debug, Clone, Copy, PartialEq, Eq, Structural)]
pub enum SpikeDecision {
    GixOnly,
    AlgorithmAdjustmentRequired,
    FallbackRisk,
}

/// Whether a spike check passed.
#[derive(Debug, Clone, Copy, PartialEq, Eq, Structural)]
pub enum CheckStatus {
    Pass,
    Fail,
}

/// A difference a spike check found.
#[derive(Debug, Clone)]
pub struct SpikeDifference {
    pub field: String,
    pub expected: String,
    pub actual: String,
}

/// One check of the spike.
#[derive(Debug, Clone)]
pub struct SpikeCheck {
    pub name: String,
    pub status: CheckStatus,
    pub differences: Vec<SpikeDifference>,
}

/// The spike's report.
#[derive(Debug, Clone)]
pub struct SpikeOutput {
    pub version: u8,
    pub fixture: String,
    pub checks: Vec<SpikeCheck>,
    pub decision: SpikeDecision,
}

impl SpikeOutput {
    /// An output for the named fixture with no checks yet, whose decision stays
    /// `AlgorithmAdjustmentRequired` until the checks are judged.
    pub fn new(fixture: &str) -> (out: Self)
        ensures
            out.version == 1,
            out.fixture@ == fixture@,
            out.checks@.len() == 0,
            out.decision == SpikeDecision::AlgorithmAdjustmentRequired,
    {
        Self {
            version: 1,
            fixture: String::from_str(fixture),
            checks: Vec::new(),
            decision: SpikeDecision::AlgorithmAdjustmentRequired,
        }
    }
}

/// The state of an index.
#[derive(Debug, Clone, Copy, PartialEq, Eq, Structural)]
pub enum IndexStatusKind {
    Missing,
    Building,
    Ready,
    Stale,
    Incompatible,
}

/// The report of `index status`.
#[derive(Debug, Clone)]
pub struct IndexStatusOutput {
    pub version: u8,
    pub repo_id: String,
    pub schema_version: u32,
    pub status: IndexStatusKind,
    pub indexed_commit_count: u64,
    pub indexed_file_count: u64,
    pub updated_at: Option<String>,
    pub warnings: Vec<String>,
}

/// How an index run ended.
#[derive(Debug, Clone, Copy, PartialEq, Eq, Structural)]
pub enum IndexRunStatus {
    Completed,
    Failed,
}

/// The report of `index build`.
#[derive(Debug, Clone)]
pub struct IndexBuildOutput {
    pub version: u8,
    pub repo_id: String,
    pub status: IndexRunStatus,
    pub indexed_commit_count: u64,
    pub indexed_file_count: u64,
    pub elapsed_ms: u64,
    pub warnings: Vec<String>,
}

/// The commit range a file query covered.
#[derive(Debug, Clone)]
pub struct QueryFilesRangeOutput {
    pub base_commit: String,
    pub head_commit: String,
}

/// A file in a query's answer.
#[derive(Debug, Clone)]
pub struct ChangedFileOutput {
    pub path: String,
    pub old_path: Option<String>,
    pub old_blob_id: Option<String>,
    pub new_blob_id: Option<String>,
    pub status: String,
    pub additions: u64,
    pub deletions: u64,
    pub is_binary: bool,
    pub is_previewable: bool,
}

/// The report of `index query-files`.
#[derive(Debug, Clone)]
pub struct QueryFilesOutput {
    pub version: u8,
    pub range: QueryFilesRangeOutput,
    pub files: Vec<ChangedFileOutput>,
    pub warnings: Vec<String>,
}

/// The range an overlay covers.
#[derive(Debug, Clone)]
pub struct AnalysisRangeOutput {
    pub branch: String,
    pub base_commit: String,
    pub head_commit: String,
    pub start_at: Option<String>,
    pub end_at: Option<String>,
}

/// An author of a block.
#[derive(Debug, Clone)]
pub struct AuthorOutput {
    pub name: String,
    pub email: Option<String>,
}

/// A warning of an attribution.
#[derive(Debug, Clone)]
pub struct AttributionWarningOutput {
    pub code: String,
    pub message: String,
}

/// The attribution of a block: its confidence and warnings.
#[derive(Debug, Clone)]
pub struct BlockAttributionOutput {
    pub confidence: String,
    pub warnings: Vec<AttributionWarningOutput>,
}

/// How a related commit was found, and through which merges.
#[derive(Debug, Clone)]
pub struct RelatedCommitAttributionOutput {
    pub method: String,
    pub via_merge_hashes: Vec<String>,
}

/// The old and new line ranges a commit touched; absent sides are none.
#[derive(Debug, Clone, Copy, PartialEq, Eq, Structural)]
pub struct TouchedRangeOutput {
    pub old_start: Option<usize>,
    pub old_end: Option<usize>,
    pub new_start: Option<usize>,
    pub new_end: Option<usize>,
}

/// A commit related to a block.
#[derive(Debug, Clone)]
pub struct RelatedCommitOutput {
    pub hash: String,
    pub short_hash: String,
    pub author_name: String,
    pub author_email: Option<String>,
    pub committed_at: String,
    pub subject: String,
    pub matched_by_filter: bool,
    pub touched_ranges: Vec<TouchedRangeOutput>,
    pub attribution: Option<RelatedCommitAttributionOutput>,
}

/// A piece of a changed line, marked as added or removed.
#[derive(Debug, Clone)]
pub struct WordChangeOutput {
    pub value: String,
    pub added: Option<bool>,
    pub removed: Option<bool>,
}

/// One row of a side-by-side diff.
#[derive(Debug, Clone)]
pub struct SideBySideDiffRowOutput {
    pub old_line_number: Option<usize>,
    pub new_line_number: Option<usize>,
    pub old_text: Option<String>,
    pub new_text: Option<String>,
    pub row_type: String,
    pub word_changes: Option<Vec<WordChangeOutput>>,
    pub block_id: Option<String>,
}

/// A block of changed rows, with the commits and authors it is attributed to.
#[derive(Debug, Clone)]
pub struct DiffBlockOutput {
    pub id: String,
    pub old_start: usize,
    pub old_end: usize,
    pub new_start: usize,
    pub new_end: usize,
    pub row_start_index: Option<usize>,
    pub row_end_index: Option<usize>,
    pub change_type: String,
    pub authors: Vec<AuthorOutput>,
    pub rows: Vec<SideBySideDiffRowOutput>,
    pub related_commits: Vec<RelatedCommitOutput>,
    pub attribution: Option<BlockAttributionOutput>,
}

/// The overlay of a file over a range.
#[derive(Debug, Clone)]
pub struct FileOverlayOutput {
    pub mode: String,
    pub file: ChangedFileOutput,
    pub range: AnalysisRangeOutput,
    pub old_content: String,
    pub new_content: String,
    pub resolved_encoding: String,
    pub rows: Vec<SideBySideDiffRowOutput>,
    pub blocks: Vec<DiffBlockOutput>,
    pub warnings: Vec<String>,
}

/// The report of `file-overlay`.
#[derive(Debug, Clone)]
pub struct FileOverlayCommandOutput {
    pub version: u8,
    pub overlay: FileOverlayOutput,
    pub warnings: Vec<String>,
}

/// The report of `trace-block`.
#[derive(Debug, Clone)]
pub struct TraceBlockOutput {
    pub version: u8,
    pub file: String,
    pub block_id: String,
    pub attribution: Option<BlockAttributionOutput>,
    pub authors: Vec<AuthorOutput>,
    pub related_commits: Vec<RelatedCommitOutput>,
    pub warnings: Vec<String>,
}

/// The value of a word change: its text and its added and removed flags.
pub open spec fn word_change_view(w: WordChangeOutput) -> (Seq<char>, Option<bool>, Option<bool>) {
    (w.value@, w.added, w.removed)
}

/// The values of a sequence of word changes.
pub open spec fn word_changes_view(v: Seq<WordChangeOutput>) -> Seq<(Seq<char>, Option<bool>, Option<bool>)> {
    v.map_values(|w: WordChangeOutput| word_change_view(w))
}

/// The characters of an optional string.
pub open spec fn opt_text(o: Option<String>) -> Option<Seq<char>> {
    match o {
        Some(s) => Some(s@),
        None => None,
    }
}

/// The value of a side-by-side row.
pub struct RowView {
    pub old_line_number: Option<usize>,
    pub new_line_number: Option<usize>,
    pub old_text: Option<Seq<char>>,
    pub new_text: Option<Seq<char>>,
    pub row_type: Seq<char>,
    pub word_changes: Option<Seq<(Seq<char>, Option<bool>, Option<bool>)>>,
    pub block_id: Option<Seq<char>>,
}

impl View for SideBySideDiffRowOutput {
    type V = RowView;

    open spec fn view(&self) -> RowView {
        RowView {
            old_line_number: self.old_line_number,
            new_line_number: self.new_line_number,
            old_text: opt_text(self.old_text),
            new_text: opt_text(self.new_text),
            row_type: self.row_type@,
            word_changes: match self.word_changes {
                Some(v) => Some(word_changes_view(v@)),
                None => None,
            },
            block_id: opt_text(self.block_id),
        }
    }
}

/// The values of a sequence of rows.
pub open spec fn rows_view(rows: Seq<SideBySideDiffRowOutput>) -> Seq<RowView> {
    rows.map_values(|r: SideBySideDiffRowOutput| r@)
}

} // verus!
