//! The values exchanged with the review front end.
use vstd::prelude::*;

verus! {

/// Identifies a review project.
pub type ProjectId = String;

/// Identifies an analysis task.
pub type TaskId = String;

/// The text encoding a user asks for, or automatic detection.
#[derive(Debug, Clone, Copy, PartialEq, Eq, Structural)]
pub enum TextEncoding {
    Auto,
    Utf8,
    Gb18030,
    Utf16Le,
    Utf16Be,
}

/// The encoding a text was actually read with.
#[derive(Debug, Clone, Copy, PartialEq, Eq, Structural)]
pub enum ResolvedTextEncoding {
    Utf8,
    Gb18030,
    Utf16Le,
    Utf16Be,
}

/// Whether the editor follows the system theme or a fixed one.
#[derive(Debug, Clone, Copy, PartialEq, Eq, Structural)]
pub enum EditorThemeMode {
    System,
    Light,
    Dark,
}

/// The editor's font.
#[derive(Debug, Clone)]
pub struct EditorFontSettings {
    pub font_families: Vec<String>,
    pub font_size: u32,
    pub line_height: u32,
    pub minimap: bool,
}

/// When a file counts as large and how it is shown.
#[derive(Debug, Clone)]
pub struct LargeFileSettings {
    pub max_bytes: u64,
    pub max_lines: u64,
}

/// The colors of syntax highlighting.
#[derive(Debug, Clone)]
pub struct EditorSyntaxColors {
    pub comment: String,
    pub keyword: String,
    pub string: String,
    pub number: String,
    pub type_color: String,
    pub function: String,
    pub variable: String,
}

/// The colors of an editor theme.
#[derive(Debug, Clone)]
pub struct EditorThemeColors {
    pub workspace_background: String,
    pub panel_background: String,
    pub editor_background: String,
    pub border: String,
    pub foreground: String,
    pub muted: String,
    pub accent: String,
    pub selection: String,
    pub diff_removed: String,
    pub diff_removed_strong: String,
    pub diff_removed_word: String,
    pub diff_added: String,
    pub diff_added_strong: String,
    pub diff_added_word: String,
    pub syntax: EditorSyntaxColors,
}

/// The light and dark editor themes.
#[derive(Debug, Clone)]
pub struct EditorThemes {
    pub light: EditorThemeColors,
    pub dark: EditorThemeColors,
}

/// The editor's settings.
#[derive(Debug, Clone)]
pub struct EditorSettings {
    pub version: u32,
    pub theme: EditorThemeMode,
    pub default_encoding: TextEncoding,
    pub editor: EditorFontSettings,
    pub large_file: LargeFileSettings,
    pub themes: EditorThemes,
}

/// The editor's settings with their defaults.
#[derive(Debug, Clone)]
pub struct EditorSettingsSnapshot {
    pub settings: EditorSettings,
    pub config_path: String,
    pub warning: Option<String>,
}

/// An error as the user interface receives it: a code and a message.
#[derive(Debug, Clone)]
pub struct AppError {
    pub code: String,
    pub message: String,
    pub detail: Option<String>,
}

/// The review filter a project remembers.
#[derive(Debug, Clone)]
pub struct ProjectReviewFilters {
    pub branch: Option<String>,
    pub start_at: Option<String>,
    pub end_at: Option<String>,
    pub author_keys: Option<Vec<String>>,
    pub author_query: Option<String>,
    pub message_query: Option<String>,
    pub glob_rules: Option<Vec<String>>,
}

/// What a project remembers between sessions.
#[derive(Debug, Clone)]
pub struct ProjectPreferences {
    pub default_branch: Option<String>,
    pub default_days: Option<u32>,
    pub default_glob_rules: Vec<String>,
    pub review_filters: Option<ProjectReviewFilters>,
}

/// A local repository added as a review project.
#[derive(Debug, Clone)]
pub struct ReviewProject {
    pub id: ProjectId,
    pub name: String,
    pub repo_path: String,
    pub pinned: bool,
    pub last_opened_at: Option<String>,
    pub preferences: ProjectPreferences,
}

/// Whether a directory is a Git repository, with its work tree and current branch.
#[derive(Debug, Clone)]
pub struct RepositoryValidation {
    pub valid: bool,
    pub repo_path: String,
    pub current_branch: Option<String>,
    pub error: Option<String>,
}

/// A local branch, marked when it is the current one.
#[derive(Debug, Clone)]
pub struct GitBranch {
    pub name: String,
    pub current: bool,
}

/// A directory the user picked.
#[derive(Debug, Clone)]
pub struct DirectorySelection {
    pub path: String,
    pub name: String,
}

/// The filter of a review: branch, time window, authors, message and globs.
#[derive(Debug, Clone)]
pub struct ReviewFilters {
    pub project_id: ProjectId,
    pub branch: String,
    pub start_at: Option<String>,
    pub end_at: Option<String>,
    pub author_keys: Option<Vec<String>>,
    pub author_query: Option<String>,
    pub message_query: Option<String>,
    pub glob_rules: Vec<String>,
}

/// The commit range an analysis covers.
#[derive(Debug, Clone)]
pub struct AnalysisRange {
    pub branch: String,
    pub base_commit: String,
    pub head_commit: String,
    pub start_at: Option<String>,
    pub end_at: Option<String>,
}

/// Where an analysis task stands.
#[derive(Debug, Clone)]
pub enum AnalysisTaskStatus {
    Pending,
    Running,
    Completed,
    Failed,
    Cancelled,
}

/// The stage an analysis task is at.
#[derive(Debug, Clone)]
pub enum AnalysisStage {
    ReadRepository,
    ResolveRange,
    LoadCommits,
    LoadChangedFiles,
    Ready,
}

/// How a file changed.
#[derive(Debug, Clone)]
pub enum ChangedFileStatus {
    Added,
    Modified,
    Deleted,
    Renamed,
    Binary,
}

/// A file that changed in the range, with its line statistics.
#[derive(Debug, Clone)]
pub struct ChangedFile {
    pub path: String,
    pub old_path: Option<String>,
    pub status: ChangedFileStatus,
    pub additions: u64,
    pub deletions: u64,
    pub is_binary: bool,
    pub is_previewable: bool,
}

/// A request for the overlay of one file.
#[derive(Debug, Clone)]
pub struct FileOverlayRequest {
    pub task_id: TaskId,
    pub file_path: String,
    pub encoding: Option<TextEncoding>,
}

/// A request for the authors a review can filter by.
#[derive(Debug, Clone)]
pub struct ReviewAuthorOptionsRequest {
    pub project_id: ProjectId,
    pub branch: String,
    pub start_at: Option<String>,
    pub end_at: Option<String>,
}

/// A request for the overlay of one commit on one file.
#[derive(Debug, Clone)]
pub struct CommitOverlayRequest {
    pub task_id: TaskId,
    pub file_path: String,
    pub commit_hash: String,
    pub encoding: Option<TextEncoding>,
}

/// An author of changed lines.
#[derive(Debug, Clone)]
pub struct AuthorSummary {
    pub name: String,
    pub email: Option<String>,
    pub commit_count: u64,
    pub last_committed_at: String,
}

/// An author the review can filter by.
#[derive(Debug, Clone)]
pub struct AuthorFilterOption {
    pub key: String,
    pub name: String,
    pub email: Option<String>,
    pub commit_count: u64,
}

/// How sure an attribution is.
#[derive(Debug, Clone)]
pub enum AttributionConfidence {
    Precise,
    Inferred,
    Partial,
}

/// Why an attribution is less than precise.
#[derive(Debug, Clone)]
pub enum AttributionWarningCode {
    BlameUnavailable,
    MergeTraceAmbiguous,
    PathHistoryIncomplete,
    DeletionTraceIncomplete,
    EofNewlineAttributionUnavailable,
}

/// A warning attached to an attribution.
#[derive(Debug, Clone)]
pub struct AttributionWarning {
    pub code: AttributionWarningCode,
    pub message: String,
}

/// The attribution of a block: its confidence and warnings.
#[derive(Debug, Clone)]
pub struct BlockAttributionSummary {
    pub confidence: AttributionConfidence,
    pub warnings: Vec<AttributionWarning>,
}

/// How a commit was found to have written a block.
#[derive(Debug, Clone)]
pub enum AttributionMethod {
    Blame,
    MergeTrace,
    PatchInference,
    DeletionTrace,
}

/// How a related commit was found, and through which merges.
#[derive(Debug, Clone)]
pub struct RelatedCommitAttribution {
    pub method: AttributionMethod,
    pub via_merge_hashes: Vec<String>,
}

/// The old and new line ranges a commit touched.
#[derive(Debug, Clone)]
pub struct TouchedRange {
    pub old_start: Option<u64>,
    pub old_end: Option<u64>,
    pub new_start: Option<u64>,
    pub new_end: Option<u64>,
}

/// A commit related to a block.
#[derive(Debug, Clone)]
pub struct RelatedCommit {
    pub hash: String,
    pub short_hash: String,
    pub author_name: String,
    pub author_email: Option<String>,
    pub committed_at: String,
    pub subject: String,
    pub matched_by_filter: bool,
    pub touched_ranges: Vec<TouchedRange>,
    pub attribution: Option<RelatedCommitAttribution>,
}

/// A piece of a changed line, marked as added or removed.
#[derive(Debug, Clone)]
pub struct WordChange {
    pub value: String,
    pub added: Option<bool>,
    pub removed: Option<bool>,
}

/// The kind of a side-by-side diff row.
#[derive(Debug, Clone)]
pub enum SideBySideDiffRowType {
    Context,
    Added,
    Deleted,
    Modified,
}

/// One row of a side-by-side diff.
#[derive(Debug, Clone)]
pub struct SideBySideDiffRow {
    pub old_line_number: Option<u64>,
    pub new_line_number: Option<u64>,
    pub old_text: Option<String>,
    pub new_text: Option<String>,
    pub row_type: SideBySideDiffRowType,
    pub word_changes: Option<Vec<WordChange>>,
    pub block_id: Option<String>,
}

/// The kind of a change block.
#[derive(Debug, Clone, Copy, PartialEq, Eq, Structural)]
pub enum DiffBlockChangeType {
    Added,
    Deleted,
    Modified,
}

/// A block of changed rows with its attribution.
#[derive(Debug, Clone)]
pub struct DiffBlock {
    pub id: String,
    pub old_start: u64,
    pub old_end: u64,
    pub new_start: u64,
    pub new_end: u64,
    pub row_start_index: Option<u64>,
    pub row_end_index: Option<u64>,
    pub change_type: DiffBlockChangeType,
    pub authors: Vec<AuthorSummary>,
    pub rows: Vec<SideBySideDiffRow>,
    pub related_commits: Vec<RelatedCommit>,
    pub attribution: Option<BlockAttributionSummary>,
}

/// The old and new line ranges of a block.
#[derive(Debug, Clone)]
pub struct DiffBlockRange {
    pub id: String,
    pub old_start: u64,
    pub old_end: u64,
    pub new_start: u64,
    pub new_end: u64,
    pub change_type: DiffBlockChangeType,
}

/// A request to attribute blocks of a file.
#[derive(Debug, Clone)]
pub struct AttributeBlocksRequest {
    pub task_id: TaskId,
    pub file_path: String,
    pub resolved_encoding: ResolvedTextEncoding,
    pub blocks: Vec<DiffBlockRange>,
}

/// The attribution found for one block.
#[derive(Debug, Clone)]
pub struct DiffBlockAttribution {
    pub id: String,
    pub authors: Vec<AuthorSummary>,
    pub related_commits: Vec<RelatedCommit>,
    pub attribution: Option<BlockAttributionSummary>,
}

/// The attributions found for a file's blocks.
#[derive(Debug, Clone)]
pub struct AttributeBlocksResult {
    pub resolved_encoding: ResolvedTextEncoding,
    pub attributions: Vec<DiffBlockAttribution>,
    pub warnings: Vec<AppError>,
}

/// Whether an overlay covers a range or one commit.
#[derive(Debug, Clone)]
pub enum FileOverlayMode {
    Range,
    Commit,
}

/// The overlay of a file: its rows, blocks and contents.
#[derive(Debug, Clone)]
pub struct FileOverlay {
    pub mode: Option<FileOverlayMode>,
    pub file: ChangedFile,
    pub range: AnalysisRange,
    pub rows: Option<Vec<SideBySideDiffRow>>,
    pub blocks: Vec<DiffBlock>,
    pub warnings: Vec<AppError>,
    pub commit: Option<RelatedCommit>,
    pub parent_hash: Option<String>,
    pub old_content: String,
    pub new_content: String,
    pub resolved_encoding: ResolvedTextEncoding,
}

/// The stages that long-running operations report progress for.
#[derive(Debug, Clone, Copy, PartialEq, Eq, Structural)]
pub enum OperationStage {
    ReadRepository,
    IndexCommits,
    WriteIndex,
    FilterFiles,
    ComputeFileStatistics,
}

/// Whether a branch's cached analysis can be reused.
#[derive(Debug, Clone, Copy, PartialEq, Eq, Structural)]
pub enum CacheState {
    Hit,
    Stale,
    Miss,
}

} // verus!
