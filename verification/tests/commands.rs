use std::sync::Arc;

use revier_analysis::attribution::context::{
    attribution_index_warnings, first_unindexed, index_gap_message,
};
use revier_analysis::attribution::deletion_trace::{
    candidate_path_set, deletion_related_commits, initial_deletion_paths, line_window_matches,
    DeletionTraceCandidate,
};
use revier_analysis::cli::{OutputFormat, OverlayCommonArgs, SpikeFixture, TraceBlockArgs};
use revier_analysis::commands::index_build::{collect_missing_file_changes, missing_commits};
use revier_analysis::commands::index_status::missing_index_status;
use revier_analysis::commands::trace_block;
use revier_analysis::error::AppError;
use revier_analysis::execution::{
    AnalysisExecutionContext, CancellationSignal, OperationProgressReporter, OperationProgressUpdate,
};
use std::sync::Mutex;
use revier_analysis::git::commits::IndexedCommit;
use revier_analysis::git::diff::{file_change_from_tree_change, CommitFileChange, TreeChange};
use revier_analysis::json::{CheckStatus, IndexStatusKind, SpikeDecision, SpikeOutput};
use revier_analysis::overlay::file_overlay::{check_overlay_change, new_text_path, old_text_path};
use revier_analysis::spike::{decide, fixture_name, spike_check};

fn commit(hash: &str) -> IndexedCommit {
    IndexedCommit {
        hash: hash.to_string(),
        short_hash: hash.to_string(),
        author_name: "测试作者".to_string(),
        author_email: None,
        author_key: "测试作者".to_string(),
        committed_at: "2026-07-22T00:00:00Z".to_string(),
        subject: "测试提交".to_string(),
        parents: Vec::new(),
        is_merge: false,
    }
}

struct Flag(bool);

impl CancellationSignal for Flag {
    fn is_cancelled(&self) -> bool {
        self.0
    }
}

#[test]
fn cancellation_is_reported_as_cancelled() {
    let none = AnalysisExecutionContext::none();
    assert!(!none.is_cancelled());
    assert_eq!(none.check_cancelled(), Ok(()));
    let stopped = AnalysisExecutionContext::with_cancel(Some(Arc::new(Flag(true))));
    assert_eq!(stopped.check_cancelled(), Err(AppError::Cancelled));
    let running = AnalysisExecutionContext::with_cancel(Some(Arc::new(Flag(false))));
    assert!(!running.is_cancelled());
}

#[test]
fn trace_block_is_not_served_yet() {
    let args = TraceBlockArgs {
        common: OverlayCommonArgs {
            repo: std::path::PathBuf::from("."),
            db: None,
            base: "b".to_string(),
            head: "h".to_string(),
            branch: "main".to_string(),
            globs: Vec::new(),
            authors: Vec::new(),
            author_query: None,
            message: None,
            require_index: false,
            format: OutputFormat::Json,
            pretty: false,
        },
        file: "src/app.txt".to_string(),
        block_id: None,
        old_start: None,
        old_end: None,
        new_start: None,
        new_end: None,
    };
    assert_eq!(
        trace_block::run(args),
        Err(AppError::Analysis(
            "trace-block 命令契约已注册，单块追踪尚未接入".to_string()
        ))
    );
}

#[test]
fn spike_decides_by_its_checks() {
    assert_eq!(fixture_name(&SpikeFixture::RenameMerge), "rename-merge");
    let mut output = SpikeOutput::new("linear");
    output.checks.push(spike_check("gix-parent-ids", true));
    decide(&mut output);
    assert_eq!(output.decision, SpikeDecision::GixOnly);
    output.checks.push(spike_check("gix-blame", false));
    assert_eq!(output.checks[1].status, CheckStatus::Fail);
    decide(&mut output);
    assert_eq!(output.decision, SpikeDecision::AlgorithmAdjustmentRequired);
}

#[test]
fn missing_index_is_reported() {
    let status = missing_index_status("repo-1".to_string());
    assert_eq!(status.status, IndexStatusKind::Missing);
    assert_eq!(status.schema_version, 0);
    assert_eq!(status.warnings, vec!["索引文件不存在".to_string()]);
}

#[test]
fn only_unindexed_commits_are_built() {
    let missing = missing_commits(
        vec![commit("old"), commit("new-1"), commit("new-2")],
        &vec!["old".to_string()],
    );
    let hashes: Vec<&str> = missing.iter().map(|c| c.hash.as_str()).collect();
    assert_eq!(hashes, vec!["new-1", "new-2"]);
}

#[test]
fn tree_changes_become_file_changes() {
    let renamed = file_change_from_tree_change(
        TreeChange::Rewrite {
            source_location: "src/old.txt".to_string(),
            location: "src/new.txt".to_string(),
            copy: false,
            source_is_tree: false,
            source_id: "s".to_string(),
            source_binary: false,
            is_tree: false,
            id: "n".to_string(),
            binary: true,
        },
        "c",
        "p",
        0,
        true,
    )
    .expect("重命名是文件变更");
    assert_eq!(renamed.status, "renamed");
    assert_eq!(renamed.old_path.as_deref(), Some("src/old.txt"));
    assert!(renamed.is_binary);
    assert!(!renamed.is_previewable);

    let uninspected = file_change_from_tree_change(
        TreeChange::Addition { location: "a".to_string(), is_tree: false, id: "i".to_string(), binary: true },
        "c",
        "p",
        1,
        false,
    )
    .expect("新增是文件变更");
    assert_eq!(uninspected.status, "added");
    assert!(!uninspected.is_binary);
    assert_eq!(uninspected.parent_index, 1);

    assert!(file_change_from_tree_change(
        TreeChange::Deletion { location: "dir".to_string(), is_tree: true, id: "t".to_string(), binary: false },
        "c",
        "p",
        0,
        true,
    )
    .is_none());
}

fn change(path: &str, old_path: Option<&str>, status: &str, binary: bool) -> CommitFileChange {
    CommitFileChange {
        commit_hash: "c".to_string(),
        parent_hash: "p".to_string(),
        parent_index: 0,
        path: path.to_string(),
        old_path: old_path.map(ToString::to_string),
        status: status.to_string(),
        additions: 0,
        deletions: 0,
        is_binary: binary,
        is_previewable: !binary,
        old_blob_id: None,
        new_blob_id: None,
    }
}

#[test]
fn overlay_paths_and_refusals() {
    let renamed = change("new.txt", Some("old.txt"), "renamed", false);
    assert_eq!(old_text_path(&renamed), Some("old.txt"));
    assert_eq!(new_text_path(&renamed), Some("new.txt"));
    let added = change("a.txt", None, "added", false);
    assert_eq!(old_text_path(&added), None);
    let deleted = change("d.txt", None, "deleted", false);
    assert_eq!(new_text_path(&deleted), None);
    assert_eq!(
        check_overlay_change(None, "x.txt"),
        Err(AppError::FileNotAnalyzable("文件在范围内未变更：x.txt".to_string()))
    );
    let binary = change("b.bin", None, "modified", true);
    assert_eq!(
        check_overlay_change(Some(&binary), "b.bin"),
        Err(AppError::FileNotAnalyzable("文件包含二进制内容：b.bin".to_string()))
    );
}

#[test]
fn deletion_trace_needs_exactly_one_candidate() {
    let candidates = || DeletionTraceCandidate {
        commit: commit("del"),
        matched_by_filter: true,
        touched_ranges: Vec::new(),
    };
    let one = deletion_related_commits(vec![candidates()]);
    assert_eq!(one.len(), 1);
    assert_eq!(
        one[0].attribution.as_ref().map(|a| a.method.as_str()),
        Some("deletion-trace")
    );
    assert!(deletion_related_commits(vec![candidates(), candidates()]).is_empty());

    let set = candidate_path_set(&["a".to_string(), "a".to_string()], "b", Some("c"));
    assert_eq!(set, vec!["a".to_string(), "b".to_string(), "c".to_string()]);
    assert!(initial_deletion_paths("z", None, &set).is_empty());
    assert_eq!(initial_deletion_paths("b", Some("c"), &set), vec!["c".to_string()]);
}

#[test]
fn deleted_lines_match_only_their_exact_window() {
    let expected = vec!["b".to_string(), "c".to_string()];
    assert!(line_window_matches("a\nb\nc\nd\n", 2, 3, &expected));
    assert!(!line_window_matches("a\nb\nc\nd\n", 1, 2, &expected));
    assert!(!line_window_matches("a\nb\n", 2, 3, &expected));
    assert!(!line_window_matches("a\nb\nc\n", 0, 1, &expected));
}

#[test]
fn index_gaps_are_reported_in_order() {
    assert_eq!(
        index_gap_message("/tmp/x.duckdb", "h", false, false, Some("c")),
        Some("索引文件不存在：/tmp/x.duckdb".to_string())
    );
    assert_eq!(
        index_gap_message("/tmp/x.duckdb", "h", true, false, Some("c")),
        Some("查询范围 head h 未被索引，请先执行 index build".to_string())
    );
    assert_eq!(
        index_gap_message("/tmp/x.duckdb", "h", true, true, Some("c")),
        Some("查询范围提交 c 未被索引，请先执行 index build".to_string())
    );
    assert_eq!(index_gap_message("/tmp/x.duckdb", "h", true, true, None), None);
    let indexed = vec!["a".to_string(), "b".to_string()];
    let range = vec!["a".to_string(), "c".to_string(), "d".to_string()];
    assert_eq!(first_unindexed(&range, &indexed), Some("c".to_string()));
    assert_eq!(first_unindexed(&range[..1], &indexed), None);
}

#[test]
fn a_missing_index_warns_or_fails_as_required() {
    assert_eq!(attribution_index_warnings(true, None), Ok(Vec::new()));
    assert_eq!(
        attribution_index_warnings(false, Some("gap".to_string())),
        Ok(vec!["索引不可用，已即时计算 overlay 结果".to_string()])
    );
    assert_eq!(
        attribution_index_warnings(true, Some("gap".to_string())),
        Err(AppError::RequiredIndexUnavailable("gap".to_string()))
    );
}

#[test]
fn diff_is_called_once_for_each_missing_commit() {
    let commits = [commit("new-1"), commit("new-2")];
    let mut calls = Vec::new();

    let files = collect_missing_file_changes(
        &commits,
        &AnalysisExecutionContext::none(),
        |hash| {
            calls.push(hash.to_string());
            Ok(Vec::new())
        },
    )
    .expect("计算缺失提交差异失败");

    assert!(files.is_empty());
    assert_eq!(calls, vec!["new-1", "new-2"]);
}

#[test]
fn missing_commit_diffs_stop_at_the_first_failure() {
    let commits = [commit("new-1"), commit("new-2")];
    let mut calls = Vec::new();
    let result = collect_missing_file_changes(&commits, &AnalysisExecutionContext::none(), |hash| {
        calls.push(hash.to_string());
        Err(AppError::Repository("diff broken".to_string()))
    });
    assert!(matches!(result, Err(AppError::Repository(_))));
    assert_eq!(calls, vec!["new-1"]);
}

struct Recorder(Mutex<Vec<(String, Option<u64>, Option<u64>)>>);

impl OperationProgressReporter for Recorder {
    fn report(&self, update: OperationProgressUpdate) {
        self.0
            .lock()
            .expect("recorder lock")
            .push((update.message, update.completed_units, update.total_units));
    }
}

#[test]
fn progress_is_reported_before_and_after_each_commit() {
    let recorder = Arc::new(Recorder(Mutex::new(Vec::new())));
    let context = AnalysisExecutionContext::with_progress(Some(recorder.clone()));
    let commits = [commit("new-1"), commit("new-2")];
    collect_missing_file_changes(&commits, &context, |_| Ok(Vec::new())).expect("diffs succeed");
    let reports = recorder.0.lock().expect("recorder lock").clone();
    let counts: Vec<(Option<u64>, Option<u64>)> = reports.iter().map(|r| (r.1, r.2)).collect();
    assert_eq!(counts, vec![(Some(0), Some(2)), (Some(1), Some(2)), (Some(2), Some(2))]);
    assert!(reports.iter().all(|r| r.0 == "计算缺失提交差异"));
    let both = AnalysisExecutionContext::with_cancel_and_progress(Some(Arc::new(Flag(true))), Some(recorder.clone()));
    assert!(matches!(
        collect_missing_file_changes(&commits, &both, |_| Ok(Vec::new())),
        Err(AppError::Cancelled)
    ));
}
