use revier_analysis::attribution::blame::{
    attach_blame_attribution_with, attach_block_blame_attribution_with_resolver, matched_by_filter,
    resolve_blame_range_result, resolve_related_commits_from_blame_lines, BlameResolution,
};
use revier_analysis::git::blame::BlameLine;
use revier_analysis::attribution::merge_trace::{
    deduplicate_related_commits, full_window_matches, parent_candidate_from_text, resolve_merge_commit,
    MergeTraceState, WindowMatch,
};
use revier_analysis::attribution::deletion_trace::{
    attach_block_deletion_trace_with, attach_deletion_trace_with,
};
use revier_analysis::attribution::patch_inference::{attach_patch_inference_with, FilterMatcher};
use revier_analysis::git::diff::CommitFileChange;
use revier_analysis::error::AppError;
use revier_analysis::git::commits::{author_key, IndexedCommit};
use revier_analysis::json::{
    AuthorOutput, DiffBlockOutput, RelatedCommitAttributionOutput, RelatedCommitOutput,
    SideBySideDiffRowOutput, TouchedRangeOutput,
};

fn indexed_commit(name: &str, email: Option<&str>, subject: &str) -> IndexedCommit {
    IndexedCommit {
        hash: "0123456789abcdef0123456789abcdef01234567".to_string(),
        short_hash: "01234567".to_string(),
        author_name: name.to_string(),
        author_email: email.map(ToString::to_string),
        author_key: author_key(name, email),
        committed_at: "2026-05-02T00:00:00+00:00".to_string(),
        subject: subject.to_string(),
        parents: vec!["fedcba9876543210fedcba9876543210fedcba98".to_string()],
        is_merge: false,
    }
}

fn related_commit(commit: &IndexedCommit, matched_by_filter: bool) -> RelatedCommitOutput {
    RelatedCommitOutput {
        hash: commit.hash.clone(),
        short_hash: commit.short_hash.clone(),
        author_name: commit.author_name.clone(),
        author_email: commit.author_email.clone(),
        committed_at: commit.committed_at.clone(),
        subject: commit.subject.clone(),
        matched_by_filter,
        touched_ranges: vec![TouchedRangeOutput {
            old_start: None,
            old_end: None,
            new_start: Some(2),
            new_end: Some(2),
        }],
        attribution: None,
    }
}

fn diff_block(
    old_start: usize,
    old_end: usize,
    new_start: usize,
    new_end: usize,
    authors: Vec<AuthorOutput>,
    related_commits: Vec<RelatedCommitOutput>,
) -> DiffBlockOutput {
    DiffBlockOutput {
        id: "block-1".to_string(),
        old_start,
        old_end,
        new_start,
        new_end,
        row_start_index: None,
        row_end_index: None,
        change_type: if new_start == 0 {
            "deleted".to_string()
        } else {
            "added".to_string()
        },
        authors,
        rows: Vec::<SideBySideDiffRowOutput>::new(),
        related_commits,
        attribution: None,
    }
}

#[test]
fn missing_previous_blame_commit_matches_when_filter_is_inactive() {
    let commit = indexed_commit("Alice", Some("alice@example.com"), "feat: alice change");
    let filter = FilterMatcher::new(&[], None, None);

    assert!(matched_by_filter(None, &commit, &filter));
}

#[test]
fn missing_previous_blame_commit_uses_active_filter() {
    let commit = indexed_commit("Alice", Some("alice@example.com"), "feat: alice change");
    let filter = FilterMatcher::new(&[], Some("bob@example.com"), None);

    assert!(!matched_by_filter(None, &commit, &filter));
}

#[test]
fn previous_blame_candidate_match_result_has_priority() {
    let commit = indexed_commit("Alice", Some("alice@example.com"), "feat: alice change");
    let previous = related_commit(&commit, false);
    let filter = FilterMatcher::new(&[], None, None);

    assert!(!matched_by_filter(Some(&previous), &commit, &filter));
}

#[test]
fn resolver_error_is_returned_instead_of_inferred_warning() {
    let block = diff_block(0, 0, 2, 2, Vec::new(), Vec::new());

    let result = attach_block_blame_attribution_with_resolver(block, |_| {
        Err(AppError::Repository("resolver broken".to_string()))
    });

    assert!(
        matches!(result, Err(AppError::Repository(ref message)) if message == "resolver broken"),
        "resolver 硬错误应返回，实际为 {result:?}"
    );
}

#[test]
fn unavailable_blame_keeps_patch_inference_and_sets_blame_warning() {
    let commit = indexed_commit("Alice", Some("alice@example.com"), "feat: alice change");
    let related_commit = related_commit(&commit, true);
    let author = AuthorOutput {
        name: commit.author_name.clone(),
        email: commit.author_email.clone(),
    };
    let block = diff_block(
        0,
        0,
        2,
        2,
        vec![author.clone()],
        vec![related_commit.clone()],
    );

    let result =
        attach_block_blame_attribution_with_resolver(block, |_| Ok(BlameResolution::Unavailable))
            .expect("blame 不可用 fallback 应成功");

    assert_eq!(result.related_commits.len(), 1);
    assert_eq!(result.related_commits[0].hash, related_commit.hash);
    assert_eq!(result.authors.len(), 1);
    assert_eq!(result.authors[0].name, author.name);
    assert_eq!(result.authors[0].email, author.email);
    let attribution = result.attribution.expect("fallback 应设置 attribution");
    assert_eq!(attribution.confidence, "inferred");
    assert_eq!(attribution.warnings.len(), 1);
    assert_eq!(attribution.warnings[0].code, "BLAME_UNAVAILABLE");
}

#[test]
fn deleted_block_keeps_patch_inference_and_sets_deletion_warning() {
    let commit = indexed_commit("Alice", Some("alice@example.com"), "feat: alice change");
    let related_commit = related_commit(&commit, true);
    let author = AuthorOutput {
        name: commit.author_name.clone(),
        email: commit.author_email.clone(),
    };
    let block = diff_block(
        2,
        2,
        0,
        0,
        vec![author.clone()],
        vec![related_commit.clone()],
    );

    let result = attach_block_blame_attribution_with_resolver(block, |_| {
        panic!("删除块不应执行 blame resolver")
    })
    .expect("删除块归因应成功");

    assert_eq!(result.related_commits.len(), 1);
    assert_eq!(result.related_commits[0].hash, related_commit.hash);
    assert_eq!(result.authors.len(), 1);
    assert_eq!(result.authors[0].name, author.name);
    assert_eq!(result.authors[0].email, author.email);
    let attribution = result.attribution.expect("删除块应设置 attribution");
    assert_eq!(attribution.confidence, "inferred");
    assert_eq!(attribution.warnings.len(), 1);
    assert_eq!(attribution.warnings[0].code, "DELETION_TRACE_INCOMPLETE");
}

fn related_commit_stub(hash: &str) -> RelatedCommitOutput {
    RelatedCommitOutput {
        hash: hash.to_string(),
        short_hash: hash.to_string(),
        author_name: "fixture".to_string(),
        author_email: Some("fixture@example.com".to_string()),
        committed_at: "2026-01-01T00:00:00+00:00".to_string(),
        subject: format!("subject {hash}"),
        matched_by_filter: true,
        touched_ranges: vec![TouchedRangeOutput {
            old_start: Some(1),
            old_end: Some(1),
            new_start: Some(1),
            new_end: Some(1),
        }],
        attribution: Some(RelatedCommitAttributionOutput {
            method: "merge-trace".to_string(),
            via_merge_hashes: vec![hash.to_string()],
        }),
    }
}

#[test]
fn deduplicates_related_commits_by_hash() {
    let mut commits = vec![
        related_commit_stub("A"),
        related_commit_stub("A"),
        related_commit_stub("B"),
        related_commit_stub("A"),
    ];

    deduplicate_related_commits(&mut commits);

    assert_eq!(commits.len(), 2);
    assert_eq!(
        commits
            .iter()
            .map(|commit| commit.hash.as_str())
            .collect::<Vec<_>>(),
        vec!["A", "B"]
    );
}

#[test]
fn full_window_matches_handles_multiple_and_none() {
    assert_eq!(
        full_window_matches("a\nb\nc\n", &["x".to_string()], 2),
        WindowMatch::NoMatch
    );
    assert_eq!(
        full_window_matches("a\nx\nb\nx\n", &["x".to_string()], 2),
        WindowMatch::Multiple
    );
    assert_eq!(
        full_window_matches("a\nx\nb\n", &["x".to_string()], 4),
        WindowMatch::NoMatch
    );
}

#[test]
fn parent_text_places_moves_or_flags_the_block() {
    let lines = vec!["x".to_string(), "y".to_string()];
    let block = diff_block(0, 0, 2, 3, Vec::new(), Vec::new());
    let (same, ambiguous) =
        parent_candidate_from_text("a\nx\ny\n", block.clone(), &lines).expect("lines in place");
    assert!(!ambiguous);
    assert_eq!((same.new_start, same.new_end), (2, 3));
    let (moved, ambiguous) =
        parent_candidate_from_text("a\nb\nx\ny\n", block.clone(), &lines).expect("lines one below");
    assert!(!ambiguous);
    assert_eq!((moved.new_start, moved.new_end), (3, 4));
    let (flagged, ambiguous) = parent_candidate_from_text("x\ny\nb\nx\ny\n", block.clone(), &lines)
        .expect("lines twice");
    assert!(ambiguous);
    assert_eq!((flagged.new_start, flagged.new_end), (2, 3));
    assert!(parent_candidate_from_text("a\nb\n", block, &lines).is_none());
}

fn commit_named(hash: &str, parents: &[&str]) -> IndexedCommit {
    IndexedCommit {
        hash: hash.to_string(),
        short_hash: hash.to_string(),
        author_name: format!("author-{hash}"),
        author_email: None,
        author_key: format!("author-{hash}"),
        committed_at: "2026-05-02T00:00:00+00:00".to_string(),
        subject: format!("subject-{hash}"),
        parents: parents.iter().map(|p| p.to_string()).collect(),
        is_merge: parents.len() > 1,
    }
}

fn added_line_block(line: usize, text: &str) -> DiffBlockOutput {
    let mut block = diff_block(0, 0, line, line, Vec::new(), Vec::new());
    block.rows = vec![SideBySideDiffRowOutput {
        old_line_number: None,
        new_line_number: Some(line),
        old_text: None,
        new_text: Some(text.to_string()),
        row_type: "added".to_string(),
        word_changes: None,
        block_id: Some("block-1".to_string()),
    }];
    block
}

fn merge_fixture_text(hash: &str, _path: &str) -> Result<String, AppError> {
    match hash {
        "m" | "p1" => Ok("a\nX\nb\n".to_string()),
        "p2" => Ok("a\nb\n".to_string()),
        "q1" | "q2" => Ok("a\nX\nb\n".to_string()),
        _ => Err(AppError::Repository(format!("unknown commit {hash}"))),
    }
}

fn merge_fixture_commit(hash: &str) -> Result<IndexedCommit, AppError> {
    match hash {
        "m" => Ok(commit_named("m", &["p1", "p2"])),
        "n" => Ok(commit_named("n", &["q1", "q2"])),
        other => Ok(commit_named(other, &[])),
    }
}

fn merge_fixture_paths(_parent: &str, _commit: &str, path: &str) -> Result<Vec<String>, AppError> {
    Ok(vec![path.to_string()])
}

#[test]
fn merge_trace_replaces_a_merge_by_the_parent_that_wrote_the_block() {
    let filter = FilterMatcher::new(&[], None, None);
    let merge = commit_named("m", &["p1", "p2"]);
    let outcome = resolve_merge_commit(
        merge_fixture_text,
        merge_fixture_commit,
        merge_fixture_paths,
        &merge,
        "f.txt",
        &added_line_block(2, "X"),
        &filter,
        &[],
    )
    .expect("trace succeeds")
    .expect("a source is found");
    let hashes: Vec<&str> = outcome.related_commits.iter().map(|c| c.hash.as_str()).collect();
    assert_eq!(hashes, vec!["p1"]);
    assert!(outcome.replaced_merge_commit);
    assert!(!outcome.ambiguous);
    let via = &outcome.related_commits[0].attribution.as_ref().expect("merge-trace attribution").via_merge_hashes;
    assert_eq!(via, &vec!["m".to_string()]);
}

#[test]
fn merge_trace_marks_two_explaining_parents_ambiguous() {
    let filter = FilterMatcher::new(&[], None, None);
    let merge = commit_named("n", &["q1", "q2"]);
    let outcome = resolve_merge_commit(
        |hash: &str, path: &str| if hash == "n" { merge_fixture_text("m", path) } else { merge_fixture_text(hash, path) },
        merge_fixture_commit,
        merge_fixture_paths,
        &merge,
        "f.txt",
        &added_line_block(2, "X"),
        &filter,
        &[],
    )
    .expect("trace succeeds")
    .expect("sources are found");
    let hashes: Vec<&str> = outcome.related_commits.iter().map(|c| c.hash.as_str()).collect();
    assert_eq!(hashes, vec!["q1", "q2"]);
    assert!(outcome.ambiguous);
    assert!(outcome.replaced_merge_commit);
}

fn split_parent_text(hash: &str, _path: &str) -> Result<String, AppError> {
    match hash {
        "w" | "r2" => Ok("a\nX\nb\n".to_string()),
        "r1" => Ok("X\nc\nX\n".to_string()),
        _ => Err(AppError::Repository(format!("unknown commit {hash}"))),
    }
}

fn split_parent_commit(hash: &str) -> Result<IndexedCommit, AppError> {
    match hash {
        "w" => Ok(commit_named("w", &["r1", "r2"])),
        other => Ok(commit_named(other, &[])),
    }
}

#[test]
fn merge_trace_marks_a_parent_with_several_windows_ambiguous() {
    let filter = FilterMatcher::new(&[], None, None);
    let merge = commit_named("w", &["r1", "r2"]);
    let outcome = resolve_merge_commit(
        split_parent_text,
        split_parent_commit,
        merge_fixture_paths,
        &merge,
        "f.txt",
        &added_line_block(2, "X"),
        &filter,
        &[],
    )
    .expect("trace succeeds")
    .expect("a source is found");
    let hashes: Vec<&str> = outcome.related_commits.iter().map(|c| c.hash.as_str()).collect();
    assert_eq!(hashes, vec!["r2"]);
    assert!(outcome.ambiguous);
    assert!(outcome.replaced_merge_commit);
}

fn only_ambiguous_text(hash: &str, _path: &str) -> Result<String, AppError> {
    match hash {
        "v" => Ok("a\nX\nb\n".to_string()),
        "s1" => Ok("X\nc\nX\n".to_string()),
        "s2" => Ok("a\nb\n".to_string()),
        _ => Err(AppError::Repository(format!("unknown commit {hash}"))),
    }
}

fn only_ambiguous_commit(hash: &str) -> Result<IndexedCommit, AppError> {
    match hash {
        "v" => Ok(commit_named("v", &["s1", "s2"])),
        other => Ok(commit_named(other, &[])),
    }
}

#[test]
fn merge_trace_gives_nothing_when_parents_explain_but_name_no_source() {
    let filter = FilterMatcher::new(&[], None, None);
    let merge = commit_named("v", &["s1", "s2"]);
    let outcome = resolve_merge_commit(
        only_ambiguous_text,
        only_ambiguous_commit,
        merge_fixture_paths,
        &merge,
        "f.txt",
        &added_line_block(2, "X"),
        &filter,
        &[],
    )
    .expect("trace succeeds");
    assert!(outcome.is_none());
}

#[test]
fn merge_trace_fails_past_its_depth() {
    let filter = FilterMatcher::new(&[], None, None);
    let merge = commit_named("m", &["p1", "p2"]);
    let mut state = MergeTraceState::new();
    let result = state.resolve(
        merge_fixture_text,
        merge_fixture_commit,
        merge_fixture_paths,
        &merge,
        "f.txt",
        &added_line_block(2, "X"),
        &filter,
        &[],
        Vec::new(),
        false,
        0,
    );
    match result {
        Err(AppError::Analysis(message)) => assert_eq!(message, "合并追踪层数超出支持范围"),
        other => panic!("expected the depth error, got {other:?}"),
    }
    let mut fresh = MergeTraceState::new();
    let traced = fresh
        .resolve(
            merge_fixture_text,
            merge_fixture_commit,
            merge_fixture_paths,
            &merge,
            "f.txt",
            &added_line_block(2, "X"),
            &filter,
            &[],
            Vec::new(),
            false,
            1,
        )
        .expect("one level is enough")
        .expect("a source is found");
    assert_eq!(traced.related_commits.len(), 1);
    assert_eq!(traced.related_commits[0].hash, "p1");
}

#[test]
fn merge_trace_ignores_plain_commits_and_reports_read_failures() {
    let filter = FilterMatcher::new(&[], None, None);
    let plain = commit_named("p1", &[]);
    assert!(matches!(
        resolve_merge_commit(
            merge_fixture_text,
            merge_fixture_commit,
            merge_fixture_paths,
            &plain,
            "f.txt",
            &added_line_block(2, "X"),
            &filter,
            &[],
        ),
        Ok(None)
    ));
    let unknown = commit_named("zz", &["p1", "p2"]);
    assert!(matches!(
        resolve_merge_commit(
            merge_fixture_text,
            merge_fixture_commit,
            merge_fixture_paths,
            &unknown,
            "f.txt",
            &added_line_block(2, "X"),
            &filter,
            &[],
        ),
        Err(AppError::Repository(_))
    ));
}

#[test]
fn metadata_lookup_error_is_returned_instead_of_inferred_warning() {
    let block = diff_block(0, 0, 2, 2, Vec::new(), Vec::new());
    let filter = FilterMatcher::new(&[], None, None);
    let result = resolve_related_commits_from_blame_lines(
        &block,
        vec![BlameLine {
            line_number: 2,
            commit_hash: "missing-metadata".to_string(),
        }],
        &filter,
        |_| Err(AppError::Repository("metadata broken".to_string())),
    );

    assert!(
        matches!(result, Err(AppError::Repository(ref message)) if message == "metadata broken"),
        "元数据读取硬错误应返回，实际为 {result:?}"
    );
}

#[test]
fn blame_range_error_is_returned_instead_of_unavailable() {
    let block = diff_block(0, 0, 2, 2, Vec::new(), Vec::new());
    let filter = FilterMatcher::new(&[], None, None);

    let result = resolve_blame_range_result(
        &block,
        Err(AppError::Repository("blame broken".to_string())),
        &filter,
        |_| panic!("blame_range 失败后不应读取提交元数据"),
    );

    assert!(
        matches!(result, Err(AppError::Repository(ref message)) if message == "blame broken"),
        "blame_range 硬错误应返回，实际为 {result:?}"
    );
}

#[test]
fn blamed_lines_give_each_commit_once_in_order() {
    let block = diff_block(0, 0, 2, 4, Vec::new(), Vec::new());
    let filter = FilterMatcher::new(&[], None, None);
    let lines = vec![
        BlameLine { line_number: 2, commit_hash: "b".to_string() },
        BlameLine { line_number: 3, commit_hash: "a".to_string() },
        BlameLine { line_number: 4, commit_hash: "b".to_string() },
    ];
    let result = resolve_related_commits_from_blame_lines(&block, lines, &filter, |hash: &str| {
        Ok(commit_named(hash, &[]))
    })
    .expect("lookups succeed");
    match result {
        BlameResolution::Resolved(related) => {
            let hashes: Vec<&str> = related.iter().map(|c| c.hash.as_str()).collect();
            assert_eq!(hashes, vec!["b", "a"]);
            assert_eq!(related[0].attribution.as_ref().map(|a| a.method.as_str()), Some("blame"));
        }
        BlameResolution::Unavailable => panic!("blame named commits"),
    }
    let empty = resolve_related_commits_from_blame_lines(&block, Vec::new(), &filter, |hash: &str| {
        Ok(commit_named(hash, &[]))
    });
    assert!(matches!(empty, Ok(BlameResolution::Unavailable)));
}

#[test]
fn blame_attribution_blames_final_lines_and_warns_for_deletions() {
    let filter = FilterMatcher::new(&[], None, None);
    let blocks = vec![
        diff_block(0, 0, 2, 2, Vec::new(), Vec::new()),
        diff_block(3, 3, 0, 0, Vec::new(), Vec::new()),
    ];
    let out = attach_blame_attribution_with(
        |start: usize, _end: usize| {
            Ok(vec![BlameLine { line_number: start, commit_hash: "c1".to_string() }])
        },
        |hash: &str| Ok(commit_named(hash, &[])),
        blocks,
        &filter,
    )
    .expect("blame succeeds");
    assert_eq!(out.len(), 2);
    assert_eq!(out[0].related_commits.len(), 1);
    assert_eq!(out[0].related_commits[0].hash, "c1");
    assert_eq!(out[0].attribution.as_ref().map(|a| a.confidence.as_str()), Some("precise"));
    assert_eq!(out[1].attribution.as_ref().map(|a| a.warnings[0].code.as_str()), Some("DELETION_TRACE_INCOMPLETE"));
    let failed = attach_blame_attribution_with(
        |_: usize, _: usize| Err(AppError::Repository("blame broken".to_string())),
        |hash: &str| Ok(commit_named(hash, &[])),
        vec![diff_block(0, 0, 2, 2, Vec::new(), Vec::new())],
        &filter,
    );
    assert!(matches!(failed, Err(AppError::Repository(_))));
}

fn file_change(commit: &str, parent: &str, path: &str, status: &str) -> CommitFileChange {
    CommitFileChange {
        commit_hash: commit.to_string(),
        parent_hash: parent.to_string(),
        parent_index: 0,
        path: path.to_string(),
        old_path: None,
        status: status.to_string(),
        additions: 0,
        deletions: 0,
        is_binary: false,
        is_previewable: true,
        old_blob_id: None,
        new_blob_id: None,
    }
}

fn history_commit(hash: &str) -> Result<IndexedCommit, AppError> {
    Ok(commit_named(hash, &["p"]))
}

fn history_changes(hash: &str) -> Result<Vec<CommitFileChange>, AppError> {
    Ok(vec![file_change(hash, "p", "f.txt", "modified")])
}

fn history_text(hash: &str, _path: &str) -> Result<String, AppError> {
    match hash {
        "p" => Ok("a\nb\nc\n".to_string()),
        _ => Ok("a\nX\nc\n".to_string()),
    }
}

fn appending_text(hash: &str, _path: &str) -> Result<String, AppError> {
    match hash {
        "p" => Ok("a\nb\nc\n".to_string()),
        _ => Ok("a\nb\nc\nd\n".to_string()),
    }
}

fn deletion_text(hash: &str, _path: &str) -> Result<String, AppError> {
    match hash {
        "p" => Ok("a\nb\nc\n".to_string()),
        _ => Ok("a\nc\n".to_string()),
    }
}

#[test]
fn patch_inference_relates_blocks_to_commits_that_touched_them() {
    let filter = FilterMatcher::new(&[], None, None);
    let touched = diff_block(2, 2, 2, 2, Vec::new(), Vec::new());
    let untouched = diff_block(9, 9, 9, 9, Vec::new(), Vec::new());
    let out = attach_patch_inference_with(
        history_commit,
        history_changes,
        history_text,
        &["c1".to_string()],
        vec![touched, untouched],
        "f.txt",
        None,
        &filter,
    )
    .expect("inference succeeds");
    assert_eq!(out.len(), 2);
    assert_eq!(out[0].related_commits.len(), 1);
    assert_eq!(out[0].related_commits[0].hash, "c1");
    assert_eq!(
        out[0].related_commits[0].attribution.as_ref().map(|a| a.method.as_str()),
        Some("patch-inference")
    );
    assert_eq!(out[0].authors.len(), 1);
    assert!(out[1].related_commits.is_empty());
}

#[test]
fn deletion_trace_finds_the_commit_that_deleted_the_lines() {
    let filter = FilterMatcher::new(&[], None, None);
    let mut block = diff_block(2, 2, 0, 0, Vec::new(), Vec::new());
    block.rows = vec![SideBySideDiffRowOutput {
        old_line_number: Some(2),
        new_line_number: None,
        old_text: Some("b".to_string()),
        new_text: None,
        row_type: "deleted".to_string(),
        word_changes: None,
        block_id: Some("block-1".to_string()),
    }];
    let traced = attach_block_deletion_trace_with(
        history_commit,
        history_changes,
        deletion_text,
        &["c1".to_string()],
        block.clone(),
        &["f.txt".to_string()],
        "f.txt",
        None,
        &filter,
    )
    .expect("trace succeeds");
    assert_eq!(traced.related_commits.len(), 1);
    assert_eq!(traced.related_commits[0].hash, "c1");
    assert_eq!(
        traced.related_commits[0].attribution.as_ref().map(|a| a.method.as_str()),
        Some("deletion-trace")
    );
    assert_eq!(traced.attribution.as_ref().map(|a| a.confidence.as_str()), Some("precise"));
    let untouched = attach_block_deletion_trace_with(
        history_commit,
        history_changes,
        appending_text,
        &["c1".to_string()],
        block.clone(),
        &["f.txt".to_string()],
        "f.txt",
        None,
        &filter,
    )
    .expect("trace succeeds");
    assert!(untouched.related_commits.is_empty());
}

#[test]
fn deletion_trace_walks_every_block_in_order() {
    let filter = FilterMatcher::new(&[], None, None);
    let mut deleted = diff_block(2, 2, 0, 0, Vec::new(), Vec::new());
    deleted.rows = vec![SideBySideDiffRowOutput {
        old_line_number: Some(2),
        new_line_number: None,
        old_text: Some("b".to_string()),
        new_text: None,
        row_type: "deleted".to_string(),
        word_changes: None,
        block_id: Some("block-1".to_string()),
    }];
    let added = added_line_block(3, "z");
    let traced = attach_deletion_trace_with(
        history_commit,
        history_changes,
        deletion_text,
        &["c1".to_string()],
        vec![added.clone(), deleted],
        &["f.txt".to_string()],
        "f.txt",
        None,
        &filter,
    )
    .expect("trace succeeds");
    assert_eq!(traced.len(), 2);
    assert_eq!((traced[0].new_start, traced[0].new_end), (added.new_start, added.new_end));
    assert!(traced[0].related_commits.is_empty());
    assert!(traced[0].attribution.is_none());
    assert_eq!(traced[1].related_commits.len(), 1);
    assert_eq!(traced[1].related_commits[0].hash, "c1");
}
