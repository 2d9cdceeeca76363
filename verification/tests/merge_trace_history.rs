use std::collections::HashSet;

use revier_analysis::attribution::merge_trace::resolve_merge_commit;
use revier_analysis::attribution::patch_inference::FilterMatcher;
use revier_analysis::error::AppError;
use revier_analysis::git::commits::IndexedCommit;
use revier_analysis::json::DiffBlockOutput;
use revier_analysis::overlay::diff_builder::build_overlay_diff;

// Each history below is the one a small repository would hold: the commits with their
// parents and subjects, and the text of `src/app.txt` at each commit.

fn commit(hash: &str, parents: &[&str], subject: &str) -> IndexedCommit {
    IndexedCommit {
        hash: hash.to_string(),
        short_hash: hash.to_string(),
        author_name: "fixture".to_string(),
        author_email: Some("fixture@example.com".to_string()),
        author_key: "fixture@example.com".to_string(),
        committed_at: "2026-01-01T00:00:00+00:00".to_string(),
        subject: subject.to_string(),
        parents: parents.iter().map(|p| p.to_string()).collect(),
        is_merge: parents.len() > 1,
    }
}

fn unknown(hash: &str) -> AppError {
    AppError::Repository(format!("unknown commit {hash}"))
}

fn same_paths(_parent: &str, _commit: &str, path: &str) -> Result<Vec<String>, AppError> {
    Ok(vec![path.to_string()])
}

// base -> feature ("feature" line) and base -> main ("main" line), merged with a conflict
// resolved by hand into both lines.
fn conflict_text(hash: &str, _path: &str) -> Result<String, AppError> {
    match hash {
        "base" => Ok("base\n".to_string()),
        "feature" => Ok("base\nfeature\n".to_string()),
        "main" => Ok("base\nmain\n".to_string()),
        "head" => Ok("base\nmain\nfeature\n".to_string()),
        other => Err(unknown(other)),
    }
}

fn conflict_commit(hash: &str) -> Result<IndexedCommit, AppError> {
    match hash {
        "base" => Ok(commit("base", &[], "feat: base")),
        "feature" => Ok(commit("feature", &["base"], "feat: feature line")),
        "main" => Ok(commit("main", &["base"], "feat: main line")),
        "head" => Ok(commit("head", &["main", "feature"], "merge: resolve conflict")),
        other => Err(unknown(other)),
    }
}

// base -> feature ("A" line); integration merges feature with --no-ff, then main merges
// integration with --no-ff.
fn nested_text(hash: &str, _path: &str) -> Result<String, AppError> {
    match hash {
        "base" => Ok("base\n".to_string()),
        "feature" | "integration" | "head" => Ok("base\nA\n".to_string()),
        other => Err(unknown(other)),
    }
}

fn nested_commit(hash: &str) -> Result<IndexedCommit, AppError> {
    match hash {
        "base" => Ok(commit("base", &[], "feat: base")),
        "feature" => Ok(commit("feature", &["base"], "feat: add A line")),
        "integration" => Ok(commit(
            "integration",
            &["base", "feature"],
            "merge: feature into integration",
        )),
        "head" => Ok(commit("head", &["base", "integration"], "merge: integrate feature")),
        other => Err(unknown(other)),
    }
}

// base -> left and base -> right both add the same "shared" line; the merge keeps it.
fn ambiguous_text(hash: &str, _path: &str) -> Result<String, AppError> {
    match hash {
        "base" => Ok("base\n".to_string()),
        "left" | "right" | "head" => Ok("base\nshared\n".to_string()),
        other => Err(unknown(other)),
    }
}

fn ambiguous_commit(hash: &str) -> Result<IndexedCommit, AppError> {
    match hash {
        "base" => Ok(commit("base", &[], "feat: base")),
        "left" => Ok(commit("left", &["base"], "feat: left path")),
        "right" => Ok(commit("right", &["base"], "feat: right path")),
        "head" => Ok(commit("head", &["left", "right"], "merge: ambiguous nested sources")),
        other => Err(unknown(other)),
    }
}

fn merge_result_block(base_text: &str, head_text: &str) -> DiffBlockOutput {
    build_overlay_diff(base_text, head_text)
        .blocks
        .into_iter()
        .next()
        .expect("至少有一个 block")
}

fn block_containing(base_text: &str, head_text: &str, needle: &str) -> DiffBlockOutput {
    build_overlay_diff(base_text, head_text)
        .blocks
        .into_iter()
        .find(|block| {
            block
                .rows
                .iter()
                .any(|row| row.new_text.as_ref().is_some_and(|text| text.contains(needle)))
        })
        .expect("应找到包含目标文本的 block")
}

#[test]
fn resolve_merge_trace_keeps_merge_commit_when_conflict_merge_has_no_parent_match() {
    let filter = FilterMatcher::new(&[], None, None);
    let merge_commit = conflict_commit("head").expect("解析 merge 提交");
    let block = merge_result_block(
        &conflict_text("base", "src/app.txt").expect("读取 base 文件内容"),
        &conflict_text("head", "src/app.txt").expect("读取 head 文件内容"),
    );
    let outcome = resolve_merge_commit(
        conflict_text,
        conflict_commit,
        same_paths,
        &merge_commit,
        "src/app.txt",
        &block,
        &filter,
        &[],
    )
    .expect("解析 merge trace")
    .expect("应返回归因结果");

    assert_eq!(outcome.related_commits.len(), 1);
    let commit = &outcome.related_commits[0];
    assert_eq!(commit.subject, "merge: resolve conflict");
    assert_eq!(
        commit
            .attribution
            .as_ref()
            .map(|attribution| attribution.via_merge_hashes.clone()),
        Some(vec!["head".to_string()]),
        "冲突未解析到父提交时应保留 merge 且带自身 via"
    );
    assert!(!outcome.ambiguous);
    assert!(!outcome.replaced_merge_commit);
}

#[test]
fn resolve_merge_trace_recurses_nested_merge_and_keeps_only_real_sources() {
    let filter = FilterMatcher::new(&[], None, None);
    let merge_commit = nested_commit("head").expect("解析 merge 提交");
    let block = block_containing(
        &nested_text("base", "src/app.txt").expect("读取 base 文件内容"),
        &nested_text("head", "src/app.txt").expect("读取 head 文件内容"),
        "A",
    );
    let outcome = resolve_merge_commit(
        nested_text,
        nested_commit,
        same_paths,
        &merge_commit,
        "src/app.txt",
        &block,
        &filter,
        &[],
    )
    .expect("解析 merge trace")
    .expect("应返回归因结果");

    let commit_subjects = outcome
        .related_commits
        .iter()
        .map(|commit| commit.subject.as_str())
        .collect::<HashSet<_>>();
    assert!(commit_subjects.contains(&"feat: add A line"));
    assert!(!commit_subjects.contains(&"merge: feature into integration"));
    assert!(!commit_subjects.contains(&"merge: integrate feature"));
    assert!(!outcome.ambiguous);
    assert_eq!(outcome.related_commits.len(), 1);

    let commit = &outcome.related_commits[0];
    let via_hashes = commit
        .attribution
        .as_ref()
        .expect("归因存在")
        .via_merge_hashes
        .as_slice();
    assert!(via_hashes.contains(&"head".to_string()), "应保留 head merge");
}

#[test]
fn resolve_merge_trace_tracks_ambiguous_merge_with_multiple_valid_sources() {
    let filter = FilterMatcher::new(&[], None, None);
    let merge_commit = ambiguous_commit("head").expect("解析 merge 提交");
    let block = merge_result_block(
        &ambiguous_text("base", "src/app.txt").expect("读取 base 文件内容"),
        &ambiguous_text("head", "src/app.txt").expect("读取 head 文件内容"),
    );
    let outcome = resolve_merge_commit(
        ambiguous_text,
        ambiguous_commit,
        same_paths,
        &merge_commit,
        "src/app.txt",
        &block,
        &filter,
        &[],
    )
    .expect("解析 merge trace")
    .expect("应返回归因结果");

    assert!(outcome.ambiguous);
    let commit_subjects = outcome
        .related_commits
        .iter()
        .map(|commit| commit.subject.as_str())
        .collect::<Vec<_>>();
    assert_eq!(commit_subjects.len(), 2);
    assert!(commit_subjects.contains(&"feat: left path"));
    assert!(commit_subjects.contains(&"feat: right path"));
    assert_eq!(outcome.replaced_merge_commit, true);
}
