use revier_analysis::attribution::source_validation::SourceValidationCache;
use revier_analysis::error::AppError;
use revier_analysis::git::commits::IndexedCommit;
use revier_analysis::git::diff::CommitFileChange;

// Each history below is the one a small repository would hold: its commits, the changes each
// commit makes against each parent, and the blobs of its files.

fn commit(hash: &str, parents: &[&str], subject: &str) -> IndexedCommit {
    IndexedCommit {
        hash: hash.to_string(),
        short_hash: hash.to_string(),
        author_name: "fixture".to_string(),
        author_email: None,
        author_key: "fixture".to_string(),
        committed_at: "2026-01-01T00:00:00+00:00".to_string(),
        subject: subject.to_string(),
        parents: parents.iter().map(|p| p.to_string()).collect(),
        is_merge: parents.len() > 1,
    }
}

fn change(
    commit_hash: &str,
    parent_hash: &str,
    parent_index: usize,
    path: &str,
    old_path: Option<&str>,
    status: &str,
) -> CommitFileChange {
    CommitFileChange {
        commit_hash: commit_hash.to_string(),
        parent_hash: parent_hash.to_string(),
        parent_index,
        path: path.to_string(),
        old_path: old_path.map(ToString::to_string),
        status: status.to_string(),
        additions: 0,
        deletions: 0,
        is_binary: false,
        is_previewable: true,
        old_blob_id: if status == "added" { None } else { Some(format!("{parent_hash}:{path}")) },
        new_blob_id: Some(format!("{commit_hash}:{path}")),
    }
}

fn unknown(hash: &str) -> AppError {
    AppError::Repository(format!("unknown commit {hash}"))
}

fn same_paths(_parent: &str, _child: &str, path: &str) -> Result<Vec<String>, AppError> {
    Ok(vec![path.to_string()])
}

// base: src/app.txt = "base"; head: src/app.txt = "base\nadd".
fn linear_commit(hash: &str) -> Result<IndexedCommit, AppError> {
    match hash {
        "base" => Ok(commit("base", &[], "feat: base")),
        "head" => Ok(commit("head", &["base"], "feat: add")),
        other => Err(unknown(other)),
    }
}

fn linear_changes(hash: &str) -> Result<Vec<CommitFileChange>, AppError> {
    match hash {
        "base" => Ok(vec![change("base", "", 0, "src/app.txt", None, "added")]),
        "head" => Ok(vec![change("head", "base", 0, "src/app.txt", None, "modified")]),
        other => Err(unknown(other)),
    }
}

fn linear_blob(hash: &str, path: &str) -> Result<Option<Vec<u8>>, AppError> {
    match (hash, path) {
        ("base", "src/app.txt") => Ok(Some(b"base\n".to_vec())),
        ("head", "src/app.txt") => Ok(Some(b"base\nadd\n".to_vec())),
        _ => Ok(None),
    }
}

// One root commit adding src/app.txt.
fn root_commit(hash: &str) -> Result<IndexedCommit, AppError> {
    match hash {
        "base" => Ok(commit("base", &[], "feat: initial")),
        other => Err(unknown(other)),
    }
}

fn root_changes(hash: &str) -> Result<Vec<CommitFileChange>, AppError> {
    match hash {
        "base" => Ok(vec![change("base", "", 0, "src/app.txt", None, "added")]),
        other => Err(unknown(other)),
    }
}

fn root_blob(hash: &str, path: &str) -> Result<Option<Vec<u8>>, AppError> {
    match (hash, path) {
        ("base", "src/app.txt") => Ok(Some(b"base\n".to_vec())),
        _ => Ok(None),
    }
}

// base; feature adds "feature line" to src/app.txt; main adds docs/notes.txt ("prep") and then
// merges feature with --no-ff.
fn merge_commit(hash: &str) -> Result<IndexedCommit, AppError> {
    match hash {
        "base" => Ok(commit("base", &[], "feat: base")),
        "feature" => Ok(commit("feature", &["base"], "feat: add feature line")),
        "prep" => Ok(commit("prep", &["base"], "chore: prep")),
        "head" => Ok(commit("head", &["prep", "feature"], "merge: second parent only change")),
        other => Err(unknown(other)),
    }
}

fn merge_changes(hash: &str) -> Result<Vec<CommitFileChange>, AppError> {
    match hash {
        "feature" => Ok(vec![change("feature", "base", 0, "src/app.txt", None, "modified")]),
        "prep" => Ok(vec![change("prep", "base", 0, "docs/notes.txt", None, "added")]),
        "head" => Ok(vec![
            change("head", "prep", 0, "src/app.txt", None, "modified"),
            change("head", "feature", 1, "docs/notes.txt", None, "added"),
        ]),
        other => Err(unknown(other)),
    }
}

fn merge_blob(hash: &str, path: &str) -> Result<Option<Vec<u8>>, AppError> {
    match (hash, path) {
        ("base" | "prep", "src/app.txt") => Ok(Some(b"base\n".to_vec())),
        ("feature" | "head", "src/app.txt") => Ok(Some(b"base\nfeature line\n".to_vec())),
        ("prep" | "head", "docs/notes.txt") => Ok(Some(b"prep\n".to_vec())),
        _ => Ok(None),
    }
}

// base adds src/old.txt; head moves it to src/new.txt.
fn rename_commit(hash: &str) -> Result<IndexedCommit, AppError> {
    match hash {
        "base" => Ok(commit("base", &[], "feat: initial")),
        "head" => Ok(commit("head", &["base"], "feat: rename and edit")),
        other => Err(unknown(other)),
    }
}

fn rename_changes(hash: &str) -> Result<Vec<CommitFileChange>, AppError> {
    match hash {
        "base" => Ok(vec![change("base", "", 0, "src/old.txt", None, "added")]),
        "head" => Ok(vec![change("head", "base", 0, "src/new.txt", Some("src/old.txt"), "renamed")]),
        other => Err(unknown(other)),
    }
}

fn rename_blob(hash: &str, path: &str) -> Result<Option<Vec<u8>>, AppError> {
    match (hash, path) {
        ("base", "src/old.txt") | ("head", "src/new.txt") => Ok(Some(b"alpha\n".to_vec())),
        _ => Ok(None),
    }
}

// base adds src/app.txt; head only adds docs/notes.txt.
fn notes_commit(hash: &str) -> Result<IndexedCommit, AppError> {
    match hash {
        "base" => Ok(commit("base", &[], "feat: base")),
        "head" => Ok(commit("head", &["base"], "chore: update notes")),
        other => Err(unknown(other)),
    }
}

fn notes_changes(hash: &str) -> Result<Vec<CommitFileChange>, AppError> {
    match hash {
        "base" => Ok(vec![change("base", "", 0, "src/app.txt", None, "added")]),
        "head" => Ok(vec![change("head", "base", 0, "docs/notes.txt", None, "added")]),
        other => Err(unknown(other)),
    }
}

fn notes_blob(hash: &str, path: &str) -> Result<Option<Vec<u8>>, AppError> {
    match (hash, path) {
        ("base" | "head", "src/app.txt") => Ok(Some(b"base\n".to_vec())),
        ("head", "docs/notes.txt") => Ok(Some(b"notes\n".to_vec())),
        _ => Ok(None),
    }
}

#[test]
fn normal_non_merge_modification_can_be_validated() {
    let commit = linear_commit("head").expect("读取提交");
    let mut cache = SourceValidationCache::new();

    let source = cache
        .validate_first_parent_source(linear_changes, linear_blob, same_paths, linear_commit, &commit, "src/app.txt")
        .expect("验证成功")
        .expect("应返回有效来源");

    assert_eq!(source.change_status, "modified");
    assert_eq!(source.historical_path, "src/app.txt");
    assert_eq!(source.first_parent_hash, "base");
}

#[test]
fn root_commit_addition_can_be_validated() {
    let commit = root_commit("base").expect("读取提交");
    let mut cache = SourceValidationCache::new();

    let source = cache
        .validate_first_parent_source(root_changes, root_blob, same_paths, root_commit, &commit, "src/app.txt")
        .expect("验证成功")
        .expect("应返回根提交来源");

    assert_eq!(source.change_status, "added");
    assert_eq!(source.first_parent_hash, String::new());
}

#[test]
fn merge_with_second_parent_only_change_is_not_valid_first_parent_source() {
    let commit = merge_commit("head").expect("读取 merge 提交");
    let mut cache = SourceValidationCache::new();

    let source = cache
        .validate_first_parent_source(merge_changes, merge_blob, same_paths, merge_commit, &commit, "src/app.txt")
        .expect("验证成功");

    assert!(source.is_none());
}

#[test]
fn rename_current_path_maps_to_historical_path() {
    let commit = rename_commit("head").expect("读取提交");
    let mut cache = SourceValidationCache::new();

    let source = cache
        .validate_first_parent_source(rename_changes, rename_blob, same_paths, rename_commit, &commit, "src/new.txt")
        .expect("验证成功")
        .expect("应返回重命名来源");

    assert_eq!(source.change_status, "renamed");
    assert_eq!(source.historical_path, "src/old.txt");
}

#[test]
fn no_change_commit_is_not_valid() {
    let commit = notes_commit("head").expect("读取提交");
    let mut cache = SourceValidationCache::new();

    let source = cache
        .validate_first_parent_source(notes_changes, notes_blob, same_paths, notes_commit, &commit, "src/app.txt")
        .expect("验证成功");

    assert!(source.is_none());
}
