use revier_analysis::attribution::blame::{
    apply_blame_resolution, resolve_related_commits, unique_blame_hashes, BlameResolution,
};
use revier_analysis::attribution::merge_trace::{
    extend_via,
    build_block_signature, line_window, partial_attribution,
};
use revier_analysis::attribution::patch_inference::{
    change_touches_active_path, initial_active_paths,
    advance_active_paths, apply_patch_candidates, authors_from_related_commits,
    touched_ranges_for_texts, FilterMatcher, RelatedCommitCandidate,
};
use revier_analysis::attribution::path_history::path_candidates_from_renames;
use revier_analysis::attribution::source_validation::{
    first_parent_only_from_matches, first_parent_source, select_first_parent_change,
    FirstParentSource, SourceValidationCache,
};
use revier_analysis::cache::models::{CachedFileBlock, CachedTouchedRange};
use revier_analysis::cache::repository::{assemble_file_blocks, cache_state_from, optional_i64};
use revier_analysis::commands::query_files::{
    files_for_range_changes,
    coalesce_indexed_renames, paths_overlap, rename_paths_connected,
};
use revier_analysis::contracts::CacheState;
use revier_analysis::git::repository::branch_list;
use revier_analysis::error::AppError;
use revier_analysis::git::blame::{blame_line_bounds, blame_lines_from_entries, BlameEntry, BlameLine};
use revier_analysis::git::commits::{author_key, range_hashes_from_walks, IndexedCommit};
use revier_analysis::git::diff::{change_for_path, connected_paths, CommitFileChange, RenameChange};
use revier_analysis::index::migrations::{
    check_existing_checksum, history_needs_insert, migration_checksum, parse_migration_file_name,
    schema_action, EmbeddedMigration, SchemaAction,
};
use revier_analysis::index::queries::{
    path_matches_globs, check_range_indexed, dedup_files, matching_commit_hashes, parse_filter_time,
    sort_files_by_path, split_glob_rules, CommitRow,
};
use revier_analysis::index::writer::{as_i64, obsolete_hashes, protected_closure};
use revier_analysis::json::{
    ChangedFileOutput, DiffBlockOutput, RelatedCommitOutput, SideBySideDiffRowOutput,
    TouchedRangeOutput,
};

fn commit(hash: &str, name: &str, email: Option<&str>, subject: &str, merge: bool) -> IndexedCommit {
    IndexedCommit {
        hash: hash.to_string(),
        short_hash: hash.chars().take(8).collect(),
        author_name: name.to_string(),
        author_email: email.map(ToString::to_string),
        author_key: author_key(name, email),
        committed_at: "2026-05-02T00:00:00+00:00".to_string(),
        subject: subject.to_string(),
        parents: Vec::new(),
        is_merge: merge,
    }
}

fn block(old_start: usize, old_end: usize, new_start: usize, new_end: usize) -> DiffBlockOutput {
    DiffBlockOutput {
        id: "block-0".to_string(),
        old_start,
        old_end,
        new_start,
        new_end,
        row_start_index: None,
        row_end_index: None,
        change_type: "modified".to_string(),
        authors: Vec::new(),
        rows: Vec::<SideBySideDiffRowOutput>::new(),
        related_commits: Vec::new(),
        attribution: None,
    }
}

fn change(path: &str, old_path: Option<&str>, status: &str) -> CommitFileChange {
    CommitFileChange {
        commit_hash: "c".to_string(),
        parent_hash: "p".to_string(),
        parent_index: 0,
        path: path.to_string(),
        old_path: old_path.map(ToString::to_string),
        status: status.to_string(),
        additions: 0,
        deletions: 0,
        is_binary: false,
        is_previewable: true,
        old_blob_id: Some(format!("old-{path}")),
        new_blob_id: None,
    }
}

fn listed(path: &str, old_path: Option<&str>, status: &str) -> ChangedFileOutput {
    ChangedFileOutput {
        path: path.to_string(),
        old_path: old_path.map(ToString::to_string),
        old_blob_id: None,
        new_blob_id: None,
        status: status.to_string(),
        additions: 0,
        deletions: 0,
        is_binary: false,
        is_previewable: true,
    }
}

fn strings(items: &[&str]) -> Vec<String> {
    items.iter().map(|item| item.to_string()).collect()
}

#[test]
fn filter_lowercases_queries_and_matches_author_text() {
    let alice = commit("a", "Alice", Some("alice@example.com"), "Fix Parser", false);
    assert!(FilterMatcher::new(&[], Some("  ALICE@EXAMPLE "), None).matches(&alice));
    assert!(FilterMatcher::new(&[], None, Some("parser")).matches(&alice));
    assert!(!FilterMatcher::new(&[], None, Some("lexer")).matches(&alice));
    assert!(FilterMatcher::new(&strings(&[" Alice@Example.com "]), None, None).matches(&alice));
    assert!(!FilterMatcher::new(&strings(&["bob@example.com"]), None, None).matches(&alice));
    assert!(!FilterMatcher::new(&strings(&["  "]), None, None).is_active());
}

#[test]
fn authors_are_listed_once_per_key() {
    let a1 = commit("1", "Alice", Some("ALICE@example.com"), "one", false);
    let a2 = commit("2", "Alice B.", Some("alice@example.com"), "two", false);
    let b = commit("3", "Bob", None, "three", false);
    let related: Vec<RelatedCommitOutput> = [a1, a2, b]
        .iter()
        .map(|c| RelatedCommitOutput {
            hash: c.hash.clone(),
            short_hash: c.short_hash.clone(),
            author_name: c.author_name.clone(),
            author_email: c.author_email.clone(),
            committed_at: c.committed_at.clone(),
            subject: c.subject.clone(),
            matched_by_filter: true,
            touched_ranges: Vec::new(),
            attribution: None,
        })
        .collect();
    let authors = authors_from_related_commits(&related);

    assert_eq!(authors.len(), 2);
    assert_eq!(authors[0].name, "Alice");
    assert_eq!(authors[1].name, "Bob");
}

#[test]
fn patch_candidates_attach_to_overlapping_blocks() {
    let candidate = RelatedCommitCandidate {
        commit: commit("abc", "Alice", None, "change", false),
        matched_by_filter: true,
        touched_ranges: vec![TouchedRangeOutput {
            old_start: None,
            old_end: None,
            new_start: Some(3),
            new_end: Some(4),
        }],
    };
    let out = apply_patch_candidates(vec![block(0, 0, 4, 6), block(10, 12, 20, 21)], &[candidate]);

    assert_eq!(out.len(), 2);
    assert_eq!(out[0].related_commits.len(), 1);
    assert_eq!(out[0].related_commits[0].hash, "abc");
    assert_eq!(
        out[0].related_commits[0].attribution.as_ref().map(|a| a.method.as_str()),
        Some("patch-inference")
    );
    assert_eq!(out[0].authors.len(), 1);
    assert!(out[1].related_commits.is_empty());
}

#[test]
fn touched_ranges_skip_unchanged_texts_and_repeat_ranges() {
    let pairs = vec![
        ("a\nb\n".to_string(), "a\nb\n".to_string()),
        ("a\nb\n".to_string(), "a\nc\n".to_string()),
        ("a\nb\n".to_string(), "a\nc\n".to_string()),
    ];
    let touched = touched_ranges_for_texts(&pairs);

    assert_eq!(touched.len(), 1);
    assert_eq!(touched[0].old_start, Some(2));
    assert_eq!(touched[0].new_start, Some(2));
}

#[test]
fn active_paths_follow_renames_and_deletions() {
    let mut active = strings(&["src/a.txt"]);
    advance_active_paths(&mut active, &[change("src/b.txt", Some("src/a.txt"), "renamed")]);
    assert_eq!(active, strings(&["src/b.txt"]));
    advance_active_paths(&mut active, &[change("src/b.txt", None, "deleted")]);
    assert!(active.is_empty());
}

#[test]
fn blame_resolution_names_merges_and_keeps_earlier_ranges() {
    let mut b = block(0, 0, 1, 2);
    b.related_commits = vec![RelatedCommitOutput {
        hash: "m1".to_string(),
        short_hash: "m1".to_string(),
        author_name: "Eve".to_string(),
        author_email: None,
        committed_at: String::new(),
        subject: String::new(),
        matched_by_filter: false,
        touched_ranges: vec![TouchedRangeOutput {
            old_start: None,
            old_end: None,
            new_start: Some(1),
            new_end: Some(1),
        }],
        attribution: None,
    }];
    let filter = FilterMatcher::new(&[], None, None);
    let resolution = resolve_related_commits(
        &b,
        vec![commit("m1", "Eve", None, "merge", true), commit("c2", "Dan", None, "fix", false)],
        &filter,
    );

    let BlameResolution::Resolved(related) = resolution else {
        panic!("应解析出提交");
    };
    assert_eq!(related.len(), 2);
    assert!(!related[0].matched_by_filter);
    assert_eq!(related[0].touched_ranges.len(), 1);
    let via = &related[0].attribution.as_ref().expect("归因方法").via_merge_hashes;
    assert_eq!(via, &strings(&["m1"]));
    assert_eq!(related[1].attribution.as_ref().expect("归因方法").method, "blame");
    assert!(related[1].matched_by_filter);

    let out = apply_blame_resolution(b, BlameResolution::Resolved(related));
    assert_eq!(out.authors.len(), 2);
    assert_eq!(out.attribution.expect("精确归因").confidence, "precise");
    assert!(matches!(
        resolve_related_commits(&block(0, 0, 1, 1), Vec::new(), &filter),
        BlameResolution::Unavailable
    ));
}

#[test]
fn blame_lines_are_ordered_and_hashes_unique() {
    let entries = vec![
        BlameEntry { start: 2, len: 2, commit_hash: "b".to_string() },
        BlameEntry { start: 0, len: 2, commit_hash: "a".to_string() },
    ];
    let lines = blame_lines_from_entries(&entries, 2, 4);
    let numbers: Vec<usize> = lines.iter().map(|l| l.line_number).collect();
    let hashes: Vec<&str> = lines.iter().map(|l| l.commit_hash.as_str()).collect();
    assert_eq!(numbers, vec![2, 3, 4]);
    assert_eq!(hashes, vec!["a", "b", "b"]);

    let unique = unique_blame_hashes(&[
        BlameLine { line_number: 1, commit_hash: "x".to_string() },
        BlameLine { line_number: 2, commit_hash: "y".to_string() },
        BlameLine { line_number: 3, commit_hash: "x".to_string() },
    ]);
    assert_eq!(unique, strings(&["x", "y"]));
}

#[test]
fn blame_bounds_reject_empty_and_huge_ranges() {
    assert_eq!(blame_line_bounds(0, 3).expect("空范围"), None);
    assert_eq!(blame_line_bounds(4, 3).expect("空范围"), None);
    assert_eq!(blame_line_bounds(2, 3).expect("合法范围"), Some((2, 3)));
    let huge = (u32::MAX as usize) + 1;
    assert_eq!(
        blame_line_bounds(1, huge),
        Err(AppError::Spike(format!("行号超出支持范围：{huge}")))
    );
}

#[test]
fn merge_trace_helpers() {
    let attribution = partial_attribution();
    assert_eq!(attribution.confidence, "partial");
    assert_eq!(attribution.warnings[0].code, "MERGE_TRACE_AMBIGUOUS");
    assert_eq!(line_window("a\nb\nc\n", 2, 3), Some(strings(&["b", "c"])));
    assert_eq!(line_window("a\nb\n", 2, 3), None);
    assert_eq!(line_window("a\nb\n", 0, 1), None);
    assert_eq!(build_block_signature("src/a.txt", &block(1, 2, 3, 4)), "src/a.txt|1|2|3|4|");
}

#[test]
fn renames_connect_paths_both_ways() {
    let renames = vec![
        RenameChange { old_path: "a".to_string(), new_path: "b".to_string() },
        RenameChange { old_path: "c".to_string(), new_path: "b".to_string() },
        RenameChange { old_path: "x".to_string(), new_path: "y".to_string() },
    ];
    let paths = connected_paths("a", None, &renames);
    assert_eq!(paths, strings(&["a", "b", "c"]));
    let candidates = path_candidates_from_renames("y", Some("q"), &renames);
    assert_eq!(candidates.paths, strings(&["y", "q", "x"]));
    assert!(candidates.warnings.is_empty());
}

#[test]
fn source_cache_answers_a_repeated_question_from_the_cache() {
    let mut cache = SourceValidationCache::new();
    let source = FirstParentSource {
        commit_hash: "h".to_string(),
        historical_path: "src/app.txt".to_string(),
        first_parent_hash: "p".to_string(),
        old_blob_id: None,
        new_blob_id: Some("n".to_string()),
        change_status: "modified".to_string(),
    };
    let first = cache
        .validate_first_parent_source_with("h", "src/app.txt", || Ok(Some(source.clone())))
        .expect("第一次验证成功");
    let second = cache
        .validate_first_parent_source_with("h", "src/app.txt", || panic!("缓存命中时不应再解析"))
        .expect("第二次验证成功");
    assert_eq!(first, second);
    assert_eq!(cache.len(), 1);
    let failed = cache.validate_first_parent_source_with("h", "other.txt", || {
        Err(AppError::Repository("broken".to_string()))
    });
    assert_eq!(failed, Err(AppError::Repository("broken".to_string())));
    assert_eq!(cache.len(), 1);
}

#[test]
fn first_parent_source_selection() {
    let changes = vec![
        change("src/new.txt", Some("src/old.txt"), "renamed"),
        change("docs/x.md", None, "modified"),
    ];
    assert_eq!(select_first_parent_change(&changes, "src/new.txt"), Some(0));
    assert_eq!(select_first_parent_change(&changes, "src/old.txt"), Some(0));
    assert_eq!(select_first_parent_change(&changes, "missing"), None);

    let mut c = commit("h", "A", None, "s", false);
    c.parents = strings(&["p1"]);
    let source = first_parent_source(&c, &changes[0], true).expect("有效来源");
    assert_eq!(source.historical_path, "src/old.txt");
    assert_eq!(source.first_parent_hash, "p1");
    c.parents = strings(&["p1", "p2"]);
    assert_eq!(first_parent_source(&c, &changes[0], false), None);

    assert!(!first_parent_only_from_matches(false, &[(true, false)]));
    assert!(first_parent_only_from_matches(false, &[(true, true)]));
    assert!(first_parent_only_from_matches(true, &[(true, false)]));
}

#[test]
fn indexed_renames_coalesce_additions_with_deletions() {
    let hints = vec![listed("src/new.txt", Some("src/old.txt"), "renamed")];
    assert!(rename_paths_connected(&hints, "src/old.txt", "src/new.txt"));
    assert!(rename_paths_connected(&hints, "src/new.txt", "src/old.txt"));
    assert!(!rename_paths_connected(&hints, "src/old.txt", "src/other.txt"));

    let out = coalesce_indexed_renames(
        vec![change("src/new.txt", None, "added"), change("src/old.txt", None, "deleted")],
        &hints,
    );
    assert_eq!(out.len(), 1);
    assert_eq!(out[0].status, "renamed");
    assert_eq!(out[0].old_path.as_deref(), Some("src/old.txt"));
    assert_eq!(out[0].old_blob_id.as_deref(), Some("old-src/old.txt"));

    assert!(paths_overlap(&change("a", Some("b"), "renamed"), &listed("b", None, "modified")));
    assert!(!paths_overlap(&change("a", None, "modified"), &listed("c", Some("d"), "renamed")));
}

#[test]
fn commit_ranges_are_oldest_first() {
    let head_walk = strings(&["h3", "h2", "b1", "h1"]);
    let base_walk = strings(&["b1"]);
    assert_eq!(range_hashes_from_walks(&head_walk, &base_walk), strings(&["h1", "h2", "h3"]));
}

#[test]
fn migration_decisions() {
    assert_eq!(schema_action(None).expect("新库"), SchemaAction::Fresh);
    assert_eq!(schema_action(Some(4)).expect("当前"), SchemaAction::ValidateCurrent);
    assert_eq!(schema_action(Some(1)).expect("旧库"), SchemaAction::MigrateFromVersionOne);
    assert_eq!(schema_action(Some(3)).expect("基线"), SchemaAction::ApplyFromBaseline);
    assert_eq!(
        schema_action(Some(7)),
        Err(AppError::SchemaIncompatible(
            "当前支持 schema_version=4，数据库为 7".to_string()
        ))
    );
    let migration = EmbeddedMigration {
        version: 4,
        name: "create_migration_history".to_string(),
        sql: b"select 1".to_vec(),
        checksum: migration_checksum(b"select 1"),
    };
    assert!(check_existing_checksum(None, &migration).is_ok());
    assert_eq!(
        check_existing_checksum(Some("bad"), &migration),
        Err(AppError::SchemaIncompatible("迁移 4 checksum 不一致".to_string()))
    );
    assert_eq!(history_needs_insert(None, 4, "c"), Ok(true));
    assert_eq!(history_needs_insert(Some("c"), 4, "c"), Ok(false));
    assert_eq!(
        parse_migration_file_name("0004_Bad.sql"),
        Err(AppError::SchemaIncompatible("迁移名称格式无效：0004_Bad.sql".to_string()))
    );
    assert_eq!(
        migration_checksum(b""),
        "e3b0c44298fc1c149afbf4c8996fb92427ae41e4649b934ca495991b7852b855"
    );
}

#[test]
fn query_filters_and_ordering() {
    assert!(parse_filter_time("2026-01-01T00:00:00Z", "since").is_ok());
    let bad = parse_filter_time("yesterday", "since");
    assert!(matches!(bad, Err(AppError::InvalidArgument(ref m)) if m.starts_with("since 时间格式无效：")));

    let rows = vec![
        CommitRow {
            hash: "early".to_string(),
            author_key: "a@x".to_string(),
            author_name: "A".to_string(),
            author_email: "a@x".to_string(),
            subject: "s".to_string(),
            committed_at: "2026-01-01T00:00:00Z".to_string(),
        },
        CommitRow {
            hash: "late".to_string(),
            author_key: "a@x".to_string(),
            author_name: "A".to_string(),
            author_email: "a@x".to_string(),
            subject: "s".to_string(),
            committed_at: "2026-03-01T00:00:00+08:00".to_string(),
        },
    ];
    let filter = FilterMatcher::new(&[], None, None);
    let since = parse_filter_time("2026-02-01T00:00:00Z", "since").expect("时间");
    let hashes = matching_commit_hashes(&filter, Some(since), None, &rows).expect("查询成功");
    assert_eq!(hashes, strings(&["late"]));

    assert_eq!(
        check_range_indexed("b", "h", false, true),
        Err(AppError::IndexUnavailable(
            "查询范围 head h 未被索引，请先执行 index build".to_string()
        ))
    );
    assert_eq!(
        check_range_indexed("b", "h", true, false),
        Err(AppError::IndexUnavailable(
            "查询范围 base b 未被索引，请先执行 index build".to_string()
        ))
    );

    let (including, excluding) = split_glob_rules(&strings(&["src/**", "!src/gen/**"]));
    assert_eq!(including, strings(&["src/**"]));
    assert_eq!(excluding, strings(&["src/gen/**"]));

    let sorted = sort_files_by_path(vec![
        listed("b.txt", None, "modified"),
        listed("a.txt", None, "added"),
        listed("b.txt", None, "modified"),
    ]);
    let paths: Vec<&str> = sorted.iter().map(|f| f.path.as_str()).collect();
    assert_eq!(paths, vec!["a.txt", "b.txt", "b.txt"]);
    assert_eq!(dedup_files(sorted).len(), 2);
}

#[test]
fn prune_keeps_every_ancestor_of_protected_commits() {
    let edges = vec![
        ("c3".to_string(), "c2".to_string()),
        ("c2".to_string(), "c1".to_string()),
        ("x2".to_string(), "x1".to_string()),
    ];
    let protected = protected_closure(&strings(&["c3"]), &edges);
    let mut sorted = protected.clone();
    sorted.sort();
    assert_eq!(sorted, strings(&["c1", "c2", "c3"]));
    let obsolete = obsolete_hashes(&strings(&["c1", "c2", "c3", "x1", "x2"]), &protected);
    assert_eq!(obsolete, strings(&["x1", "x2"]));

    assert_eq!(as_i64(5, "additions"), Ok(5));
    assert_eq!(
        as_i64(u64::MAX, "additions"),
        Err(AppError::InvalidArgument("additions 超出 DuckDB BIGINT 范围".to_string()))
    );
}

#[test]
fn cache_state_compares_head_and_version() {
    assert_eq!(cache_state_from(Some(("h", 2)), "h", 2), CacheState::Hit);
    assert_eq!(cache_state_from(Some(("h", 1)), "h", 2), CacheState::Stale);
    assert_eq!(cache_state_from(None, "h", 2), CacheState::Miss);
}

#[test]
fn glob_rules_select_and_reject_paths() {
    let rules = strings(&["src/**", "!src/gen/**"]);
    assert_eq!(path_matches_globs(&rules, "src/a.rs", None), Ok(true));
    assert_eq!(path_matches_globs(&rules, "src/gen/x.rs", None), Ok(false));
    assert_eq!(path_matches_globs(&rules, "docs/x.md", None), Ok(false));
    assert_eq!(path_matches_globs(&rules, "docs/x.md", Some("src/x.md")), Ok(true));
    assert_eq!(path_matches_globs(&[], "anything", None), Ok(true));
    assert!(matches!(
        path_matches_globs(&strings(&["a[b"]), "a", None),
        Err(AppError::InvalidArgument(_))
    ));
}

#[test]
fn change_for_path_finds_first_change_by_path_or_old_path() {
    let changes = vec![
        change("a.txt", None, "modified"),
        change("c.txt", Some("b.txt"), "renamed"),
        change("b.txt", None, "added"),
    ];
    let found = change_for_path(changes.clone(), "b.txt").expect("b.txt changed");
    assert_eq!(found.path, "c.txt");
    assert_eq!(found.old_path.as_deref(), Some("b.txt"));
    assert_eq!(change_for_path(changes.clone(), "a.txt").map(|c| c.path), Some("a.txt".to_string()));
    assert!(change_for_path(changes, "d.txt").is_none());
}

#[test]
fn branch_list_marks_and_appends_the_current_branch() {
    let listed = branch_list(strings(&["main", "dev"]), Some("dev".to_string()));
    let view: Vec<(String, bool)> = listed.into_iter().map(|b| (b.name, b.current)).collect();
    assert_eq!(view, vec![("main".to_string(), false), ("dev".to_string(), true)]);
    let detached = branch_list(strings(&["main"]), Some("topic".to_string()));
    let view: Vec<(String, bool)> = detached.into_iter().map(|b| (b.name, b.current)).collect();
    assert_eq!(view, vec![("main".to_string(), false), ("topic".to_string(), true)]);
    assert!(branch_list(Vec::new(), None).is_empty());
}

fn cached_block(ordinal: u32) -> CachedFileBlock {
    CachedFileBlock {
        ordinal,
        old_start: 1,
        old_end: 2,
        new_start: 3,
        new_end: 4,
        change_type: 1,
        confidence: Some(2),
        warning_flags: 0,
        commits: Vec::new(),
    }
}

fn touched(line: u64) -> CachedTouchedRange {
    CachedTouchedRange { old_start: None, old_end: None, new_start: Some(line), new_end: Some(line) }
}

#[test]
fn cached_blocks_gather_their_commits_ranges_and_merges() {
    let blocks = vec![cached_block(0), cached_block(1)];
    let commits = vec![
        (0, "a".to_string(), true, Some(1)),
        (1, "b".to_string(), false, None),
        (0, "c".to_string(), false, Some(2)),
    ];
    let ranges = vec![
        (0, "a".to_string(), touched(5)),
        (1, "a".to_string(), touched(6)),
        (0, "a".to_string(), touched(7)),
    ];
    let merges = vec![(0, "c".to_string(), "m1".to_string()), (0, "c".to_string(), "m2".to_string())];
    let out = assemble_file_blocks(&blocks, &commits, &ranges, &merges);
    assert_eq!(out.len(), 2);
    assert_eq!(out[0].new_start, 3);
    let first: Vec<&str> = out[0].commits.iter().map(|c| c.commit_hash.as_str()).collect();
    assert_eq!(first, vec!["a", "c"]);
    assert_eq!(out[0].commits[0].touched_ranges, vec![touched(5), touched(7)]);
    assert!(out[0].commits[0].matched_by_filter);
    assert_eq!(out[0].commits[1].merge_hashes, vec!["m1".to_string(), "m2".to_string()]);
    assert_eq!(out[0].commits[1].attribution_method, Some(2));
    assert_eq!(out[1].commits.len(), 1);
    assert_eq!(out[1].commits[0].commit_hash, "b");
    assert!(out[1].commits[0].touched_ranges.is_empty());
}

#[test]
fn merges_join_the_via_list_once() {
    let merge = commit("m1", "A", None, "merge", true);
    let plain = commit("c1", "A", None, "plain", false);
    assert_eq!(extend_via(Vec::new(), &merge), vec!["m1".to_string()]);
    assert_eq!(extend_via(strings(&["m1"]), &merge), strings(&["m1"]));
    assert_eq!(extend_via(strings(&["m0"]), &plain), strings(&["m0"]));
}

#[test]
fn active_paths_start_at_the_old_path_and_match_either_side() {
    assert_eq!(initial_active_paths("new.txt", Some("old.txt")), strings(&["old.txt"]));
    assert_eq!(initial_active_paths("new.txt", None), strings(&["new.txt"]));
    let active = strings(&["old.txt"]);
    assert!(change_touches_active_path(&change("old.txt", None, "modified"), &active));
    assert!(change_touches_active_path(&change("new.txt", Some("old.txt"), "renamed"), &active));
    assert!(!change_touches_active_path(&change("other.txt", None, "added"), &active));
}

#[test]
fn optional_values_fit_the_database_integer_or_fail() {
    assert_eq!(optional_i64(None, "x"), Ok(None));
    assert_eq!(optional_i64(Some(7), "x"), Ok(Some(7)));
    assert_eq!(
        optional_i64(Some(u64::MAX), "elapsed_ms"),
        Err(AppError::InvalidArgument("elapsed_ms 超出 DuckDB BIGINT 范围".to_string()))
    );
}

#[test]
fn range_files_keep_touched_changes_with_statistics_sorted_by_path() {
    let final_changes = vec![
        change("z.txt", None, "modified"),
        change("a.txt", None, "modified"),
        change("b.txt", None, "added"),
    ];
    let touched = vec![listed("b.txt", None, "added"), listed("a.txt", None, "modified")];
    let files = files_for_range_changes(
        final_changes.clone(),
        &touched,
        &[],
        &revier_analysis::execution::AnalysisExecutionContext::none(),
        |mut c: CommitFileChange| {
            c.additions = 1;
            Ok(c)
        },
    )
    .expect("statistics succeed");
    let paths: Vec<&str> = files.iter().map(|f| f.path.as_str()).collect();
    assert_eq!(paths, vec!["a.txt", "b.txt"]);
    assert!(files.iter().all(|f| f.additions == 1));
    let filtered = files_for_range_changes(
        final_changes.clone(),
        &touched,
        &strings(&["!b.txt"]),
        &revier_analysis::execution::AnalysisExecutionContext::none(),
        |c: CommitFileChange| Ok(c),
    )
    .expect("statistics succeed");
    assert_eq!(filtered.len(), 1);
    assert_eq!(filtered[0].path, "a.txt");
    let failed = files_for_range_changes(
        final_changes,
        &touched,
        &[],
        &revier_analysis::execution::AnalysisExecutionContext::none(),
        |_: CommitFileChange| Err(AppError::Repository("stats broken".to_string())),
    );
    assert!(matches!(failed, Err(AppError::Repository(_))));
}

#[test]
fn parent_paths_follow_renames_between_parent_and_child() {
    let found = revier_analysis::attribution::path_history::parent_path_candidates(
        |_: &str, _: &str| {
            Ok(vec![RenameChange { old_path: "old.txt".to_string(), new_path: "new.txt".to_string() }])
        },
        "parent",
        "child",
        "new.txt",
    )
    .expect("renames are read");
    assert_eq!(found.paths, strings(&["new.txt", "old.txt"]));
    let failed = revier_analysis::attribution::path_history::parent_path_candidates(
        |_: &str, _: &str| Err(AppError::Repository("diff broken".to_string())),
        "parent",
        "child",
        "new.txt",
    );
    assert!(matches!(failed, Err(AppError::Repository(_))));
}

fn source_changes(_hash: &str) -> Result<Vec<CommitFileChange>, AppError> {
    Ok(vec![change("src/app.txt", None, "modified")])
}

fn source_blob(_hash: &str, _path: &str) -> Result<Option<Vec<u8>>, AppError> {
    Ok(Some(b"x".to_vec()))
}

fn source_paths(_parent: &str, _child: &str, path: &str) -> Result<Vec<String>, AppError> {
    Ok(vec![path.to_string()])
}

fn source_commit(hash: &str) -> Result<IndexedCommit, AppError> {
    Ok(commit(hash, "A", None, "s", false))
}

#[test]
fn first_parent_source_validation_reuses_cache_entry() {
    let mut plain = commit("c1", "A", None, "s", false);
    plain.parents = vec!["p".to_string()];
    let mut cache = SourceValidationCache::new();
    let first = cache
        .validate_first_parent_source(source_changes, source_blob, source_paths, source_commit, &plain, "src/app.txt")
        .expect("第一次验证成功");
    let second = cache
        .validate_first_parent_source(source_changes, source_blob, source_paths, source_commit, &plain, "src/app.txt")
        .expect("第二次验证成功");
    assert_eq!(first, second);
    assert_eq!(cache.len(), 1);
    let source = first.expect("应返回有效来源");
    assert_eq!(source.first_parent_hash, "p");
    assert_eq!(source.change_status, "modified");
}

#[test]
fn merge_with_a_second_parent_holding_the_blob_is_no_first_parent_source() {
    let mut merge = commit("m", "A", None, "merge", true);
    merge.parents = vec!["p1".to_string(), "p2".to_string()];
    let mut cache = SourceValidationCache::new();
    let source = cache
        .validate_first_parent_source(source_changes, source_blob, source_paths, source_commit, &merge, "src/app.txt")
        .expect("验证成功");
    assert_eq!(source, None);
}
