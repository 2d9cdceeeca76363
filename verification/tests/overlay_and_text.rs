use revier_analysis::contracts::{ResolvedTextEncoding, TextEncoding};
use revier_analysis::error::AppError;
use revier_analysis::git::blob::{is_binary_bytes, with_path_context};
use revier_analysis::git::diff::range_line_counts;
use revier_analysis::git::repository::{normalize_path_text, repository_id};
use revier_analysis::overlay::block_ranges::split_monaco_lines;
use revier_analysis::overlay::diff_builder::build_overlay_diff;
use revier_analysis::overlay::line_diff::{diff_lines, LineDiffPart};
use revier_analysis::text_encoding::{
    decode_text_bytes, parse_text_encoding, resolved_as_requested, resolved_as_str,
};

fn old_column(text_rows: &[revier_analysis::json::SideBySideDiffRowOutput]) -> Vec<String> {
    text_rows.iter().filter_map(|row| row.old_text.clone()).collect()
}

fn new_column(text_rows: &[revier_analysis::json::SideBySideDiffRowOutput]) -> Vec<String> {
    text_rows.iter().filter_map(|row| row.new_text.clone()).collect()
}

#[test]
fn overlay_rows_show_both_texts_in_order() {
    let old = "alpha\nbeta\ngamma\n";
    let new = "alpha\nBETA\ngamma\ndelta\n";
    let built = build_overlay_diff(old, new);

    assert_eq!(old_column(&built.rows), vec!["alpha", "beta", "gamma"]);
    assert_eq!(new_column(&built.rows), vec!["alpha", "BETA", "gamma", "delta"]);
    assert!(!built.blocks.is_empty());
}

#[test]
fn identical_texts_have_no_blocks() {
    let built = build_overlay_diff("same\ntext\n", "same\ntext\n");

    assert!(built.blocks.is_empty());
    assert_eq!(built.rows.len(), 2);
    assert!(built.rows.iter().all(|row| row.row_type == "context"));
}

#[test]
fn line_diff_runs_rebuild_both_texts() {
    let parts = diff_lines("a\nb\nc\n", "a\nc\nd\n");
    let mut old = Vec::new();
    let mut new = Vec::new();
    for part in &parts {
        match part {
            LineDiffPart::Equal(lines) => {
                old.extend(lines.iter().cloned());
                new.extend(lines.iter().cloned());
            }
            LineDiffPart::Removed(lines) => old.extend(lines.iter().cloned()),
            LineDiffPart::Added(lines) => new.extend(lines.iter().cloned()),
        }
    }

    assert_eq!(old, vec!["a", "b", "c"]);
    assert_eq!(new, vec!["a", "c", "d"]);
}

#[test]
fn line_counts_differ_by_the_change_in_length() {
    let (additions, deletions) = range_line_counts("a\nb\n", "a\nb\nc\nd\n");

    assert_eq!((additions, deletions), (2, 0));
    let (additions, deletions) = range_line_counts("x\ny\nz\n", "x\n");
    assert_eq!((additions, deletions), (0, 2));
}

#[test]
fn binary_bytes_need_a_nul_without_a_utf16_bom() {
    assert!(is_binary_bytes(b"abc\0def"));
    assert!(!is_binary_bytes(b"plain text"));
    assert!(!is_binary_bytes(&[0xff, 0xfe, 0x41, 0x00]));
    let mut late_nul = vec![b'a'; 8000];
    late_nul.push(0);
    assert!(!is_binary_bytes(&late_nul));
}

#[test]
fn decode_errors_name_the_file() {
    let named = with_path_context(AppError::FileNotAnalyzable("坏".to_string()), "src/a.txt");
    assert_eq!(named, AppError::FileNotAnalyzable("src/a.txt：坏".to_string()));
    let other = with_path_context(AppError::Repository("x".to_string()), "src/a.txt");
    assert_eq!(other, AppError::Repository("x".to_string()));
}

#[test]
fn text_encodings_parse_and_name() {
    assert_eq!(parse_text_encoding("gb18030").expect("支持的编码"), TextEncoding::Gb18030);
    assert!(matches!(
        parse_text_encoding("latin1"),
        Err(AppError::InvalidArgument(_))
    ));
    assert_eq!(resolved_as_str(ResolvedTextEncoding::Utf16Be), "utf-16be");
}

#[test]
fn utf8_text_decodes_and_strips_its_bom() {
    let decoded = decode_text_bytes(b"\xef\xbb\xbfhello\n", TextEncoding::Auto).expect("合法 UTF-8");
    assert_eq!(decoded.text, "hello\n");
    assert_eq!(decoded.encoding, ResolvedTextEncoding::Utf8);
}

#[test]
fn utf16_text_decodes_by_its_bom() {
    let decoded = decode_text_bytes(&[0xff, 0xfe, b'h', 0, b'i', 0], TextEncoding::Auto)
        .expect("合法 UTF-16LE");
    assert_eq!(decoded.text, "hi");
    assert_eq!(decoded.encoding, ResolvedTextEncoding::Utf16Le);
}

#[test]
fn gb18030_text_decodes() {
    let decoded = decode_text_bytes(&[0xc4, 0xe3, 0xba, 0xc3], TextEncoding::Gb18030)
        .expect("合法 GB18030");
    assert_eq!(decoded.text, "你好");
    assert_eq!(decoded.encoding, ResolvedTextEncoding::Gb18030);
}

#[test]
fn invalid_utf8_is_not_analyzable() {
    assert!(matches!(
        decode_text_bytes(&[0xc3, 0x28], TextEncoding::Utf8),
        Err(AppError::FileNotAnalyzable(_))
    ));
}

#[test]
fn repository_paths_normalize_and_hash() {
    assert_eq!(normalize_path_text("C:\\repo\\app\\"), "C:/repo/app");
    assert_eq!(normalize_path_text("/srv/repo//"), "/srv/repo");
    let id = repository_id("/srv/repo", "/srv/repo/.git");
    assert_eq!(id.len(), 64);
    assert!(id.chars().all(|c| c.is_ascii_hexdigit() && !c.is_ascii_uppercase()));
    assert_ne!(id, repository_id("/srv/repo2", "/srv/repo/.git"));
    assert_eq!(id, repository_id("/srv/repo", "/srv/repo/.git"));
}

#[test]
fn exit_codes_follow_the_error_kind() {
    assert_eq!(AppError::InvalidArgument(String::new()).exit_code(), 2);
    assert_eq!(AppError::Repository(String::new()).exit_code(), 3);
    assert_eq!(AppError::IndexUnavailable(String::new()).exit_code(), 4);
    assert_eq!(AppError::SchemaIncompatible(String::new()).exit_code(), 5);
    assert_eq!(AppError::DuckDb(String::new()).exit_code(), 6);
    assert_eq!(AppError::Cancelled.exit_code(), 130);
    assert_eq!(AppError::Json(String::new()).exit_code(), 10);
}

#[test]
fn resolved_encodings_map_back_to_requests() {
    assert_eq!(resolved_as_requested(ResolvedTextEncoding::Utf8), TextEncoding::Utf8);
    assert_eq!(resolved_as_requested(ResolvedTextEncoding::Gb18030), TextEncoding::Gb18030);
    assert_eq!(resolved_as_requested(ResolvedTextEncoding::Utf16Le), TextEncoding::Utf16Le);
    assert_eq!(resolved_as_requested(ResolvedTextEncoding::Utf16Be), TextEncoding::Utf16Be);
}

fn equal_line_count(parts: &[LineDiffPart]) -> usize {
    parts
        .iter()
        .map(|part| match part {
            LineDiffPart::Equal(lines) => lines.len(),
            _ => 0,
        })
        .sum()
}

#[test]
fn line_diff_keeps_a_longest_common_subsequence() {
    assert_eq!(equal_line_count(&diff_lines("a\nb\nc\nd\n", "b\nx\nd\na\n")), 2);
    assert_eq!(equal_line_count(&diff_lines("a\nb\nc\nb\na\n", "b\na\nc\na\nb\n")), 3);
    assert_eq!(equal_line_count(&diff_lines("x\ny\n", "p\nq\n")), 0);
    assert_eq!(equal_line_count(&diff_lines("same\ntext\n", "same\ntext\n")), 2);
    assert_eq!(
        diff_lines("a\nb\nc\n", "a\nx\nc\n"),
        vec![
            LineDiffPart::Equal(vec!["a".to_string()]),
            LineDiffPart::Removed(vec!["b".to_string()]),
            LineDiffPart::Added(vec!["x".to_string()]),
            LineDiffPart::Equal(vec!["c".to_string()]),
        ]
    );
}

#[test]
fn client_ranges_become_blocks_or_are_refused() {
    let range = revier_analysis::contracts::DiffBlockRange {
        id: "b1".to_string(),
        old_start: 2,
        old_end: 2,
        new_start: 2,
        new_end: 3,
        change_type: revier_analysis::contracts::DiffBlockChangeType::Modified,
    };
    let blocks = revier_analysis::overlay::block_ranges::build_blocks_from_ranges("a\nb\nc", "a\nx\ny\nc", &[range.clone()])
        .expect("the range is valid");
    assert_eq!(blocks.len(), 1);
    assert_eq!(blocks[0].rows.len(), 2);
    assert_eq!(blocks[0].rows[0].old_text.as_deref(), Some("b"));
    assert_eq!(blocks[0].rows[1].new_text.as_deref(), Some("y"));
    assert_eq!(blocks[0].change_type, "modified");
    let mut out_of_bounds = range.clone();
    out_of_bounds.new_end = 9;
    assert!(matches!(
        revier_analysis::overlay::block_ranges::build_blocks_from_ranges("a\nb\nc", "a\nx\ny\nc", &[out_of_bounds]),
        Err(revier_analysis::error::AppError::InvalidArgument(_))
    ));
}

#[test]
fn a_changed_line_is_one_modified_row() {
    let parts = diff_lines("a\nb\n", "a\nc\n");
    assert_eq!(
        parts,
        vec![
            LineDiffPart::Equal(vec!["a".to_string()]),
            LineDiffPart::Removed(vec!["b".to_string()]),
            LineDiffPart::Added(vec!["c".to_string()]),
        ]
    );
    let built = build_overlay_diff("a\nb\n", "a\nc\n");
    assert_eq!(built.rows.len(), 2);
    assert_eq!(built.rows[0].row_type, "context");
    assert_eq!(built.rows[0].old_line_number, Some(1));
    assert_eq!(built.rows[0].new_line_number, Some(1));
    assert_eq!(built.rows[0].block_id, None);
    assert_eq!(built.rows[1].row_type, "modified");
    assert_eq!(built.rows[1].old_line_number, Some(2));
    assert_eq!(built.rows[1].new_line_number, Some(2));
    assert_eq!(built.rows[1].old_text.as_deref(), Some("b"));
    assert_eq!(built.rows[1].new_text.as_deref(), Some("c"));
    assert_eq!(built.rows[1].block_id.as_deref(), Some("block-1"));
    assert_eq!(built.blocks.len(), 1);
    assert_eq!(built.blocks[0].id, "block-1");
    assert_eq!((built.blocks[0].old_start, built.blocks[0].old_end), (2, 2));
    assert_eq!((built.blocks[0].new_start, built.blocks[0].new_end), (2, 2));
    assert_eq!(built.blocks[0].row_start_index, Some(1));
    assert_eq!(built.blocks[0].row_end_index, Some(1));
    assert_eq!(built.blocks[0].change_type, "modified");
    assert_eq!(built.blocks[0].rows.len(), 1);
}

#[test]
fn one_trailing_newline_does_not_change_the_diff() {
    assert_eq!(diff_lines("a", "a\n"), vec![LineDiffPart::Equal(vec!["a".to_string()])]);
    assert_eq!(diff_lines("", "x\ny\n"), vec![LineDiffPart::Added(vec!["x".to_string(), "y".to_string()])]);
    assert_eq!(diff_lines("p\nq", "q\nr\n"), diff_lines("p\nq\n", "q\nr\n"));
}

#[test]
fn overlay_rows_number_each_side_in_order() {
    let built = build_overlay_diff("a\nb\nc\n", "a\nx\ny\nc\nd\n");
    let old_numbers: Vec<usize> = built.rows.iter().filter_map(|row| row.old_line_number).collect();
    let new_numbers: Vec<usize> = built.rows.iter().filter_map(|row| row.new_line_number).collect();
    assert_eq!(old_numbers, vec![1, 2, 3]);
    assert_eq!(new_numbers, vec![1, 2, 3, 4, 5]);
    for row in &built.rows {
        assert!(row.old_line_number.is_some() || row.new_line_number.is_some());
        assert_eq!(row.old_line_number.is_some(), row.old_text.is_some());
        assert_eq!(row.new_line_number.is_some(), row.new_text.is_some());
        if row.row_type == "context" {
            assert_eq!(row.old_text, row.new_text);
        }
        if row.row_type == "added" {
            assert!(row.old_text.is_none());
        }
        if row.row_type == "deleted" {
            assert!(row.new_text.is_none());
        }
    }
    let types: Vec<&str> = built.rows.iter().map(|row| row.row_type.as_str()).collect();
    assert_eq!(types, vec!["context", "modified", "modified", "context", "added"]);
    assert!(built.rows[1].word_changes.is_some());
    assert!(built.rows[2].word_changes.is_none());
}

#[test]
fn a_text_against_itself_is_numbered_context() {
    let built = build_overlay_diff("one\ntwo\nthree", "one\ntwo\nthree");
    assert!(built.blocks.is_empty());
    assert_eq!(built.rows.len(), 3);
    for (i, row) in built.rows.iter().enumerate() {
        assert_eq!(row.row_type, "context");
        assert_eq!(row.old_line_number, Some(i + 1));
        assert_eq!(row.new_line_number, Some(i + 1));
        assert_eq!(row.old_text, row.new_text);
        assert!(row.word_changes.is_none());
        assert!(row.block_id.is_none());
    }
    assert_eq!(built.rows[2].old_text.as_deref(), Some("three"));
}

#[test]
fn editor_lines_keep_every_newline() {
    assert_eq!(split_monaco_lines(""), vec!["".to_string()]);
    assert_eq!(split_monaco_lines("a\n"), vec!["a".to_string(), "".to_string()]);
    assert_eq!(split_monaco_lines("a\nb"), vec!["a".to_string(), "b".to_string()]);
    let text = "x\n\ny\n";
    let lines = split_monaco_lines(text);
    assert_eq!(lines.join("\n"), text);
    assert_eq!(lines.len(), text.matches('\n').count() + 1);
}

#[test]
fn plain_utf8_text_decodes_to_itself() {
    for text in ["", "plain\n", "héllo\tworld\r\n中文", "a\u{1}b"] {
        for requested in [TextEncoding::Utf8, TextEncoding::Auto] {
            let decoded = decode_text_bytes(text.as_bytes(), requested).expect("decodes");
            assert_eq!(decoded.text, text);
            assert_eq!(decoded.encoding, ResolvedTextEncoding::Utf8);
        }
    }
}
