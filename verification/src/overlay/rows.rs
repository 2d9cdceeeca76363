//! Side-by-side rows built from the runs of a line diff.
use crate::json::{rows_view, RowView, SideBySideDiffRowOutput, WordChangeOutput};
use crate::overlay::line_diff::{new_side, old_side, LineDiffPart};
use crate::text::lines_view;
use vstd::prelude::*;

verus! {

/// The word changes of a row: the whole old text as removed and the whole new text as added,
/// when both sides hold text and the texts differ.
pub open spec fn word_changes_spec(old: Option<Seq<char>>, new: Option<Seq<char>>) -> Option<
    Seq<(Seq<char>, Option<bool>, Option<bool>)>,
> {
    match (old, new) {
        (Some(o), Some(n)) => if o != n {
            Some(seq![(o, None, Some(true)), (n, Some(true), None)])
        } else {
            None
        },
        _ => None,
    }
}

/// The `k`-th line of `lines`, if there is one.
pub open spec fn line_at(lines: Seq<Seq<char>>, k: int) -> Option<Seq<char>> {
    if 0 <= k < lines.len() {
        Some(lines[k])
    } else {
        None
    }
}

/// Line number `start + k` when `k` is below `count`.
pub open spec fn number_at(count: int, start: int, k: int) -> Option<usize> {
    if 0 <= k < count {
        Some((start + k) as usize)
    } else {
        None
    }
}

/// Rows pairing removed lines `o` (numbered from `ol`) with added lines `n` (numbered from `nl`).
pub open spec fn modified_rows(o: Seq<Seq<char>>, n: Seq<Seq<char>>, ol: int, nl: int) -> Seq<
    RowView,
> {
    Seq::new(
        if o.len() >= n.len() {
            o.len()
        } else {
            n.len()
        },
        |k: int|
            RowView {
                old_line_number: number_at(o.len() as int, ol, k),
                new_line_number: number_at(n.len() as int, nl, k),
                old_text: line_at(o, k),
                new_text: line_at(n, k),
                row_type: "modified"@,
                word_changes: word_changes_spec(line_at(o, k), line_at(n, k)),
                block_id: None,
            },
    )
}

/// Rows of unchanged lines, numbered from `ol` and `nl`.
pub open spec fn context_rows(lines: Seq<Seq<char>>, ol: int, nl: int) -> Seq<RowView> {
    Seq::new(
        lines.len(),
        |k: int|
            RowView {
                old_line_number: Some((ol + k) as usize),
                new_line_number: Some((nl + k) as usize),
                old_text: Some(lines[k]),
                new_text: Some(lines[k]),
                row_type: "context"@,
                word_changes: None,
                block_id: None,
            },
    )
}

/// Rows of added lines, numbered from `nl`.
pub open spec fn added_rows(lines: Seq<Seq<char>>, nl: int) -> Seq<RowView> {
    Seq::new(
        lines.len(),
        |k: int|
            RowView {
                old_line_number: None,
                new_line_number: Some((nl + k) as usize),
                old_text: None,
                new_text: Some(lines[k]),
                row_type: "added"@,
                word_changes: None,
                block_id: None,
            },
    )
}

/// Rows of deleted lines, numbered from `ol`.
pub open spec fn deleted_rows(lines: Seq<Seq<char>>, ol: int) -> Seq<RowView> {
    Seq::new(
        lines.len(),
        |k: int|
            RowView {
                old_line_number: Some((ol + k) as usize),
                new_line_number: None,
                old_text: Some(lines[k]),
                new_text: None,
                row_type: "deleted"@,
                word_changes: None,
                block_id: None,
            },
    )
}

/// The rows of a sequence of runs whose first old line is numbered `ol` and first new line `nl`:
/// a removed run directly followed by an added run becomes modified rows pairing the two,
/// any other run becomes rows of its own kind.
pub open spec fn expected_rows(parts: Seq<LineDiffPart>, ol: int, nl: int) -> Seq<RowView>
    decreases parts.len(),
{
    if parts.len() == 0 {
        Seq::empty()
    } else if parts[0].kind() == 2 && parts.len() > 1 && parts[1].kind() == 1 {
        modified_rows(parts[0].lines(), parts[1].lines(), ol, nl) + expected_rows(
            parts.skip(2),
            ol + parts[0].lines().len(),
            nl + parts[1].lines().len(),
        )
    } else if parts[0].kind() == 0 {
        context_rows(parts[0].lines(), ol, nl) + expected_rows(
            parts.skip(1),
            ol + parts[0].lines().len(),
            nl + parts[0].lines().len(),
        )
    } else if parts[0].kind() == 1 {
        added_rows(parts[0].lines(), nl) + expected_rows(
            parts.skip(1),
            ol,
            nl + parts[0].lines().len(),
        )
    } else {
        deleted_rows(parts[0].lines(), ol) + expected_rows(
            parts.skip(1),
            ol + parts[0].lines().len(),
            nl,
        )
    }
}

/// How many rows a line diff's runs take: a removed run directly followed by an added run takes
/// as many rows as the longer of the two, any other run one row per line.
pub open spec fn row_count(parts: Seq<LineDiffPart>) -> int
    decreases parts.len(),
{
    if parts.len() == 0 {
        0
    } else if parts[0].kind() == 2 && parts.len() > 1 && parts[1].kind() == 1 {
        (if parts[0].lines().len() >= parts[1].lines().len() {
            parts[0].lines().len()
        } else {
            parts[1].lines().len()
        }) + row_count(parts.skip(2))
    } else {
        parts[0].lines().len() + row_count(parts.skip(1))
    }
}

/// The rows of a line diff are as many as `row_count` says.
pub proof fn lemma_row_count(parts: Seq<LineDiffPart>, ol: int, nl: int)
    ensures
        expected_rows(parts, ol, nl).len() == row_count(parts),
    decreases parts.len(),
{
    if parts.len() > 0 {
        if parts[0].kind() == 2 && parts.len() > 1 && parts[1].kind() == 1 {
            lemma_row_count(parts.skip(2), ol + parts[0].lines().len(), nl + parts[1].lines().len());
        } else if parts[0].kind() == 0 {
            lemma_row_count(parts.skip(1), ol + parts[0].lines().len(), nl + parts[0].lines().len());
        } else if parts[0].kind() == 1 {
            lemma_row_count(parts.skip(1), ol, nl + parts[0].lines().len());
        } else {
            lemma_row_count(parts.skip(1), ol + parts[0].lines().len(), nl);
        }
    }
}

proof fn lemma_sides_of_prefix(parts: Seq<LineDiffPart>, i: int)
    requires
        0 <= i < parts.len(),
    ensures
        old_side(parts.take(i + 1)) == old_side(parts.take(i)) + parts[i].old_lines(),
        new_side(parts.take(i + 1)) == new_side(parts.take(i)) + parts[i].new_lines(),
{
    assert(parts.take(i + 1).drop_last() =~= parts.take(i));
}

proof fn lemma_side_prefix_bounded(parts: Seq<LineDiffPart>, i: int)
    requires
        0 <= i <= parts.len(),
    ensures
        old_side(parts.take(i)).len() <= old_side(parts).len(),
        new_side(parts.take(i)).len() <= new_side(parts).len(),
    decreases parts.len() - i,
{
    if i < parts.len() {
        lemma_side_prefix_bounded(parts, i + 1);
        lemma_sides_of_prefix(parts, i);
    } else {
        assert(parts.take(i) =~= parts);
    }
}

fn part_lines(p: &LineDiffPart) -> (l: &Vec<String>)
    ensures
        lines_view(l@) == p.lines(),
{
    match p {
        LineDiffPart::Equal(l) => l,
        LineDiffPart::Added(l) => l,
        LineDiffPart::Removed(l) => l,
    }
}

fn part_kind(p: &LineDiffPart) -> (k: u8)
    ensures
        k as int == p.kind(),
{
    match p {
        LineDiffPart::Equal(_) => 0,
        LineDiffPart::Added(_) => 1,
        LineDiffPart::Removed(_) => 2,
    }
}

fn clone_opt(o: &Option<String>) -> (r: Option<String>)
    ensures
        r == *o,
{
    match o {
        Some(s) => Some(s.clone()),
        None => None,
    }
}

/// Side-by-side rows for the runs of a line diff, old and new lines numbered from 1.
pub fn build_rows(parts: &[LineDiffPart]) -> (rows: Vec<SideBySideDiffRowOutput>)
    requires
        old_side(parts@).len() < usize::MAX,
        new_side(parts@).len() < usize::MAX,
    ensures
        rows_view(rows@) == expected_rows(parts@, 1, 1),
{
    let ghost all = parts@;
    let mut rows: Vec<SideBySideDiffRowOutput> = Vec::new();
    let mut old_line: usize = 1;
    let mut new_line: usize = 1;
    let mut index: usize = 0;
    assert(all.skip(0) =~= all);
    assert(all.take(0) =~= Seq::<LineDiffPart>::empty());
    while index < parts.len()
        invariant
            all == parts@,
            old_side(all).len() < usize::MAX,
            new_side(all).len() < usize::MAX,
            index <= parts.len(),
            old_line == 1 + old_side(all.take(index as int)).len(),
            new_line == 1 + new_side(all.take(index as int)).len(),
            rows_view(rows@) + expected_rows(all.skip(index as int), old_line as int, new_line as int)
                == expected_rows(all, 1, 1),
        decreases parts.len() - index,
    {
        let ghost rest = all.skip(index as int);
        let ghost base = rows_view(rows@);
        let ghost ol0 = old_line as int;
        let ghost nl0 = new_line as int;
        assert(rest[0] == all[index as int]);
        proof {
            lemma_sides_of_prefix(all, index as int);
            lemma_side_prefix_bounded(all, index as int + 1);
        }
        let kind = part_kind(&parts[index]);
        let pair = kind == 2 && index + 1 < parts.len() && part_kind(&parts[index + 1]) == 1;
        if pair {
            assert(rest[1] == all[index + 1]);
            proof {
                lemma_sides_of_prefix(all, index + 1);
                lemma_side_prefix_bounded(all, index + 2);
            }
            let old_lines = part_lines(&parts[index]);
            let new_lines = part_lines(&parts[index + 1]);
            let ghost o = lines_view(old_lines@);
            let ghost n = lines_view(new_lines@);
            let max_len = if old_lines.len() >= new_lines.len() {
                old_lines.len()
            } else {
                new_lines.len()
            };
            let mut offset: usize = 0;
            while offset < max_len
                invariant
                    o == lines_view(old_lines@),
                    n == lines_view(new_lines@),
                    max_len == (if o.len() >= n.len() {
                        o.len()
                    } else {
                        n.len()
                    }),
                    offset <= max_len,
                    ol0 + o.len() <= usize::MAX,
                    nl0 + n.len() <= usize::MAX,
                    old_line == ol0 + (if offset <= o.len() {
                        offset as int
                    } else {
                        o.len() as int
                    }),
                    new_line == nl0 + (if offset <= n.len() {
                        offset as int
                    } else {
                        n.len() as int
                    }),
                    rows_view(rows@) == base + modified_rows(o, n, ol0, nl0).take(offset as int),
                decreases max_len - offset,
            {
                let old_text = if offset < old_lines.len() {
                    Some(old_lines[offset].clone())
                } else {
                    None
                };
                let new_text = if offset < new_lines.len() {
                    Some(new_lines[offset].clone())
                } else {
                    None
                };
                let old_line_number = if offset < old_lines.len() {
                    let current = old_line;
                    old_line += 1;
                    Some(current)
                } else {
                    None
                };
                let new_line_number = if offset < new_lines.len() {
                    let current = new_line;
                    new_line += 1;
                    Some(current)
                } else {
                    None
                };
                let word_changes = word_changes(&old_text, &new_text);
                let row = SideBySideDiffRowOutput {
                    old_line_number,
                    new_line_number,
                    old_text: clone_opt(&old_text),
                    new_text: clone_opt(&new_text),
                    row_type: String::from_str("modified"),
                    word_changes,
                    block_id: None,
                };
                let ghost before = rows@;
                rows.push(row);
                assert(row@ == modified_rows(o, n, ol0, nl0)[offset as int]);
                assert(rows_view(rows@) =~= rows_view(before).push(row@));
                assert(modified_rows(o, n, ol0, nl0).take(offset + 1) =~= modified_rows(
                    o,
                    n,
                    ol0,
                    nl0,
                ).take(offset as int).push(modified_rows(o, n, ol0, nl0)[offset as int]));
                offset += 1;
            }
            assert(modified_rows(o, n, ol0, nl0).take(max_len as int) =~= modified_rows(
                o,
                n,
                ol0,
                nl0,
            ));
            assert(rest.skip(2) =~= all.skip(index + 2));
            index += 2;
        } else {
            let lines = part_lines(&parts[index]);
            let ghost l = lines_view(lines@);
            let mut offset: usize = 0;
            while offset < lines.len()
                invariant
                    l == lines_view(lines@),
                    kind as int == all[index as int].kind(),
                    offset <= lines.len(),
                    kind != 2 ==> nl0 + l.len() <= usize::MAX,
                    kind != 1 ==> ol0 + l.len() <= usize::MAX,
                    old_line == ol0 + (if kind != 1 {
                        offset as int
                    } else {
                        0
                    }),
                    new_line == nl0 + (if kind != 2 {
                        offset as int
                    } else {
                        0
                    }),
                    rows_view(rows@) == base + (if kind == 0 {
                        context_rows(l, ol0, nl0)
                    } else if kind == 1 {
                        added_rows(l, nl0)
                    } else {
                        deleted_rows(l, ol0)
                    }).take(offset as int),
                decreases lines.len() - offset,
            {
                let ghost seg = if kind == 0 {
                    context_rows(l, ol0, nl0)
                } else if kind == 1 {
                    added_rows(l, nl0)
                } else {
                    deleted_rows(l, ol0)
                };
                let row = if kind == 0 {
                    let r = SideBySideDiffRowOutput {
                        old_line_number: Some(old_line),
                        new_line_number: Some(new_line),
                        old_text: Some(lines[offset].clone()),
                        new_text: Some(lines[offset].clone()),
                        row_type: String::from_str("context"),
                        word_changes: None,
                        block_id: None,
                    };
                    old_line += 1;
                    new_line += 1;
                    r
                } else if kind == 1 {
                    let r = SideBySideDiffRowOutput {
                        old_line_number: None,
                        new_line_number: Some(new_line),
                        old_text: None,
                        new_text: Some(lines[offset].clone()),
                        row_type: String::from_str("added"),
                        word_changes: None,
                        block_id: None,
                    };
                    new_line += 1;
                    r
                } else {
                    let r = SideBySideDiffRowOutput {
                        old_line_number: Some(old_line),
                        new_line_number: None,
                        old_text: Some(lines[offset].clone()),
                        new_text: None,
                        row_type: String::from_str("deleted"),
                        word_changes: None,
                        block_id: None,
                    };
                    old_line += 1;
                    r
                };
                let ghost before = rows@;
                rows.push(row);
                assert(row@ == seg[offset as int]);
                assert(rows_view(rows@) =~= rows_view(before).push(row@));
                assert(seg.take(offset + 1) =~= seg.take(offset as int).push(seg[offset as int]));
                offset += 1;
            }
            let ghost seg = if kind == 0 {
                context_rows(l, ol0, nl0)
            } else if kind == 1 {
                added_rows(l, nl0)
            } else {
                deleted_rows(l, ol0)
            };
            assert(seg.take(l.len() as int) =~= seg);
            assert(rest.skip(1) =~= all.skip(index + 1));
            index += 1;
        }
    }
    assert(rows_view(rows@) + expected_rows(all.skip(index as int), old_line as int, new_line as int)
        =~= rows_view(rows@));
    rows
}

fn word_changes(old_text: &Option<String>, new_text: &Option<String>) -> (r: Option<
    Vec<WordChangeOutput>,
>)
    ensures
        match r {
            Some(v) => word_changes_spec(crate::json::opt_text(*old_text), crate::json::opt_text(
                *new_text,
            )) == Some(crate::json::word_changes_view(v@)),
            None => word_changes_spec(
                crate::json::opt_text(*old_text),
                crate::json::opt_text(*new_text),
            ) is None,
        },
{
    match (old_text, new_text) {
        (Some(o), Some(n)) => {
            if *o != *n {
                let mut v = Vec::new();
                v.push(WordChangeOutput { value: o.clone(), added: None, removed: Some(true) });
                v.push(WordChangeOutput { value: n.clone(), added: Some(true), removed: None });
                assert(crate::json::word_changes_view(v@) =~= seq![
                    (o@, None, Some(true)),
                    (n@, Some(true), None),
                ]);
                Some(v)
            } else {
                None
            }
        },
        _ => None,
    }
}

} // verus!
