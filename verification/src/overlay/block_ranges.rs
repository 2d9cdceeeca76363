//! Diff blocks rebuilt from block ranges that a client sends back.
use crate::contracts::{DiffBlockChangeType, DiffBlockRange};
use crate::error::AppError;
use crate::json::{rows_view, DiffBlockOutput, RowView, SideBySideDiffRowOutput};
use crate::overlay::rows::number_at;
use crate::text::{
    blank, chars_of, concat, is_blank, lines_view, push_decimal, split_chars_on_newline, split_nl,
};
use vstd::prelude::*;

verus! {

/// The lines of an editor model: the pieces between newlines, one empty line for an empty text.
pub fn split_monaco_lines(text: &str) -> (lines: Vec<String>)
    ensures
        lines_view(lines@) == split_nl(text@),
{
    let chars = chars_of(text);
    if chars.len() == 0 {
        let mut v: Vec<String> = Vec::new();
        v.push(String::new());
        assert(lines_view(v@) =~= seq![Seq::<char>::empty()]);
        assert(text@ =~= Seq::<char>::empty());
        return v;
    }
    assert(chars@.take(chars.len() as int) =~= text@);
    split_chars_on_newline(&chars, chars.len())
}

/// A side range `start..end` (one-based, inclusive) is either empty as `0..0` or a non-empty
/// range inside the side's `count` lines.
pub open spec fn side_valid(start: u64, end: u64, count: int) -> bool {
    if start == 0 || end == 0 {
        start == 0 && end == 0
    } else {
        start <= end && end <= count
    }
}

/// The change type of a range agrees with which of its sides are empty.
pub open spec fn change_type_valid(r: DiffBlockRange) -> bool {
    let has_old = r.old_start > 0 && r.old_end > 0;
    let has_new = r.new_start > 0 && r.new_end > 0;
    match r.change_type {
        DiffBlockChangeType::Added => !has_old && has_new,
        DiffBlockChangeType::Deleted => has_old && !has_new,
        DiffBlockChangeType::Modified => has_old && has_new,
    }
}

/// The last non-zero old end among the first `i` ranges, or 0.
pub open spec fn last_old_end(rs: Seq<DiffBlockRange>, i: int) -> u64
    decreases i,
{
    if i <= 0 {
        0
    } else if rs[i - 1].old_end > 0 {
        rs[i - 1].old_end
    } else {
        last_old_end(rs, i - 1)
    }
}

/// The last non-zero new end among the first `i` ranges, or 0.
pub open spec fn last_new_end(rs: Seq<DiffBlockRange>, i: int) -> u64
    decreases i,
{
    if i <= 0 {
        0
    } else if rs[i - 1].new_end > 0 {
        rs[i - 1].new_end
    } else {
        last_new_end(rs, i - 1)
    }
}

/// Range `i` is acceptable: a non-blank id not used before it, a change type that fits its sides,
/// valid sides, and non-empty sides that start after every earlier range's side.
pub open spec fn range_valid(rs: Seq<DiffBlockRange>, i: int, old_count: int, new_count: int) -> bool {
    let r = rs[i];
    &&& !is_blank(r.id@)
    &&& forall|j: int| 0 <= j < i ==> (#[trigger] rs[j]).id@ != r.id@
    &&& change_type_valid(r)
    &&& side_valid(r.old_start, r.old_end, old_count)
    &&& side_valid(r.new_start, r.new_end, new_count)
    &&& (r.old_start > 0 ==> r.old_start > last_old_end(rs, i))
    &&& (r.new_start > 0 ==> r.new_start > last_new_end(rs, i))
}

/// All ranges are acceptable.
pub open spec fn ranges_valid(rs: Seq<DiffBlockRange>, old_count: int, new_count: int) -> bool {
    forall|i: int| 0 <= i < rs.len() ==> range_valid(rs, i, old_count, new_count)
}

/// The number of lines of a side range, 0 for the empty range.
pub open spec fn side_count(start: u64, end: u64) -> int {
    if start == 0 || end == 0 {
        0
    } else {
        end - start + 1
    }
}

/// The row type text of a change type.
pub open spec fn row_type_spec(t: DiffBlockChangeType) -> Seq<char> {
    match t {
        DiffBlockChangeType::Added => "added"@,
        DiffBlockChangeType::Deleted => "deleted"@,
        DiffBlockChangeType::Modified => "modified"@,
    }
}

/// The `k`-th line of a side range, if the range has that many lines.
pub open spec fn range_line(lines: Seq<Seq<char>>, start: u64, count: int, k: int) -> Option<Seq<char>> {
    if 0 <= k < count {
        Some(lines[start - 1 + k])
    } else {
        None
    }
}

/// The rows of the block of range `r`: row `k` pairs the `k`-th old line with the `k`-th new line.
pub open spec fn range_rows(r: DiffBlockRange, old: Seq<Seq<char>>, new: Seq<Seq<char>>) -> Seq<
    RowView,
> {
    let oc = side_count(r.old_start, r.old_end);
    let nc = side_count(r.new_start, r.new_end);
    Seq::new(
        if oc >= nc {
            oc as nat
        } else {
            nc as nat
        },
        |k: int|
            RowView {
                old_line_number: number_at(oc, r.old_start as int, k),
                new_line_number: number_at(nc, r.new_start as int, k),
                old_text: range_line(old, r.old_start, oc, k),
                new_text: range_line(new, r.new_start, nc, k),
                row_type: row_type_spec(r.change_type),
                word_changes: None,
                block_id: Some(r.id@),
            },
    )
}

/// `b` is the block of range `r` over the given old and new lines.
pub open spec fn range_block(b: DiffBlockOutput, r: DiffBlockRange, old: Seq<Seq<char>>, new: Seq<
    Seq<char>,
>) -> bool {
    &&& b.id@ == r.id@
    &&& b.old_start == r.old_start
    &&& b.old_end == r.old_end
    &&& b.new_start == r.new_start
    &&& b.new_end == r.new_end
    &&& b.row_start_index is None
    &&& b.row_end_index is None
    &&& b.change_type@ == row_type_spec(r.change_type)
    &&& b.authors@.len() == 0
    &&& rows_view(b.rows@) == range_rows(r, old, new)
    &&& b.related_commits@.len() == 0
    &&& b.attribution is None
}

/// Blocks for client-supplied ranges over the two texts, or `InvalidArgument` when any range is
/// blank-identified, repeated, typed against its sides, out of bounds or out of order.
pub fn build_blocks_from_ranges(old_text: &str, new_text: &str, ranges: &[DiffBlockRange]) -> (r:
    Result<Vec<DiffBlockOutput>, AppError>)
    ensures
        match r {
            Ok(blocks) => {
                &&& ranges_valid(
                    ranges@,
                    split_nl(old_text@).len() as int,
                    split_nl(new_text@).len() as int,
                )
                &&& blocks@.len() == ranges@.len()
                &&& forall|i: int|
                    0 <= i < blocks@.len() ==> range_block(
                        #[trigger] blocks@[i],
                        ranges@[i],
                        split_nl(old_text@),
                        split_nl(new_text@),
                    )
            },
            Err(e) => {
                &&& e is InvalidArgument
                &&& !ranges_valid(
                    ranges@,
                    split_nl(old_text@).len() as int,
                    split_nl(new_text@).len() as int,
                )
            },
        },
{
    let old_lines = split_monaco_lines(old_text);
    let new_lines = split_monaco_lines(new_text);
    validate_ranges(ranges, old_lines.len(), new_lines.len())?;
    let mut blocks: Vec<DiffBlockOutput> = Vec::new();
    let mut i: usize = 0;
    while i < ranges.len()
        invariant
            lines_view(old_lines@) == split_nl(old_text@),
            lines_view(new_lines@) == split_nl(new_text@),
            ranges_valid(ranges@, old_lines.len() as int, new_lines.len() as int),
            i <= ranges.len(),
            blocks@.len() == i,
            forall|k: int|
                0 <= k < i ==> range_block(
                    #[trigger] blocks@[k],
                    ranges@[k],
                    split_nl(old_text@),
                    split_nl(new_text@),
                ),
        decreases ranges.len() - i,
    {
        assert(range_valid(ranges@, i as int, old_lines.len() as int, new_lines.len() as int));
        let block = build_block(&ranges[i], &old_lines, &new_lines);
        blocks.push(block);
        i += 1;
    }
    Ok(blocks)
}

fn invalid_message(text: &str, id: &String) -> (e: AppError)
    ensures
        e is InvalidArgument,
{
    AppError::InvalidArgument(concat(text, id.as_str()))
}

fn validate_ranges(ranges: &[DiffBlockRange], old_line_count: usize, new_line_count: usize) -> (r:
    Result<(), AppError>)
    ensures
        match r {
            Ok(()) => ranges_valid(ranges@, old_line_count as int, new_line_count as int),
            Err(e) => e is InvalidArgument && !ranges_valid(
                ranges@,
                old_line_count as int,
                new_line_count as int,
            ),
        },
{
    let mut ids: Vec<String> = Vec::new();
    let mut last_old_end: u64 = 0;
    let mut last_new_end: u64 = 0;
    let mut i: usize = 0;
    while i < ranges.len()
        invariant
            i <= ranges.len(),
            ids@.len() == i,
            forall|j: int| 0 <= j < i ==> (#[trigger] ids@[j])@ == ranges@[j].id@,
            last_old_end == crate::overlay::block_ranges::last_old_end(ranges@, i as int),
            last_new_end == crate::overlay::block_ranges::last_new_end(ranges@, i as int),
            forall|j: int|
                0 <= j < i ==> range_valid(
                    ranges@,
                    j,
                    old_line_count as int,
                    new_line_count as int,
                ),
        decreases ranges.len() - i,
    {
        let range = &ranges[i];
        let ghost valid_here = range_valid(ranges@, i as int, old_line_count as int, new_line_count as int);
        if blank(range.id.as_str()) {
            assert(!valid_here);
            return Err(invalid_message("Diff 块 ID 不能为空", &range.id));
        }
        let mut j: usize = 0;
        while j < ids.len()
            invariant
                j <= ids.len(),
                ids@.len() == i,
                i < ranges.len(),
                *range == ranges@[i as int],
                forall|k: int| 0 <= k < i ==> (#[trigger] ids@[k])@ == ranges@[k].id@,
                forall|k: int| 0 <= k < j ==> ranges@[k].id@ != ranges@[i as int].id@,
            decreases ids.len() - j,
        {
            if ids[j] == range.id {
                assert(ranges@[j as int].id@ == ranges@[i as int].id@);
                assert(!range_valid(ranges@, i as int, old_line_count as int, new_line_count as int));
                return Err(invalid_message("Diff 块 ID 重复：", &range.id));
            }
            j += 1;
        }
        match validate_change_type(range) {
            Ok(()) => {},
            Err(e) => {
                assert(!valid_here);
                return Err(e);
            },
        }
        match validate_side(range.old_start, range.old_end, old_line_count, "旧侧") {
            Ok(()) => {},
            Err(e) => {
                assert(!valid_here);
                return Err(e);
            },
        }
        match validate_side(range.new_start, range.new_end, new_line_count, "新侧") {
            Ok(()) => {},
            Err(e) => {
                assert(!valid_here);
                return Err(e);
            },
        }
        if range.old_start > 0 && range.old_start <= last_old_end {
            assert(!valid_here);
            return Err(invalid_message("Diff 块旧侧范围重叠或非单调：", &range.id));
        }
        if range.new_start > 0 && range.new_start <= last_new_end {
            assert(!valid_here);
            return Err(invalid_message("Diff 块新侧范围重叠或非单调：", &range.id));
        }
        if range.old_end > 0 {
            last_old_end = range.old_end;
        }
        if range.new_end > 0 {
            last_new_end = range.new_end;
        }
        ids.push(range.id.clone());
        assert(range_valid(ranges@, i as int, old_line_count as int, new_line_count as int));
        i += 1;
    }
    Ok(())
}

fn validate_change_type(range: &DiffBlockRange) -> (r: Result<(), AppError>)
    ensures
        match r {
            Ok(()) => change_type_valid(*range),
            Err(e) => e is InvalidArgument && !change_type_valid(*range),
        },
{
    let has_old = range.old_start > 0 && range.old_end > 0;
    let has_new = range.new_start > 0 && range.new_end > 0;
    let ok = match range.change_type {
        DiffBlockChangeType::Added => !has_old && has_new,
        DiffBlockChangeType::Deleted => has_old && !has_new,
        DiffBlockChangeType::Modified => has_old && has_new,
    };
    if ok {
        Ok(())
    } else {
        Err(invalid_message("Diff 块类型与空侧不一致：", &range.id))
    }
}

fn validate_side(start: u64, end: u64, line_count: usize, label: &str) -> (r: Result<(), AppError>)
    ensures
        match r {
            Ok(()) => side_valid(start, end, line_count as int),
            Err(e) => e is InvalidArgument && !side_valid(start, end, line_count as int),
        },
{
    if start == 0 || end == 0 {
        if start == 0 && end == 0 {
            return Ok(());
        }
        return Err(AppError::InvalidArgument(concat(label, "空范围必须使用 0..0")));
    }
    if end < start {
        let mut message = concat(label, "范围起止倒置：");
        push_decimal(&mut message, start);
        message.append("..");
        push_decimal(&mut message, end);
        return Err(AppError::InvalidArgument(message));
    }
    if end > line_count as u64 {
        let mut message = concat(label, "范围越界：");
        push_decimal(&mut message, start);
        message.append("..");
        push_decimal(&mut message, end);
        message.append(" / ");
        push_decimal(&mut message, line_count as u64);
        return Err(AppError::InvalidArgument(message));
    }
    Ok(())
}

fn side_len(start: u64, end: u64) -> (n: usize)
    requires
        start <= end,
        end <= usize::MAX,
    ensures
        n == side_count(start, end),
{
    if start == 0 || end == 0 {
        0
    } else {
        (end - start + 1) as usize
    }
}

fn row_type(change_type: DiffBlockChangeType) -> (s: String)
    ensures
        s@ == row_type_spec(change_type),
{
    match change_type {
        DiffBlockChangeType::Added => String::from_str("added"),
        DiffBlockChangeType::Deleted => String::from_str("deleted"),
        DiffBlockChangeType::Modified => String::from_str("modified"),
    }
}

fn line_number_at(start: u64, count: usize, index: usize) -> (r: Option<usize>)
    requires
        index < count ==> start + index <= usize::MAX,
    ensures
        r == number_at(count as int, start as int, index as int),
{
    if index < count {
        Some(start as usize + index)
    } else {
        None
    }
}

fn build_block(range: &DiffBlockRange, old_lines: &Vec<String>, new_lines: &Vec<String>) -> (b:
    DiffBlockOutput)
    requires
        side_valid(range.old_start, range.old_end, old_lines.len() as int),
        side_valid(range.new_start, range.new_end, new_lines.len() as int),
    ensures
        range_block(b, *range, lines_view(old_lines@), lines_view(new_lines@)),
{
    let ghost ov = lines_view(old_lines@);
    let ghost nv = lines_view(new_lines@);
    let ghost expected = range_rows(*range, ov, nv);
    let old_count = side_len(range.old_start, range.old_end);
    let new_count = side_len(range.new_start, range.new_end);
    let row_count = if old_count >= new_count {
        old_count
    } else {
        new_count
    };
    let mut rows: Vec<SideBySideDiffRowOutput> = Vec::new();
    let mut index: usize = 0;
    while index < row_count
        invariant
            ov == lines_view(old_lines@),
            nv == lines_view(new_lines@),
            expected == range_rows(*range, ov, nv),
            side_valid(range.old_start, range.old_end, old_lines.len() as int),
            side_valid(range.new_start, range.new_end, new_lines.len() as int),
            old_count == side_count(range.old_start, range.old_end),
            new_count == side_count(range.new_start, range.new_end),
            row_count == expected.len(),
            index <= row_count,
            rows_view(rows@) == expected.take(index as int),
        decreases row_count - index,
    {
        let old_line_number = line_number_at(range.old_start, old_count, index);
        let new_line_number = line_number_at(range.new_start, new_count, index);
        let old_text = match old_line_number {
            Some(line) => Some(old_lines[line - 1].clone()),
            None => None,
        };
        let new_text = match new_line_number {
            Some(line) => Some(new_lines[line - 1].clone()),
            None => None,
        };
        let row = SideBySideDiffRowOutput {
            old_line_number,
            new_line_number,
            old_text,
            new_text,
            row_type: row_type(range.change_type),
            word_changes: None,
            block_id: Some(range.id.clone()),
        };
        let ghost before = rows@;
        rows.push(row);
        assert(row@ == expected[index as int]);
        assert(rows_view(rows@) =~= rows_view(before).push(row@));
        assert(expected.take(index + 1) =~= expected.take(index as int).push(expected[index as int]));
        index += 1;
    }
    assert(expected.take(row_count as int) =~= expected);
    DiffBlockOutput {
        id: range.id.clone(),
        old_start: range.old_start as usize,
        old_end: range.old_end as usize,
        new_start: range.new_start as usize,
        new_end: range.new_end as usize,
        row_start_index: None,
        row_end_index: None,
        change_type: row_type(range.change_type),
        authors: Vec::new(),
        rows,
        related_commits: Vec::new(),
        attribution: None,
    }
}

} // verus!
