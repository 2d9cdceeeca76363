//! The lines of a file range with the commits that blame names for them.
use crate::error::AppError;
use crate::text::{decimal, push_decimal};
use vstd::prelude::*;

verus! {

/// A line of the blamed file and the commit that last changed it.
#[derive(Debug)]
pub struct BlameLine {
    pub line_number: usize,
    pub commit_hash: String,
}

/// A run of lines of the blamed file that one commit last changed: `len` lines from the
/// zero-based line `start`.
#[derive(Debug)]
pub struct BlameEntry {
    pub start: usize,
    pub len: usize,
    pub commit_hash: String,
}

/// The message of the failure for a line number beyond what blame supports.
pub open spec fn line_out_of_range_message(n: nat) -> Seq<char> {
    "行号超出支持范围："@ + decimal(n)
}

/// The one-based line range to ask blame for: `None` when it is empty or starts at 0, and a
/// failure when a bound does not fit in 32 bits.
pub fn blame_line_bounds(start_line: usize, end_line: usize) -> (r: Result<Option<(u32, u32)>, AppError>)
    ensures
        (start_line == 0 || end_line < start_line) ==> r == Ok::<Option<(u32, u32)>, AppError>(None),
        !(start_line == 0 || end_line < start_line) && start_line > u32::MAX ==> (r matches Err(
            AppError::Spike(m),
        ) && m@ == line_out_of_range_message(start_line as nat)),
        !(start_line == 0 || end_line < start_line) && start_line <= u32::MAX && end_line
            > u32::MAX ==> (r matches Err(AppError::Spike(m)) && m@ == line_out_of_range_message(
            end_line as nat,
        )),
        !(start_line == 0 || end_line < start_line) && start_line <= u32::MAX && end_line
            <= u32::MAX ==> r == Ok::<Option<(u32, u32)>, AppError>(
            Some((start_line as u32, end_line as u32)),
        ),
{
    if start_line == 0 || end_line < start_line {
        return Ok(None);
    }
    if start_line > 0xffff_ffffusize {
        let mut m = String::from_str("行号超出支持范围：");
        push_decimal(&mut m, start_line as u64);
        return Err(AppError::Spike(m));
    }
    if end_line > 0xffff_ffffusize {
        let mut m = String::from_str("行号超出支持范围：");
        push_decimal(&mut m, end_line as u64);
        return Err(AppError::Spike(m));
    }
    Ok(Some((start_line as u32, end_line as u32)))
}

/// The entries that cover the one-based line `n`, in order, as blame lines of `n`.
pub open spec fn entry_hits(entries: Seq<BlameEntry>, n: int) -> Seq<(int, Seq<char>)>
    decreases entries.len(),
{
    if entries.len() == 0 {
        Seq::empty()
    } else {
        let prev = entry_hits(entries.drop_last(), n);
        let e = entries.last();
        if e.start < n && n <= e.start + e.len {
            prev.push((n, e.commit_hash@))
        } else {
            prev
        }
    }
}

/// The blame lines of the one-based lines `start..=end`, by line number and, for one line, in
/// the order of the entries.
pub open spec fn blame_lines_spec(entries: Seq<BlameEntry>, start: int, end: int) -> Seq<
    (int, Seq<char>),
>
    decreases end - start + 1,
{
    if end < start {
        Seq::empty()
    } else {
        blame_lines_spec(entries, start, end - 1) + entry_hits(entries, end)
    }
}

/// The view of a blame line: its number and commit.
pub open spec fn blame_line_view(l: BlameLine) -> (int, Seq<char>) {
    (l.line_number as int, l.commit_hash@)
}

/// The blame lines of `start_line..=end_line` from blame's entries, ordered by line number.
pub fn blame_lines_from_entries(entries: &[BlameEntry], start_line: usize, end_line: usize) -> (lines:
    Vec<BlameLine>)
    requires
        end_line < usize::MAX,
    ensures
        lines@.map_values(|l: BlameLine| blame_line_view(l)) == blame_lines_spec(
            entries@,
            start_line as int,
            end_line as int,
        ),
{
    let mut lines: Vec<BlameLine> = Vec::new();
    if end_line < start_line {
        return lines;
    }
    let mut n: usize = start_line;
    assert(lines@.map_values(|l: BlameLine| blame_line_view(l)) =~= blame_lines_spec(
        entries@,
        start_line as int,
        start_line - 1,
    ));
    while n <= end_line
        invariant
            start_line <= n <= end_line + 1,
            end_line < usize::MAX,
            lines@.map_values(|l: BlameLine| blame_line_view(l)) == blame_lines_spec(
                entries@,
                start_line as int,
                n - 1,
            ),
        decreases end_line + 1 - n,
    {
        let ghost before = lines@.map_values(|l: BlameLine| blame_line_view(l));
        let mut j: usize = 0;
        while j < entries.len()
            invariant
                j <= entries.len(),
                start_line <= n <= end_line,
                lines@.map_values(|l: BlameLine| blame_line_view(l)) == before + entry_hits(
                    entries@.take(j as int),
                    n as int,
                ),
            decreases entries.len() - j,
        {
            assert(entries@.take(j + 1).drop_last() =~= entries@.take(j as int));
            assert(entries@.take(j + 1).last() == entries@[j as int]);
            let e = &entries[j];
            if e.start < n && n - e.start <= e.len {
                let ghost pre = lines@;
                lines.push(BlameLine { line_number: n, commit_hash: e.commit_hash.clone() });
                assert(lines@.map_values(|l: BlameLine| blame_line_view(l)) =~= pre.map_values(
                    |l: BlameLine| blame_line_view(l),
                ).push((n as int, e.commit_hash@)));
            }
            j += 1;
        }
        assert(entries@.take(entries.len() as int) =~= entries@);
        n += 1;
    }
    lines
}

} // verus!
