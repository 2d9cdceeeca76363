//! The side-by-side diff of two texts: its rows and its blocks.
use crate::json::{rows_view, DiffBlockOutput, RowView, SideBySideDiffRowOutput};
use crate::overlay::blocks::{block_runs, build_blocks, labelled, run_block};
use crate::overlay::lcs::{lcs_len, lemma_lcs_append_both, lemma_lcs_bound};
use crate::overlay::line_diff::{
    diff_lines, equal_side, line_diff_runs, new_side, old_side, parts_well_formed, runs_view, LineDiffPart,
};
use crate::overlay::rows::{
    added_rows, build_rows, context_rows, deleted_rows, expected_rows, modified_rows,
};
use crate::text::{lemma_text_lines_len, text_lines};
use vstd::prelude::*;

verus! {

/// The rows and blocks of a side-by-side diff.
pub struct BuiltOverlayDiff {
    pub rows: Vec<SideBySideDiffRowOutput>,
    pub blocks: Vec<DiffBlockOutput>,
}

/// `built` lays out the line diff `parts` side by side: its rows are the diff's rows with the
/// ids of the blocks they belong to, and its blocks are the maximal runs of changed rows.
pub open spec fn overlay_of(built: BuiltOverlayDiff, parts: Seq<LineDiffPart>) -> bool {
    let plain = expected_rows(parts, 1, 1);
    let runs = block_runs(plain, 0, None);
    &&& built.blocks@.len() == runs.len()
    &&& forall|b: int|
        0 <= b < built.blocks@.len() ==> run_block(
            #[trigger] built.blocks@[b],
            plain,
            runs[b].0,
            runs[b].1,
            b,
        )
    &&& rows_view(built.rows@) == labelled(plain, runs, runs.len() as int)
}

/// `built` is the side-by-side diff of the two texts: laid out from the line diff of their
/// lines (`line_diff_runs`), which keeps a longest common subsequence of them equal.
pub open spec fn overlay_of_texts(built: BuiltOverlayDiff, old_text: Seq<char>, new_text: Seq<char>) -> bool {
    exists|parts: Seq<LineDiffPart>|
        {
            &&& old_side(parts) == text_lines(old_text)
            &&& new_side(parts) == text_lines(new_text)
            &&& parts_well_formed(parts)
            &&& equal_side(parts).len() == lcs_len(text_lines(old_text), text_lines(new_text))
            &&& runs_view(parts) == line_diff_runs(text_lines(old_text), text_lines(new_text))
            &&& #[trigger] overlay_of(built, parts)
        }
}

/// Rows follow from runs: two line diffs with the same runs give the same rows.
pub proof fn lemma_rows_follow_runs(a: Seq<LineDiffPart>, b: Seq<LineDiffPart>, ol: int, nl: int)
    requires
        runs_view(a) == runs_view(b),
    ensures
        expected_rows(a, ol, nl) == expected_rows(b, ol, nl),
    decreases a.len(),
{
    assert(a.len() == runs_view(a).len() && b.len() == runs_view(b).len());
    if a.len() > 0 {
        assert(runs_view(a)[0] == runs_view(b)[0]);
        if a.len() > 1 {
            assert(runs_view(a)[1] == runs_view(b)[1]);
            assert(runs_view(a.skip(2)) =~= runs_view(a).skip(2));
            assert(runs_view(b.skip(2)) =~= runs_view(b).skip(2));
            lemma_rows_follow_runs(
                a.skip(2),
                b.skip(2),
                ol + a[0].lines().len(),
                nl + a[1].lines().len(),
            );
        }
        assert(runs_view(a.skip(1)) =~= runs_view(a).skip(1));
        assert(runs_view(b.skip(1)) =~= runs_view(b).skip(1));
        lemma_rows_follow_runs(a.skip(1), b.skip(1), ol + a[0].lines().len(), nl + a[0].lines().len());
        lemma_rows_follow_runs(a.skip(1), b.skip(1), ol, nl + a[0].lines().len());
        lemma_rows_follow_runs(a.skip(1), b.skip(1), ol + a[0].lines().len(), nl);
    }
}

/// The side-by-side diff of two texts is one: any two of them have the same rows and the same
/// number of blocks.
pub proof fn lemma_overlay_is_determined(
    first: BuiltOverlayDiff,
    second: BuiltOverlayDiff,
    old_text: Seq<char>,
    new_text: Seq<char>,
)
    requires
        overlay_of_texts(first, old_text, new_text),
        overlay_of_texts(second, old_text, new_text),
    ensures
        rows_view(first.rows@) == rows_view(second.rows@),
        first.blocks@.len() == second.blocks@.len(),
{
    let a = choose|parts: Seq<LineDiffPart>|
        {
            &&& old_side(parts) == text_lines(old_text)
            &&& new_side(parts) == text_lines(new_text)
            &&& parts_well_formed(parts)
            &&& equal_side(parts).len() == lcs_len(text_lines(old_text), text_lines(new_text))
            &&& runs_view(parts) == line_diff_runs(text_lines(old_text), text_lines(new_text))
            &&& #[trigger] overlay_of(first, parts)
        };
    let b = choose|parts: Seq<LineDiffPart>|
        {
            &&& old_side(parts) == text_lines(old_text)
            &&& new_side(parts) == text_lines(new_text)
            &&& parts_well_formed(parts)
            &&& equal_side(parts).len() == lcs_len(text_lines(old_text), text_lines(new_text))
            &&& runs_view(parts) == line_diff_runs(text_lines(old_text), text_lines(new_text))
            &&& #[trigger] overlay_of(second, parts)
        };
    lemma_rows_follow_runs(a, b, 1, 1);
}

/// The side-by-side diff of two texts, laid out from a line diff of them.
pub fn build_overlay_diff(old_text: &str, new_text: &str) -> (built: BuiltOverlayDiff)
    requires
        old_text@.len() < usize::MAX,
        new_text@.len() < usize::MAX,
    ensures
        overlay_of_texts(built, old_text@, new_text@),
{
    let parts = diff_lines(old_text, new_text);
    proof {
        lemma_text_lines_len(old_text@);
        lemma_text_lines_len(new_text@);
    }
    let mut rows = build_rows(parts.as_slice());
    let blocks = build_blocks(&mut rows);
    let built = BuiltOverlayDiff { rows, blocks };
    assert(overlay_of(built, parts@));
    built
}

/// The texts of one column of rows, top to bottom: each row's old text (`old`) or new text,
/// where the row has one.
pub open spec fn column(rows: Seq<RowView>, old: bool) -> Seq<Seq<char>>
    decreases rows.len(),
{
    if rows.len() == 0 {
        Seq::empty()
    } else {
        let prev = column(rows.drop_last(), old);
        match (if old {
            rows.last().old_text
        } else {
            rows.last().new_text
        }) {
            Some(t) => prev.push(t),
            None => prev,
        }
    }
}

/// The text of a row's column.
pub open spec fn cell(r: RowView, old: bool) -> Option<Seq<char>> {
    if old {
        r.old_text
    } else {
        r.new_text
    }
}

proof fn lemma_column_add(a: Seq<RowView>, b: Seq<RowView>, old: bool)
    ensures
        column(a + b, old) == column(a, old) + column(b, old),
    decreases b.len(),
{
    if b.len() == 0 {
        assert(a + b =~= a);
        assert(column(a, old) + column(b, old) =~= column(a, old));
    } else {
        lemma_column_add(a, b.drop_last(), old);
        assert((a + b).drop_last() =~= a + b.drop_last());
        assert((a + b).last() == b.last());
        match cell(b.last(), old) {
            Some(t) => {
                assert(column(a, old) + column(b.drop_last(), old).push(t) =~= (column(a, old)
                    + column(b.drop_last(), old)).push(t));
            },
            None => {},
        }
    }
}

proof fn lemma_column_of(rows: Seq<RowView>, lines: Seq<Seq<char>>, old: bool)
    requires
        rows.len() >= lines.len(),
        forall|k: int| 0 <= k < lines.len() ==> cell(#[trigger] rows[k], old) == Some(lines[k]),
        forall|k: int| lines.len() <= k < rows.len() ==> cell(#[trigger] rows[k], old) is None,
    ensures
        column(rows, old) == lines,
    decreases rows.len(),
{
    if rows.len() == 0 {
        assert(lines =~= Seq::<Seq<char>>::empty());
    } else if rows.len() > lines.len() {
        let d = rows.drop_last();
        assert(cell(rows[rows.len() - 1], old) is None);
        assert forall|k: int| 0 <= k < lines.len() implies cell(#[trigger] d[k], old) == Some(lines[k]) by {
            assert(d[k] == rows[k]);
        }
        assert forall|k: int| lines.len() <= k < d.len() implies cell(#[trigger] d[k], old) is None by {
            assert(d[k] == rows[k]);
        }
        lemma_column_of(d, lines, old);
    } else {
        let d = rows.drop_last();
        let l = lines.drop_last();
        assert(cell(rows[rows.len() - 1], old) == Some(lines[lines.len() - 1]));
        assert forall|k: int| 0 <= k < l.len() implies cell(#[trigger] d[k], old) == Some(l[k]) by {
            assert(d[k] == rows[k]);
        }
        lemma_column_of(d, l, old);
        assert(l.push(lines.last()) =~= lines);
    }
}

proof fn lemma_old_side_front(parts: Seq<LineDiffPart>)
    requires
        parts.len() > 0,
    ensures
        old_side(parts) == parts[0].old_lines() + old_side(parts.skip(1)),
        new_side(parts) == parts[0].new_lines() + new_side(parts.skip(1)),
    decreases parts.len(),
{
    if parts.len() == 1 {
        assert(parts.skip(1) =~= Seq::<LineDiffPart>::empty());
        assert(parts.drop_last() =~= Seq::<LineDiffPart>::empty());
        assert(parts[0].old_lines() + Seq::<Seq<char>>::empty() =~= parts[0].old_lines());
        assert(Seq::<Seq<char>>::empty() + parts[0].old_lines() =~= parts[0].old_lines());
        assert(parts[0].new_lines() + Seq::<Seq<char>>::empty() =~= parts[0].new_lines());
        assert(Seq::<Seq<char>>::empty() + parts[0].new_lines() =~= parts[0].new_lines());
    } else {
        lemma_old_side_front(parts.drop_last());
        assert(parts.drop_last().skip(1) =~= parts.skip(1).drop_last());
        assert(parts.drop_last()[0] == parts[0]);
        assert(parts.skip(1).last() == parts.last());
        assert(old_side(parts) =~= parts[0].old_lines() + old_side(parts.skip(1)));
        assert(new_side(parts) =~= parts[0].new_lines() + new_side(parts.skip(1)));
    }
}

/// The rows of a line diff show both sides whole: read top to bottom, their old texts are the
/// old side's lines and their new texts the new side's.
pub proof fn lemma_expected_columns(parts: Seq<LineDiffPart>, ol: int, nl: int)
    ensures
        column(expected_rows(parts, ol, nl), true) == old_side(parts),
        column(expected_rows(parts, ol, nl), false) == new_side(parts),
    decreases parts.len(),
{
    if parts.len() == 0 {
    } else {
        let p0 = parts[0];
        lemma_old_side_front(parts);
        if p0.kind() == 2 && parts.len() > 1 && parts[1].kind() == 1 {
            let o = p0.lines();
            let n = parts[1].lines();
            let m = modified_rows(o, n, ol, nl);
            let rest = parts.skip(2);
            lemma_expected_columns(rest, ol + o.len(), nl + n.len());
            lemma_column_add(m, expected_rows(rest, ol + o.len(), nl + n.len()), true);
            lemma_column_add(m, expected_rows(rest, ol + o.len(), nl + n.len()), false);
            lemma_column_of(m, o, true);
            lemma_column_of(m, n, false);
            lemma_old_side_front(parts.skip(1));
            assert(parts.skip(1).skip(1) =~= rest);
            assert(parts.skip(1)[0] == parts[1]);
            assert(old_side(parts) =~= o + old_side(rest));
            assert(new_side(parts) =~= n + new_side(rest));
        } else if p0.kind() == 0 {
            let c = context_rows(p0.lines(), ol, nl);
            let rest = parts.skip(1);
            lemma_expected_columns(rest, ol + p0.lines().len(), nl + p0.lines().len());
            lemma_column_add(c, expected_rows(rest, ol + p0.lines().len(), nl + p0.lines().len()), true);
            lemma_column_add(c, expected_rows(rest, ol + p0.lines().len(), nl + p0.lines().len()), false);
            lemma_column_of(c, p0.lines(), true);
            lemma_column_of(c, p0.lines(), false);
        } else if p0.kind() == 1 {
            let a = added_rows(p0.lines(), nl);
            let rest = parts.skip(1);
            lemma_expected_columns(rest, ol, nl + p0.lines().len());
            lemma_column_add(a, expected_rows(rest, ol, nl + p0.lines().len()), true);
            lemma_column_add(a, expected_rows(rest, ol, nl + p0.lines().len()), false);
            lemma_column_of(a, Seq::empty(), true);
            lemma_column_of(a, p0.lines(), false);
            assert(Seq::<Seq<char>>::empty() + old_side(rest) =~= old_side(rest));
        } else {
            let d = deleted_rows(p0.lines(), ol);
            let rest = parts.skip(1);
            lemma_expected_columns(rest, ol + p0.lines().len(), nl);
            lemma_column_add(d, expected_rows(rest, ol + p0.lines().len(), nl), true);
            lemma_column_add(d, expected_rows(rest, ol + p0.lines().len(), nl), false);
            lemma_column_of(d, p0.lines(), true);
            lemma_column_of(d, Seq::empty(), false);
            assert(Seq::<Seq<char>>::empty() + new_side(rest) =~= new_side(rest));
        }
    }
}

/// The line number of a row's column.
pub open spec fn number_cell(r: RowView, old: bool) -> Option<usize> {
    if old {
        r.old_line_number
    } else {
        r.new_line_number
    }
}

/// The line numbers of one column of rows, top to bottom, where the row has one.
pub open spec fn numbers(rows: Seq<RowView>, old: bool) -> Seq<int>
    decreases rows.len(),
{
    if rows.len() == 0 {
        Seq::empty()
    } else {
        let prev = numbers(rows.drop_last(), old);
        match number_cell(rows.last(), old) {
            Some(n) => prev.push(n as int),
            None => prev,
        }
    }
}

/// The `count` numbers from `start` on.
pub open spec fn count_from(start: int, count: int) -> Seq<int> {
    Seq::new(count as nat, |i: int| start + i)
}

proof fn lemma_numbers_add(a: Seq<RowView>, b: Seq<RowView>, old: bool)
    ensures
        numbers(a + b, old) == numbers(a, old) + numbers(b, old),
    decreases b.len(),
{
    if b.len() == 0 {
        assert(a + b =~= a);
        assert(numbers(a, old) + numbers(b, old) =~= numbers(a, old));
    } else {
        lemma_numbers_add(a, b.drop_last(), old);
        assert((a + b).drop_last() =~= a + b.drop_last());
        assert((a + b).last() == b.last());
        match number_cell(b.last(), old) {
            Some(n) => {
                assert(numbers(a, old) + numbers(b.drop_last(), old).push(n as int) =~= (numbers(a, old)
                    + numbers(b.drop_last(), old)).push(n as int));
            },
            None => {},
        }
    }
}

proof fn lemma_numbers_of(rows: Seq<RowView>, start: int, count: int, old: bool)
    requires
        0 <= count <= rows.len(),
        0 <= start,
        start + count <= usize::MAX,
        forall|k: int| 0 <= k < count ==> number_cell(#[trigger] rows[k], old) == Some((start + k) as usize),
        forall|k: int| count <= k < rows.len() ==> number_cell(#[trigger] rows[k], old) is None,
    ensures
        numbers(rows, old) == count_from(start, count),
    decreases rows.len(),
{
    if rows.len() == 0 {
        assert(count_from(start, count) =~= Seq::<int>::empty());
    } else if rows.len() > count {
        let d = rows.drop_last();
        assert(number_cell(rows[rows.len() - 1], old) is None);
        assert forall|k: int| 0 <= k < count implies number_cell(#[trigger] d[k], old) == Some((start + k) as usize) by {
            assert(d[k] == rows[k]);
        }
        assert forall|k: int| count <= k < d.len() implies number_cell(#[trigger] d[k], old) is None by {
            assert(d[k] == rows[k]);
        }
        lemma_numbers_of(d, start, count, old);
    } else {
        let d = rows.drop_last();
        assert(number_cell(rows[rows.len() - 1], old) == Some((start + count - 1) as usize));
        assert forall|k: int| 0 <= k < count - 1 implies number_cell(#[trigger] d[k], old) == Some((start + k) as usize) by {
            assert(d[k] == rows[k]);
        }
        lemma_numbers_of(d, start, count - 1, old);
        assert(count_from(start, count - 1).push(start + count - 1) =~= count_from(start, count));
    }
}

/// The rows of a line diff number each side's lines one after another: read top to bottom,
/// the old line numbers the rows carry are `ol`, `ol + 1`, ... up to the old side's last line,
/// and the new line numbers likewise from `nl`.
#[verifier::spinoff_prover]
#[verifier::rlimit(80)]
pub proof fn lemma_expected_numbers(parts: Seq<LineDiffPart>, ol: int, nl: int)
    requires
        0 <= ol,
        0 <= nl,
        ol + old_side(parts).len() <= usize::MAX,
        nl + new_side(parts).len() <= usize::MAX,
    ensures
        numbers(expected_rows(parts, ol, nl), true) == count_from(ol, old_side(parts).len() as int),
        numbers(expected_rows(parts, ol, nl), false) == count_from(nl, new_side(parts).len() as int),
    decreases parts.len(),
{
    if parts.len() == 0 {
        assert(count_from(ol, 0) =~= Seq::<int>::empty());
        assert(count_from(nl, 0) =~= Seq::<int>::empty());
    } else {
        let p0 = parts[0];
        lemma_old_side_front(parts);
        if p0.kind() == 2 && parts.len() > 1 && parts[1].kind() == 1 {
            let o = p0.lines();
            let n = parts[1].lines();
            let m = modified_rows(o, n, ol, nl);
            let rest = parts.skip(2);
            lemma_old_side_front(parts.skip(1));
            assert(parts.skip(1).skip(1) =~= rest);
            assert(parts.skip(1)[0] == parts[1]);
            assert(old_side(parts) =~= o + old_side(rest));
            assert(new_side(parts) =~= n + new_side(rest));
            lemma_expected_numbers(rest, ol + o.len(), nl + n.len());
            lemma_numbers_add(m, expected_rows(rest, ol + o.len(), nl + n.len()), true);
            lemma_numbers_add(m, expected_rows(rest, ol + o.len(), nl + n.len()), false);
            lemma_numbers_of(m, ol, o.len() as int, true);
            lemma_numbers_of(m, nl, n.len() as int, false);
            assert(count_from(ol, o.len() as int) + count_from(ol + o.len(), old_side(rest).len() as int)
                =~= count_from(ol, old_side(parts).len() as int));
            assert(count_from(nl, n.len() as int) + count_from(nl + n.len(), new_side(rest).len() as int)
                =~= count_from(nl, new_side(parts).len() as int));
        } else if p0.kind() == 0 {
            let l = p0.lines();
            let c = context_rows(l, ol, nl);
            let rest = parts.skip(1);
            lemma_expected_numbers(rest, ol + l.len(), nl + l.len());
            lemma_numbers_add(c, expected_rows(rest, ol + l.len(), nl + l.len()), true);
            lemma_numbers_add(c, expected_rows(rest, ol + l.len(), nl + l.len()), false);
            lemma_numbers_of(c, ol, l.len() as int, true);
            lemma_numbers_of(c, nl, l.len() as int, false);
            assert(count_from(ol, l.len() as int) + count_from(ol + l.len(), old_side(rest).len() as int)
                =~= count_from(ol, old_side(parts).len() as int));
            assert(count_from(nl, l.len() as int) + count_from(nl + l.len(), new_side(rest).len() as int)
                =~= count_from(nl, new_side(parts).len() as int));
        } else if p0.kind() == 1 {
            let l = p0.lines();
            let a = added_rows(l, nl);
            let rest = parts.skip(1);
            lemma_expected_numbers(rest, ol, nl + l.len());
            lemma_numbers_add(a, expected_rows(rest, ol, nl + l.len()), true);
            lemma_numbers_add(a, expected_rows(rest, ol, nl + l.len()), false);
            lemma_numbers_of(a, ol, 0, true);
            lemma_numbers_of(a, nl, l.len() as int, false);
            assert(count_from(ol, 0) + count_from(ol, old_side(rest).len() as int)
                =~= count_from(ol, old_side(parts).len() as int));
            assert(count_from(nl, l.len() as int) + count_from(nl + l.len(), new_side(rest).len() as int)
                =~= count_from(nl, new_side(parts).len() as int));
        } else {
            let l = p0.lines();
            let d = deleted_rows(l, ol);
            let rest = parts.skip(1);
            lemma_expected_numbers(rest, ol + l.len(), nl);
            lemma_numbers_add(d, expected_rows(rest, ol + l.len(), nl), true);
            lemma_numbers_add(d, expected_rows(rest, ol + l.len(), nl), false);
            lemma_numbers_of(d, ol, l.len() as int, true);
            lemma_numbers_of(d, nl, 0, false);
            assert(count_from(ol, l.len() as int) + count_from(ol + l.len(), old_side(rest).len() as int)
                =~= count_from(ol, old_side(parts).len() as int));
            assert(count_from(nl, 0) + count_from(nl, new_side(rest).len() as int)
                =~= count_from(nl, new_side(parts).len() as int));
        }
    }
}


proof fn lemma_same_numbers(a: Seq<RowView>, b: Seq<RowView>, old: bool)
    requires
        a.len() == b.len(),
        forall|k: int| 0 <= k < a.len() ==> number_cell(#[trigger] a[k], old) == number_cell(b[k], old),
    ensures
        numbers(a, old) == numbers(b, old),
    decreases a.len(),
{
    if a.len() > 0 {
        assert forall|k: int| 0 <= k < a.len() - 1 implies number_cell(#[trigger] a.drop_last()[k], old)
            == number_cell(b.drop_last()[k], old) by {
            assert(a.drop_last()[k] == a[k]);
            assert(b.drop_last()[k] == b[k]);
        }
        lemma_same_numbers(a.drop_last(), b.drop_last(), old);
        assert(number_cell(a.last(), old) == number_cell(b.last(), old));
    }
}

/// The side-by-side diff numbers both texts' lines in order: read top to bottom, its rows' old
/// line numbers are 1, 2, ... up to the old text's line count, and its rows' new line numbers
/// likewise up to the new text's.
pub proof fn lemma_overlay_numbers_lines(old_text: Seq<char>, new_text: Seq<char>, built: BuiltOverlayDiff)
    requires
        overlay_of_texts(built, old_text, new_text),
        text_lines(old_text).len() < usize::MAX,
        text_lines(new_text).len() < usize::MAX,
    ensures
        numbers(rows_view(built.rows@), true) == count_from(1, text_lines(old_text).len() as int),
        numbers(rows_view(built.rows@), false) == count_from(1, text_lines(new_text).len() as int),
{
    let parts = choose|parts: Seq<LineDiffPart>|
        {
            &&& old_side(parts) == text_lines(old_text)
            &&& new_side(parts) == text_lines(new_text)
            &&& parts_well_formed(parts)
            &&& equal_side(parts).len() == lcs_len(text_lines(old_text), text_lines(new_text))
            &&& runs_view(parts) == line_diff_runs(text_lines(old_text), text_lines(new_text))
            &&& #[trigger] overlay_of(built, parts)
        };
    let plain = expected_rows(parts, 1, 1);
    let runs = block_runs(plain, 0, None);
    let lab = labelled(plain, runs, runs.len() as int);
    lemma_expected_numbers(parts, 1, 1);
    assert forall|k: int| 0 <= k < lab.len() implies number_cell(#[trigger] lab[k], true) == number_cell(
        plain[k],
        true,
    ) && number_cell(lab[k], false) == number_cell(plain[k], false) by {}
    lemma_same_numbers(lab, plain, true);
    lemma_same_numbers(lab, plain, false);
}

/// A row holds together: it has a line number on a side exactly when it has a text there;
/// a context row shows one line on both sides, an added row nothing on the old side, a deleted
/// row nothing on the new side; it has word changes exactly when it is a modified row whose two
/// texts differ; and it belongs to no block yet.
pub open spec fn row_consistent(r: RowView) -> bool {
    &&& (r.old_line_number is Some <==> r.old_text is Some)
    &&& (r.new_line_number is Some <==> r.new_text is Some)
    &&& (r.old_line_number is Some || r.new_line_number is Some)
    &&& (r.row_type == "context"@ ==> r.old_text is Some && r.old_text == r.new_text)
    &&& (r.row_type == "added"@ ==> r.old_text is None)
    &&& (r.row_type == "deleted"@ ==> r.new_text is None)
    &&& (r.word_changes is Some <==> (r.row_type == "modified"@ && r.old_text is Some && r.new_text is Some
        && r.old_text != r.new_text))
    &&& r.block_id is None
}

/// Every row of a line diff's rows holds together (`row_consistent`); in particular each
/// carries an old or a new line number.
pub proof fn lemma_expected_rows_consistent(parts: Seq<LineDiffPart>, ol: int, nl: int)
    ensures
        forall|k: int|
            0 <= k < expected_rows(parts, ol, nl).len() ==> row_consistent(
                #[trigger] expected_rows(parts, ol, nl)[k],
            ),
    decreases parts.len(),
{
    reveal_strlit("context");
    reveal_strlit("added");
    reveal_strlit("deleted");
    reveal_strlit("modified");
    assert("context"@ != "modified"@ && "added"@ != "modified"@ && "deleted"@ != "modified"@) by {
        assert("context"@.len() != "modified"@.len());
        assert("added"@.len() != "modified"@.len());
        assert("deleted"@.len() != "modified"@.len());
    }
    assert("context"@ != "added"@ && "context"@ != "deleted"@ && "added"@ != "deleted"@) by {
        assert("context"@.len() != "added"@.len());
        assert("context"@[0] != "deleted"@[0]);
        assert("added"@.len() != "deleted"@.len());
    }
    if parts.len() > 0 {
        let p0 = parts[0];
        let rows = expected_rows(parts, ol, nl);
        if p0.kind() == 2 && parts.len() > 1 && parts[1].kind() == 1 {
            let o = p0.lines();
            let n = parts[1].lines();
            let m = modified_rows(o, n, ol, nl);
            let r = expected_rows(parts.skip(2), ol + o.len(), nl + n.len());
            lemma_expected_rows_consistent(parts.skip(2), ol + o.len(), nl + n.len());
            assert forall|k: int| 0 <= k < rows.len() implies row_consistent(#[trigger] rows[k]) by {
                if k < m.len() {
                    assert(rows[k] == m[k]);
                } else {
                    assert(rows[k] == r[k - m.len()]);
                }
            }
        } else if p0.kind() == 0 {
            let l = p0.lines();
            let c = context_rows(l, ol, nl);
            let r = expected_rows(parts.skip(1), ol + l.len(), nl + l.len());
            lemma_expected_rows_consistent(parts.skip(1), ol + l.len(), nl + l.len());
            assert forall|k: int| 0 <= k < rows.len() implies row_consistent(#[trigger] rows[k]) by {
                if k < c.len() {
                    assert(rows[k] == c[k]);
                } else {
                    assert(rows[k] == r[k - c.len()]);
                }
            }
        } else if p0.kind() == 1 {
            let l = p0.lines();
            let a = added_rows(l, nl);
            let r = expected_rows(parts.skip(1), ol, nl + l.len());
            lemma_expected_rows_consistent(parts.skip(1), ol, nl + l.len());
            assert forall|k: int| 0 <= k < rows.len() implies row_consistent(#[trigger] rows[k]) by {
                if k < a.len() {
                    assert(rows[k] == a[k]);
                } else {
                    assert(rows[k] == r[k - a.len()]);
                }
            }
        } else {
            let l = p0.lines();
            let d = deleted_rows(l, ol);
            let r = expected_rows(parts.skip(1), ol + l.len(), nl);
            lemma_expected_rows_consistent(parts.skip(1), ol + l.len(), nl);
            assert forall|k: int| 0 <= k < rows.len() implies row_consistent(#[trigger] rows[k]) by {
                if k < d.len() {
                    assert(rows[k] == d[k]);
                } else {
                    assert(rows[k] == r[k - d.len()]);
                }
            }
        }
    }
}

proof fn lemma_sides_cover_equal(parts: Seq<LineDiffPart>)
    requires
        forall|i: int| 0 <= i < parts.len() ==> (#[trigger] parts[i]).lines().len() > 0,
    ensures
        old_side(parts).len() >= equal_side(parts).len(),
        new_side(parts).len() >= equal_side(parts).len(),
        (exists|i: int| 0 <= i < parts.len() && (#[trigger] parts[i]).kind() == 2) ==> old_side(parts).len()
            > equal_side(parts).len(),
        (exists|i: int| 0 <= i < parts.len() && (#[trigger] parts[i]).kind() == 1) ==> new_side(parts).len()
            > equal_side(parts).len(),
    decreases parts.len(),
{
    if parts.len() > 0 {
        let prev = parts.drop_last();
        assert forall|i: int| 0 <= i < prev.len() implies (#[trigger] prev[i]).lines().len() > 0 by {
            assert(prev[i] == parts[i]);
        }
        lemma_sides_cover_equal(prev);
        assert(parts.last() == parts[parts.len() - 1]);
        if exists|i: int| 0 <= i < parts.len() && (#[trigger] parts[i]).kind() == 2 {
            let i = choose|i: int| 0 <= i < parts.len() && (#[trigger] parts[i]).kind() == 2;
            if i < prev.len() {
                assert(prev[i] == parts[i]);
            }
        }
        if exists|i: int| 0 <= i < parts.len() && (#[trigger] parts[i]).kind() == 1 {
            let i = choose|i: int| 0 <= i < parts.len() && (#[trigger] parts[i]).kind() == 1;
            if i < prev.len() {
                assert(prev[i] == parts[i]);
            }
        }
    }
}

proof fn lemma_context_rows_no_runs(rs: Seq<RowView>, i: int)
    requires
        0 <= i <= rs.len(),
        forall|k: int| 0 <= k < rs.len() ==> (#[trigger] rs[k]).row_type == "context"@,
    ensures
        block_runs(rs, i, None) == Seq::<(int, int)>::empty(),
    decreases rs.len() - i,
{
    if i < rs.len() {
        lemma_context_rows_no_runs(rs, i + 1);
        assert(Seq::<(int, int)>::empty() + Seq::<(int, int)>::empty() =~= Seq::<(int, int)>::empty());
    }
}

/// The side-by-side diff of a text with itself has no block, and its rows are the text's lines
/// as context, numbered 1, 2, ... on both sides.
pub proof fn lemma_same_text_overlay(text: Seq<char>, built: BuiltOverlayDiff)
    requires
        overlay_of_texts(built, text, text),
    ensures
        built.blocks@.len() == 0,
        rows_view(built.rows@) == context_rows(text_lines(text), 1, 1),
{
    let lines = text_lines(text);
    let parts = choose|parts: Seq<LineDiffPart>|
        {
            &&& old_side(parts) == text_lines(text)
            &&& new_side(parts) == text_lines(text)
            &&& parts_well_formed(parts)
            &&& equal_side(parts).len() == lcs_len(text_lines(text), text_lines(text))
            &&& runs_view(parts) == line_diff_runs(text_lines(text), text_lines(text))
            &&& #[trigger] overlay_of(built, parts)
        };
    lemma_lcs_append_both(Seq::<Seq<char>>::empty(), Seq::<Seq<char>>::empty(), lines);
    assert(Seq::<Seq<char>>::empty() + lines =~= lines);
    lemma_lcs_bound(lines, lines);
    assert(equal_side(parts).len() == lines.len());
    lemma_sides_cover_equal(parts);
    assert forall|i: int| 0 <= i < parts.len() implies (#[trigger] parts[i]).kind() == 0 by {
        if parts[i].kind() == 2 {
            assert(old_side(parts).len() > equal_side(parts).len());
        }
        if parts[i].kind() == 1 {
            assert(new_side(parts).len() > equal_side(parts).len());
        }
    }
    if parts.len() > 1 {
        assert(parts[0].kind() != parts[1].kind());
    }
    let plain = expected_rows(parts, 1, 1);
    if parts.len() == 1 {
        assert(parts.skip(1) =~= Seq::<LineDiffPart>::empty());
        assert(parts.drop_last() =~= Seq::<LineDiffPart>::empty());
        assert(old_side(Seq::<LineDiffPart>::empty()) == Seq::<Seq<char>>::empty());
        assert(parts.last() == parts[0]);
        assert(old_side(parts) == old_side(parts.drop_last()) + parts.last().old_lines());
        assert(old_side(parts) =~= parts[0].lines());
        let n: int = parts[0].lines().len() as int;
        assert(expected_rows(parts.skip(1), 1 + n, 1 + n) == Seq::<RowView>::empty());
        assert(plain == context_rows(parts[0].lines(), 1, 1) + expected_rows(parts.skip(1), 1 + n, 1 + n));
        assert(plain =~= context_rows(lines, 1, 1));
    } else {
        assert(old_side(parts) =~= Seq::<Seq<char>>::empty());
        assert(plain =~= context_rows(lines, 1, 1));
    }
    reveal_strlit("context");
    lemma_context_rows_no_runs(plain, 0);
    let runs = block_runs(plain, 0, None);
    assert(labelled(plain, runs, runs.len() as int) =~= plain);
}

proof fn lemma_same_cells_same_column(a: Seq<RowView>, b: Seq<RowView>, old: bool)
    requires
        a.len() == b.len(),
        forall|k: int| 0 <= k < a.len() ==> cell(#[trigger] a[k], old) == cell(b[k], old),
    ensures
        column(a, old) == column(b, old),
    decreases a.len(),
{
    if a.len() > 0 {
        assert forall|k: int| 0 <= k < a.len() - 1 implies cell(#[trigger] a.drop_last()[k], old) == cell(
            b.drop_last()[k],
            old,
        ) by {
            assert(a.drop_last()[k] == a[k]);
            assert(b.drop_last()[k] == b[k]);
        }
        lemma_same_cells_same_column(a.drop_last(), b.drop_last(), old);
        assert(cell(a.last(), old) == cell(b.last(), old));
    }
}

/// The side-by-side diff shows both texts whole: read top to bottom, its rows' old texts are
/// the old text's lines and its rows' new texts are the new text's lines.
pub proof fn lemma_overlay_shows_both_texts(old_text: Seq<char>, new_text: Seq<char>, built: BuiltOverlayDiff)
    requires
        overlay_of_texts(built, old_text, new_text),
    ensures
        column(rows_view(built.rows@), true) == text_lines(old_text),
        column(rows_view(built.rows@), false) == text_lines(new_text),
{
    let parts = choose|parts: Seq<LineDiffPart>|
        {
            &&& old_side(parts) == text_lines(old_text)
            &&& new_side(parts) == text_lines(new_text)
            &&& parts_well_formed(parts)
            &&& equal_side(parts).len() == lcs_len(text_lines(old_text), text_lines(new_text))
            &&& #[trigger] overlay_of(built, parts)
        };
    let plain = expected_rows(parts, 1, 1);
    let runs = block_runs(plain, 0, None);
    let lab = labelled(plain, runs, runs.len() as int);
    lemma_expected_columns(parts, 1, 1);
    assert forall|k: int| 0 <= k < lab.len() implies cell(#[trigger] lab[k], true) == cell(plain[k], true)
        && cell(lab[k], false) == cell(plain[k], false) by {}
    lemma_same_cells_same_column(lab, plain, true);
    lemma_same_cells_same_column(lab, plain, false);
}

} // verus!
