//! Grouping of side-by-side rows into diff blocks.
use crate::json::{
    opt_text, rows_view, word_change_view, word_changes_view, DiffBlockOutput, RowView, SideBySideDiffRowOutput,
    WordChangeOutput,
};
use crate::text::{decimal, push_decimal, str_eq};
use vstd::prelude::*;

verus! {

/// The maximal runs of rows that are not context, as inclusive `(first, last)` row indices,
/// scanning from row `i` with a run open since `start`.
pub open spec fn block_runs(rs: Seq<RowView>, i: int, start: Option<int>) -> Seq<(int, int)>
    decreases rs.len() - i,
{
    if i >= rs.len() {
        match start {
            Some(s) => seq![(s, rs.len() - 1)],
            None => Seq::empty(),
        }
    } else if rs[i].row_type == "context"@ {
        (match start {
            Some(s) => seq![(s, i - 1)],
            None => Seq::<(int, int)>::empty(),
        }) + block_runs(rs, i + 1, None)
    } else {
        block_runs(
            rs,
            i + 1,
            match start {
                Some(s) => Some(s),
                None => Some(i),
            },
        )
    }
}

/// Rows `f..=l` of `rs` are a maximal run of changed rows: none of them is a context row, and
/// the rows just before and just after it, where there are any, are context rows.
pub open spec fn maximal_change_run(rs: Seq<RowView>, f: int, l: int) -> bool {
    &&& 0 <= f <= l < rs.len()
    &&& forall|k: int| f <= k <= l ==> (#[trigger] rs[k]).row_type != "context"@
    &&& (f == 0 || rs[f - 1].row_type == "context"@)
    &&& (l == rs.len() - 1 || rs[l + 1].row_type == "context"@)
}

/// The lowest row that `block_runs(rs, i, start)` can begin a run at.
pub open spec fn runs_floor(i: int, start: Option<int>) -> int {
    match start {
        Some(s) => s,
        None => i,
    }
}

proof fn lemma_block_runs_from(rs: Seq<RowView>, i: int, start: Option<int>)
    requires
        0 <= i <= rs.len(),
        start matches Some(s) ==> 0 <= s < i && (s == 0 || rs[s - 1].row_type == "context"@) && forall|k: int|
            s <= k < i ==> (#[trigger] rs[k]).row_type != "context"@,
        start is None ==> (i == 0 || rs[i - 1].row_type == "context"@),
    ensures
        forall|b: int|
            0 <= b < block_runs(rs, i, start).len() ==> maximal_change_run(
                rs,
                (#[trigger] block_runs(rs, i, start)[b]).0,
                block_runs(rs, i, start)[b].1,
            ) && block_runs(rs, i, start)[b].0 >= runs_floor(i, start),
        forall|b: int|
            0 <= b < block_runs(rs, i, start).len() - 1 ==> (#[trigger] block_runs(rs, i, start)[b]).1
                < block_runs(rs, i, start)[b + 1].0,
        forall|k: int|
            runs_floor(i, start) <= k < rs.len() && (#[trigger] rs[k]).row_type != "context"@ ==> exists|b: int|
                0 <= b < block_runs(rs, i, start).len() && (#[trigger] block_runs(rs, i, start)[b]).0 <= k
                    <= block_runs(rs, i, start)[b].1,
    decreases rs.len() - i,
{
    let runs = block_runs(rs, i, start);
    if i >= rs.len() {
        match start {
            Some(s) => {
                assert(runs =~= seq![(s, rs.len() - 1)]);
                assert forall|k: int|
                    runs_floor(i, start) <= k < rs.len() && (#[trigger] rs[k]).row_type != "context"@ implies exists|
                    b: int,
                | 0 <= b < runs.len() && (#[trigger] runs[b]).0 <= k <= runs[b].1 by {
                    assert(runs[0].0 <= k <= runs[0].1);
                }
            },
            None => {},
        }
    } else if rs[i].row_type == "context"@ {
        lemma_block_runs_from(rs, i + 1, None);
        let rest = block_runs(rs, i + 1, None);
        match start {
            Some(s) => {
                let head = seq![(s, i - 1)];
                assert(runs =~= head + rest);
                assert(maximal_change_run(rs, s, i - 1));
                assert forall|b: int| 0 <= b < runs.len() implies maximal_change_run(
                    rs,
                    (#[trigger] runs[b]).0,
                    runs[b].1,
                ) && runs[b].0 >= runs_floor(i, start) by {
                    if b > 0 {
                        assert(runs[b] == rest[b - 1]);
                    }
                }
                assert forall|b: int| 0 <= b < runs.len() - 1 implies (#[trigger] runs[b]).1 < runs[b + 1].0 by {
                    if b > 0 {
                        assert(runs[b] == rest[b - 1]);
                    }
                    assert(runs[b + 1] == rest[b]);
                }
                assert forall|k: int|
                    runs_floor(i, start) <= k < rs.len() && (#[trigger] rs[k]).row_type != "context"@ implies exists|
                    b: int,
                | 0 <= b < runs.len() && (#[trigger] runs[b]).0 <= k <= runs[b].1 by {
                    if k < i {
                        assert(runs[0].0 <= k <= runs[0].1);
                    } else {
                        assert(k > i);
                        let b = choose|b: int| 0 <= b < rest.len() && (#[trigger] rest[b]).0 <= k <= rest[b].1;
                        assert(runs[b + 1] == rest[b]);
                    }
                }
            },
            None => {
                assert(runs =~= Seq::<(int, int)>::empty() + rest);
                assert forall|k: int|
                    runs_floor(i, start) <= k < rs.len() && (#[trigger] rs[k]).row_type != "context"@ implies exists|
                    b: int,
                | 0 <= b < runs.len() && (#[trigger] runs[b]).0 <= k <= runs[b].1 by {
                    assert(k > i);
                    let b = choose|b: int| 0 <= b < rest.len() && (#[trigger] rest[b]).0 <= k <= rest[b].1;
                    assert(runs[b] == rest[b]);
                }
            },
        }
    } else {
        let next = match start {
            Some(s) => Some(s),
            None => Some(i),
        };
        assert forall|k: int| runs_floor(i, start) <= k < i + 1 implies (#[trigger] rs[k]).row_type != "context"@ by {}
        lemma_block_runs_from(rs, i + 1, next);
    }
}

/// The blocks of a list of rows are its maximal runs of changed rows, in order: each run is
/// maximal, each ends before the next begins, and every changed row lies in one.
pub proof fn lemma_block_runs_maximal(rs: Seq<RowView>)
    ensures
        forall|b: int|
            0 <= b < block_runs(rs, 0, None).len() ==> maximal_change_run(
                rs,
                (#[trigger] block_runs(rs, 0, None)[b]).0,
                block_runs(rs, 0, None)[b].1,
            ),
        forall|b: int|
            0 <= b < block_runs(rs, 0, None).len() - 1 ==> (#[trigger] block_runs(rs, 0, None)[b]).1
                < block_runs(rs, 0, None)[b + 1].0,
        forall|k: int|
            0 <= k < rs.len() && (#[trigger] rs[k]).row_type != "context"@ ==> exists|b: int|
                0 <= b < block_runs(rs, 0, None).len() && (#[trigger] block_runs(rs, 0, None)[b]).0 <= k
                    <= block_runs(rs, 0, None)[b].1,
{
    lemma_block_runs_from(rs, 0, None);
}

/// The id of the `b`-th block (counting from 0): `block-` and its one-based number.
pub open spec fn block_id_spec(b: int) -> Seq<char> {
    "block-"@ + decimal((b + 1) as nat)
}

/// `r` with its block id set.
pub open spec fn with_block_id(r: RowView, id: Seq<char>) -> RowView {
    RowView { block_id: Some(id), ..r }
}

/// The index of the last of the first `n` runs that holds row `j`, if any.
pub open spec fn run_of(runs: Seq<(int, int)>, n: int, j: int) -> Option<int>
    decreases n,
{
    if n <= 0 {
        None
    } else if runs[n - 1].0 <= j <= runs[n - 1].1 {
        Some(n - 1)
    } else {
        run_of(runs, n - 1, j)
    }
}

/// The rows after the first `n` runs have been given their block ids.
pub open spec fn labelled(rs: Seq<RowView>, runs: Seq<(int, int)>, n: int) -> Seq<RowView> {
    Seq::new(
        rs.len(),
        |j: int|
            match run_of(runs, n, j) {
                Some(b) => with_block_id(rs[j], block_id_spec(b)),
                None => rs[j],
            },
    )
}

/// The first old line number among `rs`.
pub open spec fn first_old(rs: Seq<RowView>) -> Option<usize>
    decreases rs.len(),
{
    if rs.len() == 0 {
        None
    } else {
        match first_old(rs.drop_last()) {
            Some(x) => Some(x),
            None => rs.last().old_line_number,
        }
    }
}

/// The last old line number among `rs`.
pub open spec fn last_old(rs: Seq<RowView>) -> Option<usize>
    decreases rs.len(),
{
    if rs.len() == 0 {
        None
    } else {
        match rs.last().old_line_number {
            Some(x) => Some(x),
            None => last_old(rs.drop_last()),
        }
    }
}

/// The first new line number among `rs`.
pub open spec fn first_new(rs: Seq<RowView>) -> Option<usize>
    decreases rs.len(),
{
    if rs.len() == 0 {
        None
    } else {
        match first_new(rs.drop_last()) {
            Some(x) => Some(x),
            None => rs.last().new_line_number,
        }
    }
}

/// The last new line number among `rs`.
pub open spec fn last_new(rs: Seq<RowView>) -> Option<usize>
    decreases rs.len(),
{
    if rs.len() == 0 {
        None
    } else {
        match rs.last().new_line_number {
            Some(x) => Some(x),
            None => last_new(rs.drop_last()),
        }
    }
}

/// The change type of a block: modified if any row is, else added if any row is, else deleted.
pub open spec fn block_change_type(rs: Seq<RowView>) -> Seq<char> {
    if exists|k: int| 0 <= k < rs.len() && (#[trigger] rs[k]).row_type == "modified"@ {
        "modified"@
    } else if exists|k: int| 0 <= k < rs.len() && (#[trigger] rs[k]).row_type == "added"@ {
        "added"@
    } else {
        "deleted"@
    }
}

/// A block's change type says which rows it holds: `"modified"` exactly when some row is
/// modified, `"added"` exactly when no row is modified and some row is added, and `"deleted"`
/// exactly when no row is modified or added.
pub proof fn lemma_block_change_type(rs: Seq<RowView>)
    ensures
        block_change_type(rs) == "modified"@ <==> exists|k: int|
            0 <= k < rs.len() && (#[trigger] rs[k]).row_type == "modified"@,
        block_change_type(rs) == "added"@ <==> (!exists|k: int|
            0 <= k < rs.len() && (#[trigger] rs[k]).row_type == "modified"@) && exists|k: int|
            0 <= k < rs.len() && (#[trigger] rs[k]).row_type == "added"@,
        block_change_type(rs) == "deleted"@ <==> (!exists|k: int|
            0 <= k < rs.len() && (#[trigger] rs[k]).row_type == "modified"@) && !exists|k: int|
            0 <= k < rs.len() && (#[trigger] rs[k]).row_type == "added"@,
{
    reveal_strlit("modified");
    reveal_strlit("added");
    reveal_strlit("deleted");
    assert("modified"@ != "added"@ && "modified"@ != "deleted"@) by {
        assert("modified"@.len() != "added"@.len());
        assert("modified"@.len() != "deleted"@.len());
    }
    assert("added"@ != "deleted"@) by {
        assert("added"@.len() != "deleted"@.len());
    }
}

/// `o`, or 0 when it is `None`.
pub open spec fn or_zero(o: Option<usize>) -> usize {
    match o {
        Some(x) => x,
        None => 0,
    }
}

/// `blk` is block number `b` over rows `first..=last` of `rs` (the rows before labelling).
pub open spec fn run_block(blk: DiffBlockOutput, rs: Seq<RowView>, first: int, last: int, b: int) -> bool {
    let block_rows = rs.subrange(first, last + 1).map_values(
        |r: RowView| with_block_id(r, block_id_spec(b)),
    );
    &&& blk.id@ == block_id_spec(b)
    &&& rows_view(blk.rows@) == block_rows
    &&& blk.old_start == or_zero(first_old(block_rows))
    &&& blk.old_end == or_zero(last_old(block_rows))
    &&& blk.new_start == or_zero(first_new(block_rows))
    &&& blk.new_end == or_zero(last_new(block_rows))
    &&& blk.row_start_index == Some(first as usize)
    &&& blk.row_end_index == Some(last as usize)
    &&& blk.change_type@ == block_change_type(block_rows)
    &&& blk.authors@.len() == 0
    &&& blk.related_commits@.len() == 0
    &&& blk.attribution is None
}

fn copy_word_changes(v: &Vec<WordChangeOutput>) -> (out: Vec<WordChangeOutput>)
    ensures
        word_changes_view(out@) == word_changes_view(v@),
{
    let mut out: Vec<WordChangeOutput> = Vec::new();
    let mut i: usize = 0;
    while i < v.len()
        invariant
            i <= v.len(),
            out@.len() == i,
            word_changes_view(out@) == word_changes_view(v@.take(i as int)),
        decreases v.len() - i,
    {
        let w = WordChangeOutput { value: v[i].value.clone(), added: v[i].added, removed: v[i].removed };
        assert(word_change_view(w) == word_change_view(v@[i as int]));
        let ghost before = out@;
        out.push(w);
        assert(out@ =~= before.push(w));
        assert(v@.take(i + 1) =~= v@.take(i as int).push(v@[i as int]));
        assert forall|k: int| 0 <= k < out@.len() implies word_changes_view(out@)[k]
            == word_changes_view(v@.take(i + 1))[k] by {
            if k < i {
                assert(out@[k] == before[k]);
                assert(word_changes_view(before)[k] == word_changes_view(v@.take(i as int))[k]);
            }
        }
        assert(word_changes_view(out@) =~= word_changes_view(v@.take(i + 1)));
        i += 1;
    }
    assert(v@.take(v.len() as int) =~= v@);
    out
}

fn copy_opt(o: &Option<String>) -> (r: Option<String>)
    ensures
        opt_text(r) == opt_text(*o),
{
    match o {
        Some(s) => Some(s.clone()),
        None => None,
    }
}

/// A copy of a row with its block id replaced.
fn row_with_block_id(r: &SideBySideDiffRowOutput, id: &String) -> (out: SideBySideDiffRowOutput)
    ensures
        out@ == with_block_id(r@, id@),
{
    SideBySideDiffRowOutput {
        old_line_number: r.old_line_number,
        new_line_number: r.new_line_number,
        old_text: copy_opt(&r.old_text),
        new_text: copy_opt(&r.new_text),
        row_type: r.row_type.clone(),
        word_changes: match &r.word_changes {
            Some(v) => Some(copy_word_changes(v)),
            None => None,
        },
        block_id: Some(id.clone()),
    }
}

/// A copy of a row.
fn copy_row(r: &SideBySideDiffRowOutput) -> (out: SideBySideDiffRowOutput)
    ensures
        out@ == r@,
{
    SideBySideDiffRowOutput {
        old_line_number: r.old_line_number,
        new_line_number: r.new_line_number,
        old_text: copy_opt(&r.old_text),
        new_text: copy_opt(&r.new_text),
        row_type: r.row_type.clone(),
        word_changes: match &r.word_changes {
            Some(v) => Some(copy_word_changes(v)),
            None => None,
        },
        block_id: copy_opt(&r.block_id),
    }
}

proof fn lemma_labelled_step(rs: Seq<RowView>, runs: Seq<(int, int)>, n: int, j: int)
    requires
        0 <= n < runs.len(),
        0 <= j < rs.len(),
    ensures
        labelled(rs, runs, n + 1)[j] == (if runs[n].0 <= j <= runs[n].1 {
            with_block_id(rs[j], block_id_spec(n))
        } else {
            labelled(rs, runs, n)[j]
        }),
{
}

/// Diff blocks for the maximal runs of non-context rows; each row of a run gets its block's id.
pub fn build_blocks(rows: &mut Vec<SideBySideDiffRowOutput>) -> (blocks: Vec<DiffBlockOutput>)
    ensures
        blocks@.len() == block_runs(rows_view(old(rows)@), 0, None).len(),
        forall|b: int|
            0 <= b < blocks@.len() ==> run_block(
                #[trigger] blocks@[b],
                rows_view(old(rows)@),
                block_runs(rows_view(old(rows)@), 0, None)[b].0,
                block_runs(rows_view(old(rows)@), 0, None)[b].1,
                b,
            ),
        rows_view(final(rows)@) == labelled(
            rows_view(old(rows)@),
            block_runs(rows_view(old(rows)@), 0, None),
            blocks@.len() as int,
        ),
{
    let ghost r0 = rows_view(rows@);
    let ghost total = block_runs(r0, 0, None);
    let mut blocks: Vec<DiffBlockOutput> = Vec::new();
    let mut current: Vec<usize> = Vec::new();
    let ghost mut start: Option<int> = None;
    let mut index: usize = 0;
    assert(total.skip(0) =~= total);
    assert(labelled(r0, total, 0) =~= r0);
    while index < rows.len()
        invariant
            r0 == rows_view(old(rows)@),
            total == block_runs(r0, 0, None),
            index <= rows.len(),
            rows.len() == r0.len(),
            block_runs(r0, index as int, start) == total.skip(blocks@.len() as int),
            blocks@.len() <= total.len(),
            rows_view(rows@) == labelled(r0, total, blocks@.len() as int),
            forall|b: int|
                0 <= b < blocks@.len() ==> run_block(
                    #[trigger] blocks@[b],
                    r0,
                    total[b].0,
                    total[b].1,
                    b,
                ),
            match start {
                Some(s) => 0 <= s < index && blocks@.len() <= s && current@ == Seq::new(
                    (index - s) as nat,
                    |k: int| (s + k) as usize,
                ),
                None => blocks@.len() <= index && current@.len() == 0,
            },
        decreases rows.len() - index,
    {
        let is_context = str_eq(rows[index].row_type.as_str(), "context");
        assert(rows_view(rows@)[index as int].row_type == r0[index as int].row_type);
        if is_context {
            proof {
                match start {
                    Some(s) => {
                        assert(total.skip(blocks@.len() as int)[0] == (s, index - 1));
                        assert(total.skip(blocks@.len() as int).skip(1) =~= total.skip(
                            blocks@.len() + 1int,
                        ));
                    },
                    None => {
                        assert(total.skip(blocks@.len() as int) =~= block_runs(r0, index + 1, None));
                    },
                }
            }
            flush_block(rows, &mut current, &mut blocks, Ghost(r0), Ghost(total));
            proof {
                start = None;
            }
        } else {
            current.push(index);
            proof {
                match start {
                    Some(s) => {
                        assert(current@ =~= Seq::new(
                            (index + 1 - s) as nat,
                            |k: int| (s + k) as usize,
                        ));
                    },
                    None => {
                        start = Some(index as int);
                        assert(current@ =~= Seq::new(1, |k: int| (index + k) as usize));
                    },
                }
            }
        }
        index += 1;
    }
    proof {
        match start {
            Some(s) => {
                assert(total.skip(blocks@.len() as int) =~= seq![(s, rows.len() - 1)]);
                assert(total.skip(blocks@.len() as int)[0] == (s, index - 1));
            },
            None => {
                assert(total.skip(blocks@.len() as int).len() == 0);
            },
        }
    }
    flush_block(rows, &mut current, &mut blocks, Ghost(r0), Ghost(total));
    blocks
}

fn flush_block(
    rows: &mut Vec<SideBySideDiffRowOutput>,
    current: &mut Vec<usize>,
    blocks: &mut Vec<DiffBlockOutput>,
    Ghost(r0): Ghost<Seq<RowView>>,
    Ghost(total): Ghost<Seq<(int, int)>>,
)
    requires
        old(rows)@.len() == r0.len(),
        rows_view(old(rows)@) == labelled(r0, total, old(blocks)@.len() as int),
        old(blocks)@.len() <= total.len(),
        forall|b: int|
            0 <= b < old(blocks)@.len() ==> run_block(
                #[trigger] old(blocks)@[b],
                r0,
                total[b].0,
                total[b].1,
                b,
            ),
        old(current)@.len() > 0 ==> {
            &&& old(blocks)@.len() < total.len()
            &&& total[old(blocks)@.len() as int].0 == old(current)@[0]
            &&& total[old(blocks)@.len() as int].1 == old(current)@[old(current)@.len() - 1]
            &&& old(blocks)@.len() <= old(current)@[0]
            &&& old(current)@[old(current)@.len() - 1] < r0.len()
            &&& forall|k: int|
                0 <= k < old(current)@.len() ==> #[trigger] old(current)@[k] == old(current)@[0] + k
        },
    ensures
        final(current)@.len() == 0,
        final(rows)@.len() == r0.len(),
        final(blocks)@.len() == old(blocks)@.len() + (if old(current)@.len() > 0 {
            1int
        } else {
            0
        }),
        rows_view(final(rows)@) == labelled(r0, total, final(blocks)@.len() as int),
        forall|b: int|
            0 <= b < final(blocks)@.len() ==> run_block(
                #[trigger] final(blocks)@[b],
                r0,
                total[b].0,
                total[b].1,
                b,
            ),
{
    if current.len() == 0 {
        return;
    }
    let n = blocks.len();
    let row_count = rows.len();
    assert(n < row_count);
    let ghost first = current@[0] as int;
    let ghost last = current@[current@.len() - 1] as int;
    let mut block_id = String::from_str("block-");
    push_decimal(&mut block_id, (n + 1) as u64);
    assert(block_id@ == block_id_spec(n as int));
    let ghost before = rows_view(rows@);
    let mut k: usize = 0;
    while k < current.len()
        invariant
            rows@.len() == r0.len(),
            before == labelled(r0, total, n as int),
            n < total.len(),
            total[n as int] == (first, last),
            block_id@ == block_id_spec(n as int),
            last < r0.len(),
            current@.len() > 0,
            first == current@[0],
            last == current@[current@.len() - 1],
            forall|m: int| 0 <= m < current@.len() ==> #[trigger] current@[m] == first + m,
            k <= current.len(),
            forall|j: int|
                0 <= j < r0.len() ==> #[trigger] rows_view(rows@)[j] == (if first <= j < first + k {
                    with_block_id(r0[j], block_id_spec(n as int))
                } else {
                    before[j]
                }),
        decreases current.len() - k,
    {
        let index = current[k];
        let updated = row_with_block_id(&rows[index], &block_id);
        let ghost prev = rows_view(rows@);
        assert(prev[index as int] == before[index as int]);
        assert(with_block_id(before[index as int], block_id@) == with_block_id(
            r0[index as int],
            block_id@,
        ));
        rows.set(index, updated);
        assert forall|j: int| 0 <= j < r0.len() implies #[trigger] rows_view(rows@)[j] == (if first
            <= j < first + k + 1 {
            with_block_id(r0[j], block_id_spec(n as int))
        } else {
            before[j]
        }) by {
            if j != index {
                assert(rows_view(rows@)[j] == prev[j]);
            }
        }
        k += 1;
    }
    assert forall|j: int| 0 <= j < r0.len() implies #[trigger] rows_view(rows@)[j] == labelled(
        r0,
        total,
        n + 1,
    )[j] by {
        lemma_labelled_step(r0, total, n as int, j);
    }
    assert(rows_view(rows@) =~= labelled(r0, total, n + 1));
    let ghost expected = r0.subrange(first, last + 1).map_values(
        |r: RowView| with_block_id(r, block_id_spec(n as int)),
    );
    let mut block_rows: Vec<SideBySideDiffRowOutput> = Vec::new();
    let mut first_old_number: Option<usize> = None;
    let mut last_old_number: Option<usize> = None;
    let mut first_new_number: Option<usize> = None;
    let mut last_new_number: Option<usize> = None;
    let mut has_modified = false;
    let mut has_added = false;
    let mut m: usize = 0;
    while m < current.len()
        invariant
            rows_view(rows@) == labelled(r0, total, n + 1),
            rows@.len() == r0.len(),
            n < total.len(),
            total[n as int] == (first, last),
            last < r0.len(),
            0 <= first <= last,
            current@.len() == last - first + 1,
            forall|q: int| 0 <= q < current@.len() ==> #[trigger] current@[q] == first + q,
            expected == r0.subrange(first, last + 1).map_values(
                |r: RowView| with_block_id(r, block_id_spec(n as int)),
            ),
            m <= current.len(),
            rows_view(block_rows@) == expected.take(m as int),
            first_old_number == first_old(expected.take(m as int)),
            last_old_number == last_old(expected.take(m as int)),
            first_new_number == first_new(expected.take(m as int)),
            last_new_number == last_new(expected.take(m as int)),
            has_modified == exists|q: int|
                0 <= q < m && (#[trigger] expected[q]).row_type == "modified"@,
            has_added == exists|q: int| 0 <= q < m && (#[trigger] expected[q]).row_type == "added"@,
        decreases current.len() - m,
    {
        let index = current[m];
        assert(rows_view(rows@)[index as int] == expected[m as int]) by {
            lemma_labelled_step(r0, total, n as int, index as int);
        }
        let row = copy_row(&rows[index]);
        assert(row@ == expected[m as int]);
        let ghost pre = expected.take(m as int);
        assert(expected.take(m + 1).drop_last() =~= pre);
        if first_old_number.is_none() {
            first_old_number = row.old_line_number;
        }
        if row.old_line_number.is_some() {
            last_old_number = row.old_line_number;
        }
        if first_new_number.is_none() {
            first_new_number = row.new_line_number;
        }
        if row.new_line_number.is_some() {
            last_new_number = row.new_line_number;
        }
        if str_eq(row.row_type.as_str(), "modified") {
            has_modified = true;
        }
        if str_eq(row.row_type.as_str(), "added") {
            has_added = true;
        }
        let ghost before_rows = block_rows@;
        block_rows.push(row);
        assert(rows_view(block_rows@) =~= rows_view(before_rows).push(row@));
        assert(expected.take(m + 1) =~= pre.push(expected[m as int]));
        m += 1;
    }
    assert(expected.take(current.len() as int) =~= expected);
    let change_type = if has_modified {
        String::from_str("modified")
    } else if has_added {
        String::from_str("added")
    } else {
        String::from_str("deleted")
    };
    let row_start_index = Some(current[0]);
    let row_end_index = Some(current[current.len() - 1]);
    let ghost old_blocks = blocks@;
    blocks.push(
        DiffBlockOutput {
            id: block_id,
            old_start: match first_old_number {
                Some(x) => x,
                None => 0,
            },
            old_end: match last_old_number {
                Some(x) => x,
                None => 0,
            },
            new_start: match first_new_number {
                Some(x) => x,
                None => 0,
            },
            new_end: match last_new_number {
                Some(x) => x,
                None => 0,
            },
            row_start_index,
            row_end_index,
            change_type,
            authors: Vec::new(),
            rows: block_rows,
            related_commits: Vec::new(),
            attribution: None,
        },
    );
    assert forall|b: int| 0 <= b < blocks@.len() implies run_block(
        #[trigger] blocks@[b],
        r0,
        total[b].0,
        total[b].1,
        b,
    ) by {
        if b < n {
            assert(blocks@[b] == old_blocks[b]);
        }
    }
    current.clear();
}

} // verus!
