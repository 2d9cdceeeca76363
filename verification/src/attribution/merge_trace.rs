//! Tracing a block that a merge commit brought in back to the parent commits it came from.
use crate::attribution::blame::{attribution_is, looked_up};
use crate::attribution::patch_inference::{related_from_commit, texts, FilterMatcher};
use crate::attribution::source_validation::paths_read;
use crate::error::AppError;
use crate::git::commits::IndexedCommit;
use crate::git::diff::push_unique_path;
use crate::json::{
    AttributionWarningOutput, BlockAttributionOutput, DiffBlockOutput,
    RelatedCommitAttributionOutput, RelatedCommitOutput, SideBySideDiffRowOutput,
    TouchedRangeOutput,
};
use crate::text::{decimal, lines_view, push_decimal, str_eq, text_lines, text_lines_of};
use vstd::prelude::*;

verus! {

/// What tracing a merge found for a block: the commits it came from, whether more than one
/// source could explain it, and whether the merge commit was replaced by its sources.
#[derive(Debug)]
pub struct MergeTraceOutcome {
    pub related_commits: Vec<RelatedCommitOutput>,
    pub ambiguous: bool,
    pub replaced_merge_commit: bool,
}

/// The attribution of a block that several merge parents could explain.
pub fn partial_attribution() -> (a: BlockAttributionOutput)
    ensures
        attribution_is(
            Some(a),
            "partial"@,
            seq![("MERGE_TRACE_AMBIGUOUS"@, "多个父提交都能解释 merge 结果中的块内容"@)],
        ),
{
    let mut warnings: Vec<AttributionWarningOutput> = Vec::new();
    warnings.push(
        AttributionWarningOutput {
            code: String::from_str("MERGE_TRACE_AMBIGUOUS"),
            message: String::from_str("多个父提交都能解释 merge 结果中的块内容"),
        },
    );
    let a = BlockAttributionOutput { confidence: String::from_str("partial"), warnings };
    assert(a.warnings@.map_values(|w: AttributionWarningOutput| (w.code@, w.message@)) =~= seq![
        ("MERGE_TRACE_AMBIGUOUS"@, "多个父提交都能解释 merge 结果中的块内容"@),
    ]);
    a
}

/// Where a block's lines occur in a parent's text.
#[derive(Debug, Clone, Copy, PartialEq, Eq, Structural)]
pub enum WindowMatch {
    NoMatch,
    Unique { start: usize, end: usize },
    Multiple,
}

/// `target` occurs in `lines` at the zero-based line `s`.
pub open spec fn window_at(lines: Seq<Seq<char>>, target: Seq<Seq<char>>, s: int) -> bool {
    0 <= s && s + target.len() <= lines.len() && lines.subrange(s, s + target.len()) == target
}

/// The zero-based lines below `n` at which `target` occurs in `lines`, in increasing order.
pub open spec fn match_starts(lines: Seq<Seq<char>>, target: Seq<Seq<char>>, n: int) -> Seq<int>
    decreases n,
{
    if n <= 0 {
        Seq::empty()
    } else if window_at(lines, target, n - 1) {
        match_starts(lines, target, n - 1).push(n - 1)
    } else {
        match_starts(lines, target, n - 1)
    }
}

/// Where `target` occurs in `text`: nowhere, once within a line of the preferred one-based
/// start line, or more than once. A single occurrence farther away counts as none.
pub open spec fn full_window_spec(text: Seq<char>, target: Seq<Seq<char>>, preferred: int) -> WindowMatch {
    let lines = text_lines(text);
    if target.len() == 0 || lines.len() < target.len() || preferred == 0 {
        WindowMatch::NoMatch
    } else {
        let starts = match_starts(lines, target, lines.len() - target.len() + 1);
        if starts.len() == 0 {
            WindowMatch::NoMatch
        } else if starts.len() == 1 {
            let line = starts[0] + 1;
            let min_start = if preferred - 1 > 1 {
                preferred - 1
            } else {
                1
            };
            if line < min_start || line > preferred + 1 {
                WindowMatch::NoMatch
            } else {
                WindowMatch::Unique {
                    start: starts[0] as usize,
                    end: (starts[0] + target.len()) as usize,
                }
            }
        } else {
            WindowMatch::Multiple
        }
    }
}

fn window_equals(lines: &Vec<String>, target: &[String], s: usize) -> (r: bool)
    requires
        s + target@.len() <= lines@.len(),
    ensures
        r == window_at(lines_view(lines@), lines_view(target@), s as int),
{
    let n = lines.len();
    let mut k: usize = 0;
    while k < target.len()
        invariant
            k <= target.len(),
            s + target@.len() <= lines@.len() == n,
            forall|j: int| 0 <= j < k ==> lines@[s + j]@ == target@[j]@,
        decreases target.len() - k,
    {
        if !str_eq(lines[s + k].as_str(), target[k].as_str()) {
            assert(lines_view(lines@).subrange(s as int, s + target@.len())[k as int]
                != lines_view(target@)[k as int]);
            return false;
        }
        k += 1;
    }
    assert(lines_view(lines@).subrange(s as int, s + target@.len()) =~= lines_view(target@));
    true
}

proof fn lemma_match_starts_windows(lines: Seq<Seq<char>>, target: Seq<Seq<char>>, n: int, k: int)
    requires
        0 <= k < match_starts(lines, target, n).len(),
    ensures
        window_at(lines, target, match_starts(lines, target, n)[k]),
        match_starts(lines, target, n)[k] < n,
    decreases n,
{
    if n > 0 {
        let prev = match_starts(lines, target, n - 1);
        if k < prev.len() {
            lemma_match_starts_windows(lines, target, n - 1, k);
        }
    }
}

/// Where the lines `target_lines` occur in `text`.
pub fn full_window_matches(text: &str, target_lines: &[String], preferred_start_line: usize) -> (r:
    WindowMatch)
    ensures
        r == full_window_spec(text@, lines_view(target_lines@), preferred_start_line as int),
        r matches WindowMatch::Unique { start, end } ==> start < end,
{
    if target_lines.len() == 0 {
        return WindowMatch::NoMatch;
    }
    let lines = text_lines_of(text);
    if lines.len() < target_lines.len() || preferred_start_line == 0 {
        return WindowMatch::NoMatch;
    }
    let ghost lv = lines_view(lines@);
    let ghost tv = lines_view(target_lines@);
    let max_start = lines.len() - target_lines.len();
    let mut positions: Vec<usize> = Vec::new();
    let mut s: usize = 0;
    while s <= max_start
        invariant
            max_start == lines@.len() - target_lines@.len(),
            target_lines@.len() >= 1,
            lines@.len() <= usize::MAX,
            s <= max_start + 1,
            lv == lines_view(lines@),
            tv == lines_view(target_lines@),
            positions@.map_values(|p: usize| p as int) == match_starts(lv, tv, s as int),
        decreases max_start + 1 - s,
    {
        let ghost before = positions@;
        if window_equals(&lines, target_lines, s) {
            positions.push(s);
            assert(positions@.map_values(|p: usize| p as int) =~= before.map_values(
                |p: usize| p as int,
            ).push(s as int));
        }
        s += 1;
    }
    assert(lv.len() == lines@.len());
    if positions.len() == 0 {
        WindowMatch::NoMatch
    } else if positions.len() == 1 {
        let start = positions[0];
        assert(match_starts(lv, tv, s as int)[0] == start as int);
        proof {
            lemma_match_starts_windows(lv, tv, s as int, 0);
        }
        let candidate_start_line = start + 1;
        let min_start = if preferred_start_line - 1 > 1 {
            preferred_start_line - 1
        } else {
            1
        };
        if candidate_start_line < min_start || candidate_start_line as u128 > preferred_start_line
            as u128 + 1 {
            WindowMatch::NoMatch
        } else {
            WindowMatch::Unique { start, end: start + target_lines.len() }
        }
    } else {
        WindowMatch::Multiple
    }
}

/// The one-based lines `start..=end` of `text`: `None` when the range is empty, starts at 0
/// or runs past the text.
pub open spec fn line_window_spec(text: Seq<char>, start: int, end: int) -> Option<Seq<Seq<char>>> {
    let lines = text_lines(text);
    if start == 0 || end < start || end > lines.len() {
        None
    } else {
        Some(lines.subrange(start - 1, end))
    }
}

/// The one-based lines `start_line..=end_line` of `text`.
pub fn line_window(text: &str, start_line: usize, end_line: usize) -> (r: Option<Vec<String>>)
    ensures
        match r {
            Some(v) => line_window_spec(text@, start_line as int, end_line as int) == Some(
                lines_view(v@),
            ),
            None => line_window_spec(text@, start_line as int, end_line as int) is None,
        },
{
    if start_line == 0 || end_line < start_line {
        return None;
    }
    let lines = text_lines_of(text);
    if end_line > lines.len() {
        return None;
    }
    let mut window: Vec<String> = Vec::new();
    let mut i: usize = start_line - 1;
    while i < end_line
        invariant
            1 <= start_line,
            start_line - 1 <= i <= end_line <= lines@.len(),
            lines_view(lines@).len() == lines@.len(),
            lines_view(window@) == lines_view(lines@).subrange(start_line - 1, i as int),
        decreases end_line - i,
    {
        let ghost before = window@;
        let line = lines[i].clone();
        window.push(line);
        assert(lines_view(window@) =~= lines_view(before).push(line@));
        assert(lines_view(lines@).subrange(start_line - 1, i + 1) =~= lines_view(lines@).subrange(
            start_line - 1,
            i as int,
        ).push(lines_view(lines@)[i as int]));
        i += 1;
    }
    Some(window)
}

/// The new-side text of each row that has a new line, in order (empty where a row has no text).
pub open spec fn block_new_lines_spec(rows: Seq<SideBySideDiffRowOutput>) -> Seq<Seq<char>>
    decreases rows.len(),
{
    if rows.len() == 0 {
        Seq::empty()
    } else {
        let prev = block_new_lines_spec(rows.drop_last());
        let r = rows.last();
        if r.new_line_number is Some {
            prev.push(
                match r.new_text {
                    Some(t) => t@,
                    None => Seq::empty(),
                },
            )
        } else {
            prev
        }
    }
}

/// The new lines of a block, from its rows.
pub fn block_new_lines(block: &DiffBlockOutput) -> (lines: Vec<String>)
    ensures
        lines_view(lines@) == block_new_lines_spec(block.rows@),
{
    let mut lines: Vec<String> = Vec::new();
    let mut i: usize = 0;
    while i < block.rows.len()
        invariant
            i <= block.rows.len(),
            lines_view(lines@) == block_new_lines_spec(block.rows@.take(i as int)),
        decreases block.rows.len() - i,
    {
        assert(block.rows@.take(i + 1).drop_last() =~= block.rows@.take(i as int));
        assert(block.rows@.take(i + 1).last() == block.rows@[i as int]);
        let row = &block.rows[i];
        if row.new_line_number.is_some() {
            let ghost before = lines@;
            let text = match &row.new_text {
                Some(t) => t.clone(),
                None => String::new(),
            };
            lines.push(text);
            assert(lines_view(lines@) =~= lines_view(before).push(text@));
        }
        i += 1;
    }
    assert(block.rows@.take(block.rows.len() as int) =~= block.rows@);
    lines
}

/// Whether the block's new-side lines of `text` are exactly `expected`, which is not empty.
pub fn text_window_matches(text: &str, block: &DiffBlockOutput, expected_lines: &[String]) -> (r:
    bool)
    ensures
        r == (expected_lines@.len() > 0 && line_window_spec(
            text@,
            block.new_start as int,
            block.new_end as int,
        ) == Some(lines_view(expected_lines@))),
{
    if expected_lines.len() == 0 {
        return false;
    }
    match line_window(text, block.new_start, block.new_end) {
        Some(window) => {
            if window.len() != expected_lines.len() {
                assert(lines_view(window@).len() != lines_view(expected_lines@).len());
                return false;
            }
            let mut k: usize = 0;
            while k < window.len()
                invariant
                    k <= window.len(),
                    window@.len() == expected_lines@.len(),
                    expected_lines@.len() > 0,
                    line_window_spec(text@, block.new_start as int, block.new_end as int) == Some(
                        lines_view(window@),
                    ),
                    forall|j: int| 0 <= j < k ==> window@[j]@ == expected_lines@[j]@,
                decreases window.len() - k,
            {
                if !str_eq(window[k].as_str(), expected_lines[k].as_str()) {
                    assert(lines_view(window@)[k as int] != lines_view(expected_lines@)[k as int]);
                    assert(lines_view(window@) != lines_view(expected_lines@));
                    return false;
                }
                k += 1;
            }
            assert(lines_view(window@) =~= lines_view(expected_lines@));
            true
        },
        None => false,
    }
}

/// The block moved to new lines `start_line..=end_line`.
pub fn remap_block_for_window(block: DiffBlockOutput, start_line: usize, end_line: usize) -> (out:
    DiffBlockOutput)
    ensures
        out == (DiffBlockOutput { new_start: start_line, new_end: end_line, ..block }),
{
    let mut out = block;
    out.new_start = start_line;
    out.new_end = end_line;
    out
}

/// The block whose new lines start where they did and span as many lines as `block_lines`.
pub fn mapped_block_from_window(block: DiffBlockOutput, block_lines: &[String]) -> (out:
    DiffBlockOutput)
    requires
        block_lines@.len() == 0 || block.new_start + block_lines@.len() - 1 <= usize::MAX,
    ensures
        block.new_start == 0 ==> out == block,
        block.new_start > 0 ==> out == (DiffBlockOutput {
            new_end: if block_lines@.len() == 0 {
                block.new_start
            } else {
                (block.new_start + block_lines@.len() - 1) as usize
            },
            ..block
        }),
{
    let mut out = block;
    let start = out.new_start;
    let span = if block_lines.len() > 0 {
        block_lines.len() - 1
    } else {
        0
    };
    let end = start + span;
    if start > 0 {
        out.new_end = if end > start {
            end
        } else {
            start
        };
    }
    out
}

/// The first of `previous` that reports the commit `hash`.
pub open spec fn first_with_hash(previous: Seq<RelatedCommitOutput>, hash: Seq<char>) -> Option<
    RelatedCommitOutput,
>
    decreases previous.len(),
{
    if previous.len() == 0 {
        None
    } else if previous[0].hash@ == hash {
        Some(previous[0])
    } else {
        first_with_hash(previous.drop_first(), hash)
    }
}

/// The strings of `v`, each once, in order of first appearance.
pub open spec fn distinct_texts(v: Seq<Seq<char>>) -> Seq<Seq<char>>
    decreases v.len(),
{
    if v.len() == 0 {
        Seq::empty()
    } else {
        let prev = distinct_texts(v.drop_last());
        if prev.contains(v.last()) {
            prev
        } else {
            prev.push(v.last())
        }
    }
}

/// `r` reports `commit` as found by merge trace through the merges `via`: matched and touched as
/// the first earlier report of the commit said, else matched by the filter with no range.
pub open spec fn merge_traced_commit(
    r: RelatedCommitOutput,
    commit: IndexedCommit,
    via: Seq<Seq<char>>,
    filter: FilterMatcher,
    previous: Seq<RelatedCommitOutput>,
) -> bool {
    let p = first_with_hash(previous, commit.hash@);
    related_from_commit(
        r,
        commit,
        match p {
            Some(q) => q.matched_by_filter,
            None => filter.accepts(commit),
        },
        match p {
            Some(q) => q.touched_ranges@,
            None => Seq::empty(),
        },
        "merge-trace"@,
        distinct_texts(via),
    )
}

fn first_for_hash<'a>(previous: &'a [RelatedCommitOutput], hash: &str) -> (r: Option<
    &'a RelatedCommitOutput,
>)
    ensures
        match r {
            Some(p) => first_with_hash(previous@, hash@) == Some(*p),
            None => first_with_hash(previous@, hash@) is None,
        },
{
    let mut i: usize = 0;
    assert(previous@.skip(0) =~= previous@);
    while i < previous.len()
        invariant
            i <= previous.len(),
            first_with_hash(previous@, hash@) == first_with_hash(previous@.skip(i as int), hash@),
        decreases previous.len() - i,
    {
        assert(previous@.skip(i as int)[0] == previous@[i as int]);
        assert(previous@.skip(i as int).drop_first() =~= previous@.skip(i + 1));
        if str_eq(previous[i].hash.as_str(), hash) {
            return Some(&previous[i]);
        }
        i += 1;
    }
    None
}

/// The related commit for a commit that merge trace reached.
pub fn related_commit_for_merge_trace(
    commit: &IndexedCommit,
    via_merge_hashes: &[String],
    filter: &FilterMatcher,
    previous_related_commits: &[RelatedCommitOutput],
) -> (r: RelatedCommitOutput)
    ensures
        merge_traced_commit(r, *commit, texts(via_merge_hashes@), *filter, previous_related_commits@),
{
    let mut via: Vec<String> = Vec::new();
    let mut i: usize = 0;
    while i < via_merge_hashes.len()
        invariant
            i <= via_merge_hashes.len(),
            texts(via@) == distinct_texts(texts(via_merge_hashes@).take(i as int)),
        decreases via_merge_hashes.len() - i,
    {
        assert(texts(via_merge_hashes@).take(i + 1).drop_last() =~= texts(via_merge_hashes@).take(
            i as int,
        ));
        assert(texts(via_merge_hashes@).take(i + 1).last() == via_merge_hashes@[i as int]@);
        push_unique_path(&mut via, via_merge_hashes[i].as_str());
        i += 1;
    }
    assert(texts(via_merge_hashes@).take(via_merge_hashes.len() as int) =~= texts(
        via_merge_hashes@,
    ));
    let previous = first_for_hash(previous_related_commits, commit.hash.as_str());
    let matched = match previous {
        Some(p) => p.matched_by_filter,
        None => filter.matches(commit),
    };
    let mut touched: Vec<TouchedRangeOutput> = Vec::new();
    match previous {
        Some(p) => {
            let mut k: usize = 0;
            while k < p.touched_ranges.len()
                invariant
                    k <= p.touched_ranges.len(),
                    touched@ == p.touched_ranges@.take(k as int),
                decreases p.touched_ranges.len() - k,
            {
                touched.push(p.touched_ranges[k]);
                assert(touched@ =~= p.touched_ranges@.take(k + 1));
                k += 1;
            }
            assert(p.touched_ranges@.take(p.touched_ranges.len() as int) =~= p.touched_ranges@);
        },
        None => {},
    }
    RelatedCommitOutput {
        hash: commit.hash.clone(),
        short_hash: commit.short_hash.clone(),
        author_name: commit.author_name.clone(),
        author_email: match &commit.author_email {
            Some(e) => Some(e.clone()),
            None => None,
        },
        committed_at: commit.committed_at.clone(),
        subject: commit.subject.clone(),
        matched_by_filter: matched,
        touched_ranges: touched,
        attribution: Some(
            RelatedCommitAttributionOutput {
                method: String::from_str("merge-trace"),
                via_merge_hashes: via,
            },
        ),
    }
}

/// The hashes of related commits.
pub open spec fn hashes_of(v: Seq<RelatedCommitOutput>) -> Seq<Seq<char>> {
    v.map_values(|c: RelatedCommitOutput| c.hash@)
}

/// The first report of each commit among `v`, in order.
pub open spec fn first_per_hash(v: Seq<RelatedCommitOutput>) -> Seq<RelatedCommitOutput>
    decreases v.len(),
{
    if v.len() == 0 {
        Seq::empty()
    } else {
        let prev = first_per_hash(v.drop_last());
        if hashes_of(prev).contains(v.last().hash@) {
            prev
        } else {
            prev.push(v.last())
        }
    }
}

/// Keeps the first report of each commit, in order.
pub fn deduplicate_related_commits(commits: &mut Vec<RelatedCommitOutput>)
    ensures
        final(commits)@ == first_per_hash(old(commits)@),
{
    let ghost original = commits@;
    let mut kept: Vec<RelatedCommitOutput> = Vec::new();
    let mut seen: Vec<String> = Vec::new();
    let mut i: usize = 0;
    let total = commits.len();
    while commits.len() > 0
        invariant
            total == original.len(),
            i + commits@.len() == original.len(),
            commits@ == original.skip(i as int),
            kept@ == first_per_hash(original.take(i as int)),
            texts(seen@) == hashes_of(kept@),
        decreases commits@.len(),
    {
        let c = commits.remove(0);
        assert(c == original[i as int]);
        assert(original.take(i + 1).drop_last() =~= original.take(i as int));
        assert(original.take(i + 1).last() == c);
        let ghost before = kept@;
        if !crate::git::diff::contains_path(&seen, c.hash.as_str()) {
            let ghost seen_before = seen@;
            let ghost cv = c;
            let h = c.hash.clone();
            seen.push(h);
            kept.push(c);
            assert(texts(seen@) =~= texts(seen_before).push(h@));
            assert(hashes_of(kept@) =~= hashes_of(before).push(cv.hash@));
        }
        i += 1;
    }
    assert(original.take(i as int) =~= original);
    *commits = kept;
}

/// The decimal text of a number.
pub open spec fn dec(n: usize) -> Seq<char> {
    decimal(n as nat)
}

/// Joins pieces with a NUL character between consecutive pieces.
pub open spec fn join_nul(pieces: Seq<Seq<char>>) -> Seq<char>
    decreases pieces.len(),
{
    if pieces.len() == 0 {
        Seq::empty()
    } else if pieces.len() == 1 {
        pieces[0]
    } else {
        join_nul(pieces.drop_last()) + seq!['\0'] + pieces.last()
    }
}

/// The signature of a block at a path: the path, its line ranges and its new lines.
pub open spec fn block_signature_spec(path: Seq<char>, block: DiffBlockOutput) -> Seq<char> {
    path + "|"@ + dec(block.old_start) + "|"@ + dec(block.old_end) + "|"@ + dec(block.new_start)
        + "|"@ + dec(block.new_end) + "|"@ + join_nul(block_new_lines_spec(block.rows@))
}

/// The signature that identifies a block at a path while tracing.
pub fn build_block_signature(path: &str, block: &DiffBlockOutput) -> (s: String)
    ensures
        s@ == block_signature_spec(path@, *block),
{
    let mut s = String::from_str(path);
    s.append("|");
    push_decimal(&mut s, block.old_start as u64);
    s.append("|");
    push_decimal(&mut s, block.old_end as u64);
    s.append("|");
    push_decimal(&mut s, block.new_start as u64);
    s.append("|");
    push_decimal(&mut s, block.new_end as u64);
    s.append("|");
    let ghost head = s@;
    let lines = block_new_lines(block);
    let mut i: usize = 0;
    while i < lines.len()
        invariant
            i <= lines.len(),
            s@ == head + join_nul(lines_view(lines@).take(i as int)),
        decreases lines.len() - i,
    {
        assert(lines_view(lines@).take(i + 1).drop_last() =~= lines_view(lines@).take(i as int));
        if i > 0 {
            crate::text::push_char(&mut s, '\0');
        }
        s.append(lines[i].as_str());
        assert(s@ =~= head + join_nul(lines_view(lines@).take(i + 1)));
        i += 1;
    }
    assert(lines_view(lines@).take(lines.len() as int) =~= lines_view(lines@));
    assert(s@ =~= block_signature_spec(path@, *block));
    s
}

/// The merges a trace passed through after reaching `commit`: a merge adds itself unless it
/// is already listed.
pub fn extend_via(via: Vec<String>, commit: &IndexedCommit) -> (out: Vec<String>)
    ensures
        texts(out@) == if commit.is_merge && !texts(via@).contains(commit.hash@) {
            texts(via@).push(commit.hash@)
        } else {
            texts(via@)
        },
{
    let mut out = via;
    if commit.is_merge {
        push_unique_path(&mut out, commit.hash.as_str());
    }
    out
}

/// The outcome of tracing a merge once its parents were tried: with a parent that explained
/// the block, the sources found (each commit once; none means no outcome), ambiguous when
/// the parents disagreed or named several sources, and the merge replaced; without one, the
/// merge itself as the source.
pub fn finish_merge_resolution(
    has_parent_candidate: bool,
    related: Vec<RelatedCommitOutput>,
    ambiguous: bool,
    replaced_merge_commit: bool,
    allow_direct_merge: bool,
    merge_itself: RelatedCommitOutput,
) -> (r: Option<MergeTraceOutcome>)
    ensures
        has_parent_candidate && related@.len() == 0 ==> r is None,
        has_parent_candidate && related@.len() > 0 ==> (r matches Some(o) && o.related_commits@
            == first_per_hash(related@) && o.ambiguous == (ambiguous || first_per_hash(
            related@,
        ).len() > 1) && o.replaced_merge_commit),
        !has_parent_candidate ==> (r matches Some(o) && o.related_commits@ == seq![merge_itself]
            && o.ambiguous == ambiguous && o.replaced_merge_commit == (!allow_direct_merge
            && replaced_merge_commit)),
{
    if has_parent_candidate {
        if related.len() == 0 {
            return None;
        }
        let mut related = related;
        deduplicate_related_commits(&mut related);
        let ambiguous = ambiguous || related.len() > 1;
        return Some(MergeTraceOutcome { related_commits: related, ambiguous, replaced_merge_commit: true });
    }
    let mut only: Vec<RelatedCommitOutput> = Vec::new();
    only.push(merge_itself);
    assert(only@ =~= seq![merge_itself]);
    if allow_direct_merge {
        Some(MergeTraceOutcome { related_commits: only, ambiguous, replaced_merge_commit: false })
    } else {
        Some(MergeTraceOutcome { related_commits: only, ambiguous, replaced_merge_commit })
    }
}

/// The block a parent's text shows, as the mapped block when its new lines stand where
/// they did, else moved to where the text holds them.
pub open spec fn mapped_block_spec(block: DiffBlockOutput, n: int) -> DiffBlockOutput {
    if block.new_start == 0 {
        block
    } else {
        DiffBlockOutput {
            new_end: if n == 0 {
                block.new_start
            } else {
                (block.new_start + n - 1) as usize
            },
            ..block
        }
    }
}

/// What the text of a parent at one of its candidate paths says of a block: the block in
/// place when the text holds its new lines where they were; else the block moved to the one
/// window near its old place that holds them; the block, marked ambiguous, when several
/// windows hold them; nothing when none does.
pub open spec fn parent_candidate_spec(text: Seq<char>, block: DiffBlockOutput, lines: Seq<Seq<char>>) -> Option<
    (DiffBlockOutput, bool),
> {
    if lines.len() > 0 && line_window_spec(text, block.new_start as int, block.new_end as int) == Some(
        lines,
    ) {
        Some((mapped_block_spec(block, lines.len() as int), false))
    } else {
        match full_window_spec(text, lines, block.new_start as int) {
            WindowMatch::Unique { start, end } => Some(
                (DiffBlockOutput { new_start: (start + 1) as usize, new_end: end, ..block }, false),
            ),
            WindowMatch::Multiple => Some((block, true)),
            WindowMatch::NoMatch => None,
        }
    }
}

/// What a parent's text at one candidate path says of the block whose new lines are
/// `block_lines`: the block as the parent holds it and whether the match was ambiguous, or
/// nothing.
pub fn parent_candidate_from_text(parent_text: &str, block: DiffBlockOutput, block_lines: &[String]) -> (r:
    Option<(DiffBlockOutput, bool)>)
    ensures
        r == parent_candidate_spec(parent_text@, block, lines_view(block_lines@)),
{
    if text_window_matches(parent_text, &block, block_lines) {
        proof {
            let lines = text_lines(parent_text@);
            assert(line_window_spec(parent_text@, block.new_start as int, block.new_end as int) == Some(
                lines.subrange(block.new_start - 1, block.new_end as int),
            ));
            assert(lines_view(block_lines@).len() == block_lines@.len());
        }
        return Some((mapped_block_from_window(block, block_lines), false));
    }
    match full_window_matches(parent_text, block_lines, block.new_start) {
        WindowMatch::Unique { start, end } => Some((remap_block_for_window(block, start + 1, end), false)),
        WindowMatch::Multiple => Some((block, true)),
        WindowMatch::NoMatch => None,
    }
}

proof fn lemma_first_per_hash_distinct(v: Seq<RelatedCommitOutput>)
    ensures
        hashes_of(first_per_hash(v)).no_duplicates(),
        v.len() > 0 ==> first_per_hash(v).len() > 0,
    decreases v.len(),
{
    if v.len() > 0 {
        let prev = first_per_hash(v.drop_last());
        lemma_first_per_hash_distinct(v.drop_last());
        if !hashes_of(prev).contains(v.last().hash@) {
            let next = prev.push(v.last());
            assert(hashes_of(next) =~= hashes_of(prev).push(v.last().hash@));
            assert forall|a: int, b: int| 0 <= a < b < hashes_of(next).len() implies hashes_of(next)[a]
                != hashes_of(next)[b] by {
                if b == prev.len() {
                    assert(hashes_of(next)[a] == hashes_of(prev)[a]);
                }
            }
        } else {
            assert(hashes_of(prev).len() > 0);
        }
    }
}

/// Each of `v` is found in `first_per_hash(v)`'s place: every first report is one of `v`.
proof fn lemma_first_per_hash_within(v: Seq<RelatedCommitOutput>)
    ensures
        forall|k: int| 0 <= k < first_per_hash(v).len() ==> v.contains(#[trigger] first_per_hash(v)[k]),
    decreases v.len(),
{
    if v.len() > 0 {
        let prev = first_per_hash(v.drop_last());
        lemma_first_per_hash_within(v.drop_last());
        assert forall|k: int| 0 <= k < first_per_hash(v).len() implies v.contains(
            #[trigger] first_per_hash(v)[k],
        ) by {
            if k < prev.len() {
                assert(first_per_hash(v)[k] == prev[k]);
                let j = choose|j: int| 0 <= j < v.drop_last().len() && v.drop_last()[j] == prev[k];
                assert(v[j] == prev[k]);
            } else {
                assert(first_per_hash(v)[k] == v.last());
                assert(v[v.len() - 1] == v.last());
            }
        }
    }
}

/// `t` is a text that `read_text` may give back for `path` at `hash`.
pub open spec fn text_read<FT: Fn(&str, &str) -> Result<String, AppError>>(
    read_text: FT,
    hash: Seq<char>,
    path: Seq<char>,
    t: String,
) -> bool {
    exists|h: &str, p: &str| h@ == hash && p@ == path && #[trigger] read_text.ensures((h, p), Ok::<String, AppError>(t))
}

/// The text of `path` at the merge, as `read_text` gave it, holds the block's new lines where
/// the block says they stand.
pub open spec fn merge_text_holds<FT: Fn(&str, &str) -> Result<String, AppError>>(
    read_text: FT,
    commit: IndexedCommit,
    path: Seq<char>,
    block: DiffBlockOutput,
) -> bool {
    exists|t: String|
        #[trigger] text_read(read_text, commit.hash@, path, t) && block_new_lines_spec(block.rows@).len() > 0
            && line_window_spec(t@, block.new_start as int, block.new_end as int) == Some(
            block_new_lines_spec(block.rows@),
        )
}

/// Some text that `read_text` may give for `path` at the merge does not hold the block's new
/// lines where the block says they stand (or the block has no new line).
pub open spec fn merge_text_misses<FT: Fn(&str, &str) -> Result<String, AppError>>(
    read_text: FT,
    commit: IndexedCommit,
    path: Seq<char>,
    block: DiffBlockOutput,
) -> bool {
    exists|t: String|
        #[trigger] text_read(read_text, commit.hash@, path, t) && !(block_new_lines_spec(block.rows@).len() > 0
            && line_window_spec(t@, block.new_start as int, block.new_end as int) == Some(
            block_new_lines_spec(block.rows@),
        ))
}

/// A parent's text shows the block's new lines `lines`: where they stood, or in one or more
/// windows near there.
pub open spec fn window_found(text: Seq<char>, start: int, end: int, lines: Seq<Seq<char>>) -> bool {
    (lines.len() > 0 && line_window_spec(text, start, end) == Some(lines)) || !(full_window_spec(
        text,
        lines,
        start,
    ) is NoMatch)
}

/// Some parent of the merge (as `get_commit` gives it) shows the block's new lines in its
/// text (as `read_text` gives it) at one of its paths for the file (as `parent_paths` gives
/// them).
pub open spec fn parent_explains<FT, FC, FP>(
    read_text: FT,
    get_commit: FC,
    parent_paths: FP,
    commit: IndexedCommit,
    path: Seq<char>,
    block: DiffBlockOutput,
) -> bool where
    FT: Fn(&str, &str) -> Result<String, AppError>,
    FC: Fn(&str) -> Result<IndexedCommit, AppError>,
    FP: Fn(&str, &str, &str) -> Result<Vec<String>, AppError>,
 {
    exists|k: int, pc: IndexedCommit, paths: Vec<String>, q: int, t: String|
        #![trigger looked_up(get_commit, commit.parents@[k]@, pc), paths_read(parent_paths, pc.hash@, commit.hash@, path, paths), text_read(read_text, pc.hash@, paths@[q]@, t)]
        {
            &&& 0 <= k < commit.parents@.len()
            &&& looked_up(get_commit, commit.parents@[k]@, pc)
            &&& paths_read(parent_paths, pc.hash@, commit.hash@, path, paths)
            &&& 0 <= q < paths@.len()
            &&& text_read(read_text, pc.hash@, paths@[q]@, t)
            &&& window_found(t@, block.new_start as int, block.new_end as int, block_new_lines_spec(block.rows@))
        }
}

/// The `k`-th parent of the merge (as `get_commit` gives it) shows the block's new lines in its
/// text (as `read_text` gives it) at one of its paths for the file (as `parent_paths` gives
/// them).
pub open spec fn parent_explains_at<FT, FC, FP>(
    read_text: FT,
    get_commit: FC,
    parent_paths: FP,
    commit: IndexedCommit,
    path: Seq<char>,
    block: DiffBlockOutput,
    k: int,
) -> bool where
    FT: Fn(&str, &str) -> Result<String, AppError>,
    FC: Fn(&str) -> Result<IndexedCommit, AppError>,
    FP: Fn(&str, &str, &str) -> Result<Vec<String>, AppError>,
 {
    exists|pc: IndexedCommit, paths: Vec<String>, q: int, t: String|
        #![trigger looked_up(get_commit, commit.parents@[k]@, pc), paths_read(parent_paths, pc.hash@, commit.hash@, path, paths), text_read(read_text, pc.hash@, paths@[q]@, t)]
        {
            &&& looked_up(get_commit, commit.parents@[k]@, pc)
            &&& paths_read(parent_paths, pc.hash@, commit.hash@, path, paths)
            &&& 0 <= q < paths@.len()
            &&& text_read(read_text, pc.hash@, paths@[q]@, t)
            &&& window_found(t@, block.new_start as int, block.new_end as int, block_new_lines_spec(block.rows@))
        }
}

proof fn lemma_parent_explains_some<FT, FC, FP>(
    read_text: FT,
    get_commit: FC,
    parent_paths: FP,
    commit: IndexedCommit,
    path: Seq<char>,
    block: DiffBlockOutput,
) where
    FT: Fn(&str, &str) -> Result<String, AppError>,
    FC: Fn(&str) -> Result<IndexedCommit, AppError>,
    FP: Fn(&str, &str, &str) -> Result<Vec<String>, AppError>,

    requires
        parent_explains(read_text, get_commit, parent_paths, commit, path, block),
    ensures
        exists|k: int|
            0 <= k < commit.parents@.len() && #[trigger] parent_explains_at(
                read_text,
                get_commit,
                parent_paths,
                commit,
                path,
                block,
                k,
            ),
{
    let (k, pc, paths, q, t) = choose|k: int, pc: IndexedCommit, paths: Vec<String>, q: int, t: String|
        #![trigger looked_up(get_commit, commit.parents@[k]@, pc), paths_read(parent_paths, pc.hash@, commit.hash@, path, paths), text_read(read_text, pc.hash@, paths@[q]@, t)]
        {
            &&& 0 <= k < commit.parents@.len()
            &&& looked_up(get_commit, commit.parents@[k]@, pc)
            &&& paths_read(parent_paths, pc.hash@, commit.hash@, path, paths)
            &&& 0 <= q < paths@.len()
            &&& text_read(read_text, pc.hash@, paths@[q]@, t)
            &&& window_found(t@, block.new_start as int, block.new_end as int, block_new_lines_spec(block.rows@))
        };
    assert(parent_explains_at(read_text, get_commit, parent_paths, commit, path, block, k));
}

/// A parent's text shows the block's new lines `lines` not where they stood but in more than
/// one window near there, so it cannot tell where the block came from.
pub open spec fn window_ambiguous(text: Seq<char>, start: int, end: int, lines: Seq<Seq<char>>) -> bool {
    !(lines.len() > 0 && line_window_spec(text, start, end) == Some(lines)) && full_window_spec(
        text,
        lines,
        start,
    ) is Multiple
}

/// The `k`-th parent of the merge (as `get_commit` gives it) shows the block's new lines in
/// several windows of its text (as `read_text` gives it) at one of its paths for the file (as
/// `parent_paths` gives them).
pub open spec fn parent_ambiguous_at<FT, FC, FP>(
    read_text: FT,
    get_commit: FC,
    parent_paths: FP,
    commit: IndexedCommit,
    path: Seq<char>,
    block: DiffBlockOutput,
    k: int,
) -> bool where
    FT: Fn(&str, &str) -> Result<String, AppError>,
    FC: Fn(&str) -> Result<IndexedCommit, AppError>,
    FP: Fn(&str, &str, &str) -> Result<Vec<String>, AppError>,
 {
    exists|pc: IndexedCommit, paths: Vec<String>, q: int, t: String|
        #![trigger looked_up(get_commit, commit.parents@[k]@, pc), paths_read(parent_paths, pc.hash@, commit.hash@, path, paths), text_read(read_text, pc.hash@, paths@[q]@, t)]
        {
            &&& looked_up(get_commit, commit.parents@[k]@, pc)
            &&& paths_read(parent_paths, pc.hash@, commit.hash@, path, paths)
            &&& 0 <= q < paths@.len()
            &&& text_read(read_text, pc.hash@, paths@[q]@, t)
            &&& window_ambiguous(t@, block.new_start as int, block.new_end as int, block_new_lines_spec(block.rows@))
        }
}

/// Some parent of the merge shows the block's new lines in several windows.
pub open spec fn parent_window_ambiguous<FT, FC, FP>(
    read_text: FT,
    get_commit: FC,
    parent_paths: FP,
    commit: IndexedCommit,
    path: Seq<char>,
    block: DiffBlockOutput,
) -> bool where
    FT: Fn(&str, &str) -> Result<String, AppError>,
    FC: Fn(&str) -> Result<IndexedCommit, AppError>,
    FP: Fn(&str, &str, &str) -> Result<Vec<String>, AppError>,
 {
    exists|k: int|
        0 <= k < commit.parents@.len() && #[trigger] parent_ambiguous_at(
            read_text,
            get_commit,
            parent_paths,
            commit,
            path,
            block,
            k,
        )
}

/// Each read gives one answer for one question: the same text for a commit and path, the
/// same commit for a hash, and the same paths for a parent, merge and path.
pub open spec fn reads_functional<FT, FC, FP>(read_text: FT, get_commit: FC, parent_paths: FP) -> bool where
    FT: Fn(&str, &str) -> Result<String, AppError>,
    FC: Fn(&str) -> Result<IndexedCommit, AppError>,
    FP: Fn(&str, &str, &str) -> Result<Vec<String>, AppError>,
 {
    &&& forall|h: Seq<char>, p: Seq<char>, t1: String, t2: String|
        #[trigger] text_read(read_text, h, p, t1) && #[trigger] text_read(read_text, h, p, t2) ==> t1@ == t2@
    &&& forall|h: Seq<char>, c1: IndexedCommit, c2: IndexedCommit|
        #[trigger] looked_up(get_commit, h, c1) && #[trigger] looked_up(get_commit, h, c2) ==> c1 == c2
    &&& forall|h: Seq<char>, c: Seq<char>, p: Seq<char>, a: Vec<String>, b: Vec<String>|
        #[trigger] paths_read(parent_paths, h, c, p, a) && #[trigger] paths_read(parent_paths, h, c, p, b)
            ==> texts(a@) == texts(b@)
}

/// `e` is an error that one of the reads may give.
pub open spec fn trace_read_failed<FT, FC, FP>(read_text: FT, get_commit: FC, parent_paths: FP, e: AppError) -> bool where
    FT: Fn(&str, &str) -> Result<String, AppError>,
    FC: Fn(&str) -> Result<IndexedCommit, AppError>,
    FP: Fn(&str, &str, &str) -> Result<Vec<String>, AppError>,
 {
    ||| exists|h: &str, p: &str| #[trigger] read_text.ensures((h, p), Err::<String, AppError>(e))
    ||| exists|h: &str| #[trigger] get_commit.ensures((h,), Err::<IndexedCommit, AppError>(e))
    ||| exists|h: &str, c: &str, p: &str| #[trigger] parent_paths.ensures((h, c, p), Err::<Vec<String>, AppError>(e))
}

/// The error a trace gives when it would go more merges deep than it may.
pub open spec fn depth_exceeded(e: AppError) -> bool {
    e matches AppError::Analysis(m) && m@ == "合并追踪层数超出支持范围"@
}

/// A copy of rows that keeps each row's new line.
fn copy_rows(rows: &Vec<SideBySideDiffRowOutput>) -> (out: Vec<SideBySideDiffRowOutput>)
    ensures
        block_new_lines_spec(out@) == block_new_lines_spec(rows@),
{
    let mut out: Vec<SideBySideDiffRowOutput> = Vec::new();
    let mut i: usize = 0;
    while i < rows.len()
        invariant
            i <= rows@.len(),
            block_new_lines_spec(out@) == block_new_lines_spec(rows@.take(i as int)),
        decreases rows.len() - i,
    {
        let r = &rows[i];
        let copy = SideBySideDiffRowOutput {
            old_line_number: r.old_line_number,
            new_line_number: r.new_line_number,
            old_text: r.old_text.clone(),
            new_text: match &r.new_text {
                Some(t) => Some(t.clone()),
                None => None,
            },
            row_type: r.row_type.clone(),
            word_changes: r.word_changes.clone(),
            block_id: r.block_id.clone(),
        };
        let ghost before = out@;
        out.push(copy);
        assert(out@.drop_last() =~= before);
        assert(rows@.take(i + 1).drop_last() =~= rows@.take(i as int));
        assert(rows@.take(i + 1).last() == rows@[i as int]);
        i += 1;
    }
    assert(rows@.take(rows.len() as int) =~= rows@);
    out
}

/// A copy of a block's fields.
fn copy_block(b: &DiffBlockOutput) -> (c: DiffBlockOutput)
    ensures
        c.old_start == b.old_start,
        c.old_end == b.old_end,
        c.new_start == b.new_start,
        c.new_end == b.new_end,
        block_new_lines_spec(c.rows@) == block_new_lines_spec(b.rows@),
{
    DiffBlockOutput {
        id: b.id.clone(),
        old_start: b.old_start,
        old_end: b.old_end,
        new_start: b.new_start,
        new_end: b.new_end,
        row_start_index: b.row_start_index,
        row_end_index: b.row_end_index,
        change_type: b.change_type.clone(),
        authors: b.authors.clone(),
        rows: copy_rows(&b.rows),
        related_commits: b.related_commits.clone(),
        attribution: b.attribution.clone(),
    }
}

/// `rc` reports, as merge trace does, either `commit` itself or a commit that `get_commit`
/// gave back for some hash.
pub open spec fn traced_source<FC: Fn(&str) -> Result<IndexedCommit, AppError>>(
    get_commit: FC,
    commit: IndexedCommit,
    filter: FilterMatcher,
    previous: Seq<RelatedCommitOutput>,
    rc: RelatedCommitOutput,
) -> bool {
    exists|c: IndexedCommit, via: Seq<Seq<char>>|
        #[trigger] merge_traced_commit(rc, c, via, filter, previous) && (c == commit || exists|h: Seq<char>|
            #[trigger] looked_up(get_commit, h, c))
}

proof fn lemma_traced_through_parent<FC: Fn(&str) -> Result<IndexedCommit, AppError>>(
    get_commit: FC,
    parent: IndexedCommit,
    h: Seq<char>,
    commit: IndexedCommit,
    filter: FilterMatcher,
    previous: Seq<RelatedCommitOutput>,
    rc: RelatedCommitOutput,
)
    requires
        looked_up(get_commit, h, parent),
        traced_source(get_commit, parent, filter, previous, rc),
    ensures
        traced_source(get_commit, commit, filter, previous, rc),
{
    let (c, via) = choose|c: IndexedCommit, via: Seq<Seq<char>>|
        #[trigger] merge_traced_commit(rc, c, via, filter, previous) && (c == parent || exists|h: Seq<char>|
            #[trigger] looked_up(get_commit, h, c));
    assert(merge_traced_commit(rc, c, via, filter, previous));
    if c == parent {
        assert(looked_up(get_commit, h, c));
    }
}

/// A visited block as plain values: the commit's hash, the path and the block's signature.
pub open spec fn visit_view(v: (String, String, String)) -> (Seq<char>, Seq<char>, Seq<char>) {
    (v.0@, v.1@, v.2@)
}

/// The visited blocks as plain values.
pub open spec fn visited_view(v: Seq<(String, String, String)>) -> Seq<(Seq<char>, Seq<char>, Seq<char>)> {
    v.map_values(|e: (String, String, String)| visit_view(e))
}

/// The merges a trace names after reaching merge `hash`: `via` with `hash` added unless it
/// is there already.
pub open spec fn via_with(via: Seq<Seq<char>>, hash: Seq<char>) -> Seq<Seq<char>> {
    if via.contains(hash) {
        via
    } else {
        via.push(hash)
    }
}

fn visited_contains(visited: &Vec<(String, String, String)>, hash: &str, path: &str, signature: &str) -> (r:
    bool)
    ensures
        r == visited_view(visited@).contains((hash@, path@, signature@)),
{
    let mut i: usize = 0;
    while i < visited.len()
        invariant
            i <= visited@.len(),
            forall|k: int| 0 <= k < i ==> visit_view(#[trigger] visited@[k]) != (hash@, path@, signature@),
        decreases visited.len() - i,
    {
        let e = &visited[i];
        if str_eq(e.0.as_str(), hash) && str_eq(e.1.as_str(), path) && str_eq(e.2.as_str(), signature) {
            assert(visited_view(visited@)[i as int] == (hash@, path@, signature@));
            return true;
        }
        i += 1;
    }
    assert(!visited_view(visited@).contains((hash@, path@, signature@))) by {
        if visited_view(visited@).contains((hash@, path@, signature@)) {
            let k = choose|k: int|
                0 <= k < visited_view(visited@).len() && visited_view(visited@)[k] == (
                    hash@,
                    path@,
                    signature@,
                );
            assert(visit_view(visited@[k]) == (hash@, path@, signature@));
        }
    }
    false
}

fn copy_texts(v: &Vec<String>) -> (out: Vec<String>)
    ensures
        texts(out@) == texts(v@),
{
    let mut out: Vec<String> = Vec::new();
    let mut i: usize = 0;
    while i < v.len()
        invariant
            i <= v@.len(),
            texts(out@) == texts(v@).take(i as int),
        decreases v.len() - i,
    {
        let ghost before = out@;
        let t = v[i].clone();
        out.push(t);
        assert(texts(out@) =~= texts(before).push(t@));
        assert(texts(v@).take(i + 1) =~= texts(v@).take(i as int).push(v@[i as int]@));
        i += 1;
    }
    assert(texts(v@).take(v.len() as int) =~= texts(v@));
    out
}

proof fn lemma_visited_grows(
    a: Seq<(String, String, String)>,
    b: Seq<(String, String, String)>,
    c: Seq<(String, String, String)>,
    key: (Seq<char>, Seq<char>, Seq<char>),
)
    requires
        a.len() <= b.len() <= c.len(),
        b.subrange(0, a.len() as int) == a,
        c.subrange(0, b.len() as int) == b,
        visited_view(b).contains(key),
    ensures
        c.subrange(0, a.len() as int) == a,
        visited_view(c).contains(key),
{
    assert(c.subrange(0, a.len() as int) =~= b.subrange(0, a.len() as int)) by {
        assert forall|i: int| 0 <= i < a.len() implies c.subrange(0, a.len() as int)[i] == b.subrange(
            0,
            a.len() as int,
        )[i] by {
            assert(c.subrange(0, b.len() as int)[i] == c[i]);
        }
    }
    let k = choose|k: int| 0 <= k < visited_view(b).len() && visited_view(b)[k] == key;
    assert(c.subrange(0, b.len() as int)[k] == c[k]);
    assert(visited_view(c)[k] == key);
}

/// What tracing reads of a block: its old and new line ranges and its new lines.
pub type TraceBlock = (usize, usize, usize, usize, Seq<Seq<char>>);

/// A block as tracing reads it.
pub open spec fn trace_block(b: DiffBlockOutput) -> TraceBlock {
    (b.old_start, b.old_end, b.new_start, b.new_end, block_new_lines_spec(b.rows@))
}

/// The signature of a traced block at a path.
pub open spec fn trace_signature(path: Seq<char>, b: TraceBlock) -> Seq<char> {
    path + "|"@ + dec(b.0) + "|"@ + dec(b.1) + "|"@ + dec(b.2) + "|"@ + dec(b.3) + "|"@ + join_nul(b.4)
}

/// What a parent's text says of a traced block, as `parent_candidate_spec` does: the block in
/// place, moved to its one nearby window, or unmoved and ambiguous; nothing when no window
/// holds it.
pub open spec fn trace_candidate(text: Seq<char>, b: TraceBlock) -> Option<(TraceBlock, bool)> {
    let lines = b.4;
    if lines.len() > 0 && line_window_spec(text, b.2 as int, b.3 as int) == Some(lines) {
        if b.2 == 0 {
            Some((b, false))
        } else {
            Some(
                (
                    (
                        b.0,
                        b.1,
                        b.2,
                        if lines.len() == 0 {
                            b.2
                        } else {
                            (b.2 + lines.len() - 1) as usize
                        },
                        lines,
                    ),
                    false,
                ),
            )
        }
    } else {
        match full_window_spec(text, lines, b.2 as int) {
            WindowMatch::Unique { start, end } => Some(((b.0, b.1, (start + 1) as usize, end, lines), false)),
            WindowMatch::Multiple => Some((b, true)),
            WindowMatch::NoMatch => None,
        }
    }
}

/// `read_text` can give a text for `path` at `hash`.
pub open spec fn text_ok<FT: Fn(&str, &str) -> Result<String, AppError>>(read_text: FT, hash: Seq<char>, path: Seq<char>) -> bool {
    exists|t: String| #[trigger] text_read(read_text, hash, path, t)
}

/// A text that `read_text` can give for `path` at `hash`.
pub open spec fn text_of<FT: Fn(&str, &str) -> Result<String, AppError>>(read_text: FT, hash: Seq<char>, path: Seq<char>) -> Seq<char> {
    (choose|t: String| #[trigger] text_read(read_text, hash, path, t))@
}

/// `get_commit` can give a commit for `hash`.
pub open spec fn commit_ok<FC: Fn(&str) -> Result<IndexedCommit, AppError>>(get_commit: FC, hash: Seq<char>) -> bool {
    exists|c: IndexedCommit| #[trigger] looked_up(get_commit, hash, c)
}

/// A commit that `get_commit` can give for `hash`.
pub open spec fn commit_of<FC: Fn(&str) -> Result<IndexedCommit, AppError>>(get_commit: FC, hash: Seq<char>) -> IndexedCommit {
    choose|c: IndexedCommit| #[trigger] looked_up(get_commit, hash, c)
}

/// `parent_paths` can give paths for `path` at `parent` under `merge`.
pub open spec fn paths_ok<FP: Fn(&str, &str, &str) -> Result<Vec<String>, AppError>>(
    parent_paths: FP,
    parent: Seq<char>,
    merge: Seq<char>,
    path: Seq<char>,
) -> bool {
    exists|v: Vec<String>| #[trigger] paths_read(parent_paths, parent, merge, path, v)
}

/// Paths that `parent_paths` can give for `path` at `parent` under `merge`.
pub open spec fn paths_of<FP: Fn(&str, &str, &str) -> Result<Vec<String>, AppError>>(
    parent_paths: FP,
    parent: Seq<char>,
    merge: Seq<char>,
    path: Seq<char>,
) -> Seq<Seq<char>> {
    texts((choose|v: Vec<String>| #[trigger] paths_read(parent_paths, parent, merge, path, v))@)
}

/// `read_text` can give a text at `hash` for each of `paths`.
pub open spec fn texts_ok<FT: Fn(&str, &str) -> Result<String, AppError>>(read_text: FT, hash: Seq<char>, paths: Seq<Seq<char>>) -> bool {
    forall|q: int| 0 <= q < paths.len() ==> #[trigger] text_ok(read_text, hash, paths[q])
}

/// The candidates a parent (at `hash`) offers for a traced block: for each of its paths in
/// order whose text holds the block, the path, the block as that text holds it, and whether the
/// match was ambiguous.
pub open spec fn trace_candidates<FT: Fn(&str, &str) -> Result<String, AppError>>(
    read_text: FT,
    hash: Seq<char>,
    paths: Seq<Seq<char>>,
    b: TraceBlock,
) -> Seq<(Seq<char>, TraceBlock, bool)>
    decreases paths.len(),
{
    if paths.len() == 0 {
        Seq::empty()
    } else {
        let prev = trace_candidates(read_text, hash, paths.drop_last(), b);
        match trace_candidate(text_of(read_text, hash, paths.last()), b) {
            Some((nb, amb)) => prev.push((paths.last(), nb, amb)),
            None => prev,
        }
    }
}

/// The state of a trace through a merge's parents: the blocks visited, the hashes of the sources
/// found so far, whether the trace is ambiguous, whether some parent offered a candidate, and
/// whether the merge is to be replaced.
pub type TraceState = (Set<(Seq<char>, Seq<char>, Seq<char>)>, Seq<Seq<char>>, bool, bool, bool);

/// An outcome as plain values: the hashes of its sources, whether it is ambiguous, and whether
/// it replaced the merge.
pub type TraceOutcome = (Seq<Seq<char>>, bool, bool);

/// The trace of a block of `path` at `commit`, as `MergeTraceState::resolve` makes it when every
/// read succeeds and gives the one answer it can give: whether it succeeds, its outcome, and
/// the blocks visited after it. A block visited before gives nothing; a commit that is no merge
/// is its own source; a merge whose text does not hold the block gives nothing; else its parents
/// are tried in order (`trace_parents`).
pub open spec fn trace_spec<FT, FC, FP>(
    read_text: FT,
    get_commit: FC,
    parent_paths: FP,
    visited: Set<(Seq<char>, Seq<char>, Seq<char>)>,
    commit: IndexedCommit,
    path: Seq<char>,
    b: TraceBlock,
    allow_direct_merge: bool,
    depth: nat,
) -> (bool, Option<TraceOutcome>, Set<(Seq<char>, Seq<char>, Seq<char>)>) where
    FT: Fn(&str, &str) -> Result<String, AppError>,
    FC: Fn(&str) -> Result<IndexedCommit, AppError>,
    FP: Fn(&str, &str, &str) -> Result<Vec<String>, AppError>,

    decreases depth, 3nat, 0nat,
{
    let key = (commit.hash@, path, trace_signature(path, b));
    if visited.contains(key) {
        (true, None, visited)
    } else if !commit.is_merge {
        (true, Some((seq![commit.hash@], false, false)), visited.insert(key))
    } else if !text_ok(read_text, commit.hash@, path) {
        (false, None, visited.insert(key))
    } else if !(b.4.len() > 0 && line_window_spec(text_of(read_text, commit.hash@, path), b.2 as int, b.3 as int)
        == Some(b.4)) {
        (true, None, visited.insert(key))
    } else {
        trace_parents(
            read_text,
            get_commit,
            parent_paths,
            commit,
            path,
            b,
            allow_direct_merge,
            depth,
            0,
            (visited.insert(key), Seq::empty(), false, false, false),
        )
    }
}

/// The trace of a merge from its `k`-th parent on, from state `st`: each parent's candidates
/// are traced in turn (`trace_offers`); once all parents are tried, a trace with a candidate
/// gives its sources, each once, replacing the merge (nothing when there are none, ambiguous
/// when there are several), and one without gives the merge itself.
pub open spec fn trace_parents<FT, FC, FP>(
    read_text: FT,
    get_commit: FC,
    parent_paths: FP,
    commit: IndexedCommit,
    path: Seq<char>,
    b: TraceBlock,
    allow_direct_merge: bool,
    depth: nat,
    k: int,
    st: TraceState,
) -> (bool, Option<TraceOutcome>, Set<(Seq<char>, Seq<char>, Seq<char>)>) where
    FT: Fn(&str, &str) -> Result<String, AppError>,
    FC: Fn(&str) -> Result<IndexedCommit, AppError>,
    FP: Fn(&str, &str, &str) -> Result<Vec<String>, AppError>,

    decreases depth, 2nat, commit.parents@.len() - k,
{
    if k < 0 || k >= commit.parents@.len() {
        if st.3 {
            if st.1.len() == 0 {
                (true, None, st.0)
            } else {
                let d = distinct_texts(st.1);
                (true, Some((d, st.2 || d.len() > 1, true)), st.0)
            }
        } else {
            (true, Some((seq![commit.hash@], st.2, !allow_direct_merge && st.4)), st.0)
        }
    } else if !commit_ok(get_commit, commit.parents@[k]@) {
        (false, None, st.0)
    } else {
        let pc = commit_of(get_commit, commit.parents@[k]@);
        if !paths_ok(parent_paths, pc.hash@, commit.hash@, path) {
            (false, None, st.0)
        } else {
            let ps = paths_of(parent_paths, pc.hash@, commit.hash@, path);
            if !texts_ok(read_text, pc.hash@, ps) {
                (false, None, st.0)
            } else {
                let cands = trace_candidates(read_text, pc.hash@, ps, b);
                let r = trace_offers(
                    read_text,
                    get_commit,
                    parent_paths,
                    pc,
                    cands,
                    depth,
                    0,
                    (st.0, st.1, st.2, st.3 || cands.len() > 0, st.4),
                );
                if !r.0 {
                    (false, None, r.1.0)
                } else {
                    trace_parents(
                        read_text,
                        get_commit,
                        parent_paths,
                        commit,
                        path,
                        b,
                        allow_direct_merge,
                        depth,
                        k + 1,
                        r.1,
                    )
                }
            }
        }
    }
}

/// The candidates of parent `pc` from the `j`-th on, traced in turn from state `st`: an
/// ambiguous one marks the trace ambiguous; any other is traced one merge deeper (failing when
/// no depth is left), and the sources it gives are added, the merge to be replaced when they
/// replaced a merge or the parent is no merge.
pub open spec fn trace_offers<FT, FC, FP>(
    read_text: FT,
    get_commit: FC,
    parent_paths: FP,
    pc: IndexedCommit,
    cands: Seq<(Seq<char>, TraceBlock, bool)>,
    depth: nat,
    j: int,
    st: TraceState,
) -> (bool, TraceState) where
    FT: Fn(&str, &str) -> Result<String, AppError>,
    FC: Fn(&str) -> Result<IndexedCommit, AppError>,
    FP: Fn(&str, &str, &str) -> Result<Vec<String>, AppError>,

    decreases depth, 1nat, cands.len() - j,
{
    if j < 0 || j >= cands.len() {
        (true, st)
    } else if cands[j].2 {
        trace_offers(read_text, get_commit, parent_paths, pc, cands, depth, j + 1, (st.0, st.1, true, st.3, st.4))
    } else if depth == 0 {
        (false, st)
    } else {
        let sub = trace_spec(
            read_text,
            get_commit,
            parent_paths,
            st.0,
            pc,
            cands[j].0,
            cands[j].1,
            true,
            (depth - 1) as nat,
        );
        if !sub.0 {
            (false, (sub.2, st.1, st.2, st.3, st.4))
        } else {
            match sub.1 {
                Some(o) => trace_offers(
                    read_text,
                    get_commit,
                    parent_paths,
                    pc,
                    cands,
                    depth,
                    j + 1,
                    (sub.2, st.1 + o.0, st.2 || o.1, st.3, st.4 || o.2 || !pc.is_merge),
                ),
                None => trace_offers(
                    read_text,
                    get_commit,
                    parent_paths,
                    pc,
                    cands,
                    depth,
                    j + 1,
                    (sub.2, st.1, st.2, st.3, st.4),
                ),
            }
        }
    }
}

/// An outcome as plain values.
pub open spec fn outcome_view(r: Option<MergeTraceOutcome>) -> Option<TraceOutcome> {
    match r {
        Some(o) => Some((hashes_of(o.related_commits@), o.ambiguous, o.replaced_merge_commit)),
        None => None,
    }
}

/// The state of a trace in progress as plain values.
pub open spec fn trace_state(
    visited: Seq<(String, String, String)>,
    related: Seq<RelatedCommitOutput>,
    ambiguous: bool,
    has_candidate: bool,
    replaced: bool,
) -> TraceState {
    (visited_set(visited), hashes_of(related), ambiguous, has_candidate, replaced)
}

/// The visited blocks as a set.
pub open spec fn visited_set(v: Seq<(String, String, String)>) -> Set<(Seq<char>, Seq<char>, Seq<char>)> {
    visited_view(v).to_set()
}

/// The candidates a trace has found, as plain values.
pub open spec fn candidates_view(c: Seq<(String, DiffBlockOutput, bool)>) -> Seq<(Seq<char>, TraceBlock, bool)> {
    c.map_values(|x: (String, DiffBlockOutput, bool)| (x.0@, trace_block(x.1), x.2))
}

proof fn lemma_candidate_view(text: Seq<char>, b: DiffBlockOutput, c: DiffBlockOutput)
    requires
        c.old_start == b.old_start,
        c.old_end == b.old_end,
        c.new_start == b.new_start,
        c.new_end == b.new_end,
        block_new_lines_spec(c.rows@) == block_new_lines_spec(b.rows@),
    ensures
        match parent_candidate_spec(text, c, block_new_lines_spec(b.rows@)) {
            Some((nb, amb)) => trace_candidate(text, trace_block(b)) == Some((trace_block(nb), amb)),
            None => trace_candidate(text, trace_block(b)) is None,
        },
{
}

proof fn lemma_hashes_first_per_hash(v: Seq<RelatedCommitOutput>)
    ensures
        hashes_of(first_per_hash(v)) == distinct_texts(hashes_of(v)),
    decreases v.len(),
{
    if v.len() > 0 {
        lemma_hashes_first_per_hash(v.drop_last());
        assert(hashes_of(v).drop_last() =~= hashes_of(v.drop_last()));
        assert(hashes_of(v).last() == v.last().hash@);
        let prev = first_per_hash(v.drop_last());
        assert(hashes_of(prev.push(v.last())) =~= hashes_of(prev).push(v.last().hash@));
    } else {
        assert(hashes_of(v) =~= Seq::<Seq<char>>::empty());
    }
}

proof fn lemma_hashes_append(a: Seq<RelatedCommitOutput>, b: Seq<RelatedCommitOutput>)
    ensures
        hashes_of(a + b) == hashes_of(a) + hashes_of(b),
{
    assert(hashes_of(a + b) =~= hashes_of(a) + hashes_of(b));
}

proof fn lemma_visited_push(v: Seq<(String, String, String)>, e: (String, String, String))
    ensures
        visited_set(v.push(e)) == visited_set(v).insert(visit_view(e)),
{
    assert(visited_view(v.push(e)) =~= visited_view(v).push(visit_view(e)));
    assert forall|x: (Seq<char>, Seq<char>, Seq<char>)|
        visited_set(v.push(e)).contains(x) <==> visited_set(v).insert(visit_view(e)).contains(x) by {
        let s = visited_view(v);
        if s.push(visit_view(e)).contains(x) && x != visit_view(e) {
            let i = choose|i: int| 0 <= i < s.push(visit_view(e)).len() && s.push(visit_view(e))[i] == x;
            assert(s[i] == x);
        }
        if s.contains(x) {
            let i = choose|i: int| 0 <= i < s.len() && s[i] == x;
            assert(s.push(visit_view(e))[i] == x);
        }
        if x == visit_view(e) {
            assert(s.push(visit_view(e))[s.len() as int] == x);
        }
    }
    assert(visited_set(v.push(e)) =~= visited_set(v).insert(visit_view(e)));
}

proof fn lemma_picks<FT, FC, FP>(read_text: FT, get_commit: FC, parent_paths: FP)
    where
        FT: Fn(&str, &str) -> Result<String, AppError>,
        FC: Fn(&str) -> Result<IndexedCommit, AppError>,
        FP: Fn(&str, &str, &str) -> Result<Vec<String>, AppError>,

    requires
        reads_functional(read_text, get_commit, parent_paths),
    ensures
        forall|h: Seq<char>, p: Seq<char>, t: String|
            #[trigger] text_read(read_text, h, p, t) ==> text_ok(read_text, h, p) && text_of(read_text, h, p) == t@,
        forall|h: Seq<char>, c: IndexedCommit|
            #[trigger] looked_up(get_commit, h, c) ==> commit_ok(get_commit, h) && commit_of(get_commit, h) == c,
        forall|h: Seq<char>, m: Seq<char>, p: Seq<char>, v: Vec<String>|
            #[trigger] paths_read(parent_paths, h, m, p, v) ==> paths_ok(parent_paths, h, m, p) && paths_of(
                parent_paths,
                h,
                m,
                p,
            ) == texts(v@),
{
    assert forall|h: Seq<char>, p: Seq<char>, t: String| #[trigger] text_read(read_text, h, p, t) implies text_ok(
        read_text,
        h,
        p,
    ) && text_of(read_text, h, p) == t@ by {
        let t0 = choose|t0: String| #[trigger] text_read(read_text, h, p, t0);
        assert(text_read(read_text, h, p, t0));
    }
    assert forall|h: Seq<char>, c: IndexedCommit| #[trigger] looked_up(get_commit, h, c) implies commit_ok(
        get_commit,
        h,
    ) && commit_of(get_commit, h) == c by {
        let c0 = choose|c0: IndexedCommit| #[trigger] looked_up(get_commit, h, c0);
        assert(looked_up(get_commit, h, c0));
    }
    assert forall|h: Seq<char>, m: Seq<char>, p: Seq<char>, v: Vec<String>|
        #[trigger] paths_read(parent_paths, h, m, p, v) implies paths_ok(parent_paths, h, m, p) && paths_of(
        parent_paths,
        h,
        m,
        p,
    ) == texts(v@) by {
        let v0 = choose|v0: Vec<String>| #[trigger] paths_read(parent_paths, h, m, p, v0);
        assert(paths_read(parent_paths, h, m, p, v0));
    }
}

/// Traces a block of a merge back to the commits that wrote it, remembering the blocks it has
/// visited so that none is traced twice.
pub struct MergeTraceState {
    pub visited: Vec<(String, String, String)>,
}

impl MergeTraceState {
    /// A trace that has visited nothing.
    pub fn new() -> (s: Self)
        ensures
            s.visited@.len() == 0,
    {
        MergeTraceState { visited: Vec::new() }
    }

    /// Traces `block` of `file_path` at `commit`. A block visited before gives nothing. A
    /// commit that is no merge is the source itself. For a merge whose text holds the block,
    /// each parent is asked, through `read_text`, `get_commit` and `parent_paths`, where it
    /// holds the block; the sources found through the parents replace the merge, else the
    /// merge is the source. An outcome with several sources is ambiguous, and so is one for a
    /// merge whose parent shows the block in several windows. `depth` bounds how many merges deep
    /// the trace may go; going deeper fails with an analysis error; any other failure is one a
    /// read gave. When the merge holds the block, a parent that shows it means the merge is
    /// replaced by what the parents yield (or nothing); no such parent means the merge is its own,
    /// unambiguous source. When each read gives the one answer it can, a successful trace is
    /// exactly `trace_spec`: the sources it names, their order, its flags and the blocks it visits.
    pub fn resolve<FT, FC, FP>(
        &mut self,
        read_text: FT,
        get_commit: FC,
        parent_paths: FP,
        commit: &IndexedCommit,
        file_path: &str,
        block: &DiffBlockOutput,
        filter: &FilterMatcher,
        previous_related_commits: &[RelatedCommitOutput],
        via_merge_hashes: Vec<String>,
        allow_direct_merge: bool,
        depth: usize,
    ) -> (r: Result<Option<MergeTraceOutcome>, AppError>)
        where
            FT: Fn(&str, &str) -> Result<String, AppError> + Copy,
            FC: Fn(&str) -> Result<IndexedCommit, AppError> + Copy,
            FP: Fn(&str, &str, &str) -> Result<Vec<String>, AppError> + Copy,
        requires
            forall|h: &str, p: &str| #[trigger] read_text.requires((h, p)),
            forall|h: &str| #[trigger] get_commit.requires((h,)),
            forall|h: &str, c: &str, p: &str| #[trigger] parent_paths.requires((h, c, p)),
        ensures
            old(self).visited@.len() <= final(self).visited@.len(),
            final(self).visited@.subrange(0, old(self).visited@.len() as int) == old(self).visited@,
            visited_view(final(self).visited@).contains(
                (commit.hash@, file_path@, block_signature_spec(file_path@, *block)),
            ),
            visited_view(old(self).visited@).contains(
                (commit.hash@, file_path@, block_signature_spec(file_path@, *block)),
            ) ==> r == Ok::<Option<MergeTraceOutcome>, AppError>(None),
            !visited_view(old(self).visited@).contains(
                (commit.hash@, file_path@, block_signature_spec(file_path@, *block)),
            ) && !commit.is_merge ==> (r matches Ok(Some(o)) && o.related_commits@.len() == 1
                && merge_traced_commit(
                o.related_commits@[0],
                *commit,
                texts(via_merge_hashes@),
                *filter,
                previous_related_commits@,
            ) && !o.ambiguous && !o.replaced_merge_commit),
            r matches Ok(Some(o)) ==> o.related_commits@.len() > 0,
            r matches Ok(Some(o)) ==> (o.replaced_merge_commit ==> hashes_of(
                o.related_commits@,
            ).no_duplicates()),
            r matches Ok(Some(o)) ==> (commit.is_merge && !o.replaced_merge_commit ==> (
            o.related_commits@.len() == 1 && merge_traced_commit(
                o.related_commits@[0],
                *commit,
                via_with(texts(via_merge_hashes@), commit.hash@),
                *filter,
                previous_related_commits@,
            ))),
            r matches Ok(Some(o)) ==> (commit.is_merge ==> merge_text_holds(read_text, *commit, file_path@, *block)),
            !visited_view(old(self).visited@).contains(
                (commit.hash@, file_path@, block_signature_spec(file_path@, *block)),
            ) && commit.is_merge && r == Ok::<Option<MergeTraceOutcome>, AppError>(None) ==> merge_text_misses(
                read_text,
                *commit,
                file_path@,
                *block,
            ) || parent_explains(read_text, get_commit, parent_paths, *commit, file_path@, *block),
            r matches Ok(Some(o)) ==> forall|k: int|
                0 <= k < o.related_commits@.len() ==> traced_source(
                    get_commit,
                    *commit,
                    *filter,
                    previous_related_commits@,
                    #[trigger] o.related_commits@[k],
                ),
            r matches Ok(Some(o)) ==> (o.related_commits@.len() > 1 ==> o.ambiguous),
            r matches Ok(Some(o)) ==> (commit.is_merge && reads_functional(read_text, get_commit, parent_paths)
                && parent_window_ambiguous(read_text, get_commit, parent_paths, *commit, file_path@, *block)
                ==> o.ambiguous),
            r matches Err(e) ==> trace_read_failed(read_text, get_commit, parent_paths, e) || (depth_exceeded(e)
                && commit.is_merge && merge_text_holds(read_text, *commit, file_path@, *block) && parent_explains(
                read_text,
                get_commit,
                parent_paths,
                *commit,
                file_path@,
                *block,
            )),
            !visited_view(old(self).visited@).contains(
                (commit.hash@, file_path@, block_signature_spec(file_path@, *block)),
            ) && commit.is_merge && reads_functional(read_text, get_commit, parent_paths) && merge_text_holds(
                read_text,
                *commit,
                file_path@,
                *block,
            ) && parent_explains(read_text, get_commit, parent_paths, *commit, file_path@, *block) ==> (r is Err
                || r == Ok::<Option<MergeTraceOutcome>, AppError>(None) || (r matches Ok(Some(o))
                && o.replaced_merge_commit)),
            !visited_view(old(self).visited@).contains(
                (commit.hash@, file_path@, block_signature_spec(file_path@, *block)),
            ) && commit.is_merge && reads_functional(read_text, get_commit, parent_paths) && merge_text_holds(
                read_text,
                *commit,
                file_path@,
                *block,
            ) && !parent_explains(read_text, get_commit, parent_paths, *commit, file_path@, *block) ==> (r is Err
                || (r matches Ok(Some(o)) && !o.replaced_merge_commit && !o.ambiguous
                && o.related_commits@.len() == 1)),
            reads_functional(read_text, get_commit, parent_paths) ==> (r matches Ok(x) ==> trace_spec(
                read_text,
                get_commit,
                parent_paths,
                visited_set(old(self).visited@),
                *commit,
                file_path@,
                trace_block(*block),
                allow_direct_merge,
                depth as nat,
            ) == (true, outcome_view(x), visited_set(final(self).visited@))),
        decreases depth,
    {
        let ghost key = (commit.hash@, file_path@, block_signature_spec(file_path@, *block));
        let ghost entry_visited = self.visited@;
        let ghost via_in = texts(via_merge_hashes@);
        let via = extend_via(via_merge_hashes, commit);
        let signature = build_block_signature(file_path, block);
        if visited_contains(&self.visited, commit.hash.as_str(), file_path, signature.as_str()) {
            return Ok(None);
        }
        let entry = (commit.hash.clone(), String::from_str(file_path), signature);
        self.visited.push(entry);
        let ghost start_visited = self.visited@;
        proof {
            assert(visited_view(start_visited) =~= visited_view(entry_visited).push(key));
            assert(start_visited.subrange(0, entry_visited.len() as int) =~= entry_visited);
            assert(visited_view(start_visited)[entry_visited.len() as int] == key);
            assert(self.visited@.subrange(0, start_visited.len() as int) =~= start_visited);
            lemma_visited_push(entry_visited, entry);
            assert(visited_set(start_visited) == visited_set(entry_visited).insert(key));
            assert(block_signature_spec(file_path@, *block) == trace_signature(file_path@, trace_block(*block)));
            if reads_functional(read_text, get_commit, parent_paths) {
                lemma_picks(read_text, get_commit, parent_paths);
            }
        }
        if !commit.is_merge {
            let mut related: Vec<RelatedCommitOutput> = Vec::new();
            let rc = related_commit_for_merge_trace(commit, via.as_slice(), filter, previous_related_commits);
            proof {
                assert(merge_traced_commit(rc, *commit, texts(via@), *filter, previous_related_commits@));
                assert(traced_source(get_commit, *commit, *filter, previous_related_commits@, rc));
            }
            related.push(rc);
            proof {
                lemma_visited_grows(entry_visited, start_visited, self.visited@, key);
                assert(related@[0] == rc);
                assert(hashes_of(related@) =~= seq![commit.hash@]);
            }
            return Ok(Some(MergeTraceOutcome { related_commits: related, ambiguous: false, replaced_merge_commit: false }));
        }
        let block_lines = block_new_lines(block);
        let ch = commit.hash.as_str();
        let commit_text = match read_text(ch, file_path) {
            Ok(t) => t,
            Err(e) => {
                proof {
                    lemma_visited_grows(entry_visited, start_visited, self.visited@, key);
                    assert(read_text.ensures((ch, file_path), Err::<String, AppError>(e)));
                }
                return Err(e);
            },
        };
        if !text_window_matches(commit_text.as_str(), block, block_lines.as_slice()) {
            proof {
                lemma_visited_grows(entry_visited, start_visited, self.visited@, key);
                assert(text_read(read_text, commit.hash@, file_path@, commit_text));
                assert(merge_text_misses(read_text, *commit, file_path@, *block));
                if reads_functional(read_text, get_commit, parent_paths) && merge_text_holds(
                    read_text,
                    *commit,
                    file_path@,
                    *block,
                ) {
                    let t = choose|t: String|
                        #[trigger] text_read(read_text, commit.hash@, file_path@, t) && block_new_lines_spec(block.rows@).len()
                            > 0 && line_window_spec(t@, block.new_start as int, block.new_end as int) == Some(
                            block_new_lines_spec(block.rows@),
                        );
                    assert(t@ == commit_text@);
                    assert(false);
                }
            }
            return Ok(None);
        }
        proof {
            assert(text_read(read_text, commit.hash@, file_path@, commit_text));
            assert(merge_text_holds(read_text, *commit, file_path@, *block));
        }
        let ghost tb = trace_block(*block);
        let ghost init: TraceState = (visited_set(start_visited), Seq::empty(), false, false, false);
        proof {
            assert(hashes_of(Seq::<RelatedCommitOutput>::empty()) =~= Seq::<Seq<char>>::empty());
        }
        let mut related: Vec<RelatedCommitOutput> = Vec::new();
        let mut ambiguous = false;
        let mut has_parent_candidate = false;
        let mut replaced = false;
        let mut pi: usize = 0;
        proof {
            if reads_functional(read_text, get_commit, parent_paths) {
                assert(text_ok(read_text, commit.hash@, file_path@) && text_of(read_text, commit.hash@, file_path@)
                    == commit_text@);
                assert(trace_spec(
                    read_text,
                    get_commit,
                    parent_paths,
                    visited_set(entry_visited),
                    *commit,
                    file_path@,
                    tb,
                    allow_direct_merge,
                    depth as nat,
                ) == trace_parents(
                    read_text,
                    get_commit,
                    parent_paths,
                    *commit,
                    file_path@,
                    tb,
                    allow_direct_merge,
                    depth as nat,
                    0,
                    init,
                ));
                assert(trace_state(self.visited@, related@, false, false, false) == init);
            }
        }
        while pi < commit.parents.len()
            invariant
                forall|h: &str, p: &str| #[trigger] read_text.requires((h, p)),
                forall|h: &str| #[trigger] get_commit.requires((h,)),
                forall|h: &str, c: &str, p: &str| #[trigger] parent_paths.requires((h, c, p)),
                pi <= commit.parents@.len(),
                entry_visited == old(self).visited@,
                key == (commit.hash@, file_path@, block_signature_spec(file_path@, *block)),
                !visited_view(entry_visited).contains(key),
                commit.is_merge,
                texts(via@) == via_with(via_in, commit.hash@),
                entry_visited.len() <= start_visited.len(),
                start_visited.subrange(0, entry_visited.len() as int) == entry_visited,
                visited_view(start_visited).contains(key),
                start_visited.len() <= self.visited@.len(),
                self.visited@.subrange(0, start_visited.len() as int) == start_visited,
                !has_parent_candidate ==> !replaced,
                has_parent_candidate ==> parent_explains(read_text, get_commit, parent_paths, *commit, file_path@, *block),
                merge_text_holds(read_text, *commit, file_path@, *block),
                !has_parent_candidate ==> !ambiguous,
                reads_functional(read_text, get_commit, parent_paths) ==> forall|k: int|
                    0 <= k < pi && #[trigger] parent_explains_at(
                        read_text,
                        get_commit,
                        parent_paths,
                        *commit,
                        file_path@,
                        *block,
                        k,
                    ) ==> has_parent_candidate,
                reads_functional(read_text, get_commit, parent_paths) ==> forall|k: int|
                    0 <= k < pi && #[trigger] parent_ambiguous_at(
                        read_text,
                        get_commit,
                        parent_paths,
                        *commit,
                        file_path@,
                        *block,
                        k,
                    ) ==> ambiguous,
                lines_view(block_lines@) == block_new_lines_spec(block.rows@),
                forall|k: int|
                    0 <= k < related@.len() ==> traced_source(
                        get_commit,
                        *commit,
                        *filter,
                        previous_related_commits@,
                        #[trigger] related@[k],
                    ),
                tb == trace_block(*block),
                reads_functional(read_text, get_commit, parent_paths) ==> trace_parents(
                    read_text,
                    get_commit,
                    parent_paths,
                    *commit,
                    file_path@,
                    tb,
                    allow_direct_merge,
                    depth as nat,
                    pi as int,
                    trace_state(self.visited@, related@, ambiguous, has_parent_candidate, replaced),
                ) == trace_spec(
                    read_text,
                    get_commit,
                    parent_paths,
                    visited_set(entry_visited),
                    *commit,
                    file_path@,
                    tb,
                    allow_direct_merge,
                    depth as nat,
                ),
            decreases commit.parents.len() - pi,
        {
            let parent_hash = commit.parents[pi].as_str();
            let parent_commit = match get_commit(parent_hash) {
                Ok(c) => c,
                Err(e) => {
                    proof {
                        lemma_visited_grows(entry_visited, start_visited, self.visited@, key);
                        assert(get_commit.ensures((parent_hash,), Err::<IndexedCommit, AppError>(e)));
                    }
                    return Err(e);
                },
            };
            proof {
                assert(looked_up(get_commit, parent_hash@, parent_commit));
            }
            let pch = parent_commit.hash.as_str();
            let mch = commit.hash.as_str();
            let paths = match parent_paths(pch, mch, file_path) {
                Ok(p) => p,
                Err(e) => {
                    proof {
                        lemma_visited_grows(entry_visited, start_visited, self.visited@, key);
                        assert(parent_paths.ensures((pch, mch, file_path), Err::<Vec<String>, AppError>(e)));
                    }
                    return Err(e);
                },
            };
            proof {
                assert(paths_read(parent_paths, parent_commit.hash@, commit.hash@, file_path@, paths));
                if reads_functional(read_text, get_commit, parent_paths) {
                    lemma_picks(read_text, get_commit, parent_paths);
                    assert(commit_ok(get_commit, commit.parents@[pi as int]@));
                    assert(commit_of(get_commit, commit.parents@[pi as int]@) == parent_commit);
                    assert(paths_ok(parent_paths, parent_commit.hash@, commit.hash@, file_path@));
                    assert(paths_of(parent_paths, parent_commit.hash@, commit.hash@, file_path@) == texts(paths@));
                }
            }
            let ghost st_pre = trace_state(self.visited@, related@, ambiguous, has_parent_candidate, replaced);
            let mut candidates: Vec<(String, DiffBlockOutput, bool)> = Vec::new();
            let mut qi: usize = 0;
            while qi < paths.len()
                invariant
                    forall|h: &str, p: &str| #[trigger] read_text.requires((h, p)),
                    qi <= paths@.len(),
                    entry_visited == old(self).visited@,
                key == (commit.hash@, file_path@, block_signature_spec(file_path@, *block)),
                !visited_view(entry_visited).contains(key),
                commit.is_merge,
                texts(via@) == via_with(via_in, commit.hash@),
                    entry_visited.len() <= start_visited.len(),
                    start_visited.subrange(0, entry_visited.len() as int) == entry_visited,
                    visited_view(start_visited).contains(key),
                    start_visited.len() <= self.visited@.len(),
                    self.visited@.subrange(0, start_visited.len() as int) == start_visited,
                    lines_view(block_lines@) == block_new_lines_spec(block.rows@),
                    candidates@.len() > 0 ==> exists|q: int, t: String|
                        0 <= q < paths@.len() && #[trigger] text_read(read_text, parent_commit.hash@, paths@[q]@, t)
                            && window_found(
                            t@,
                            block.new_start as int,
                            block.new_end as int,
                            block_new_lines_spec(block.rows@),
                        ),
                    reads_functional(read_text, get_commit, parent_paths) ==> forall|q: int, t: String|
                        0 <= q < qi && #[trigger] text_read(read_text, parent_commit.hash@, paths@[q]@, t)
                            && window_ambiguous(
                            t@,
                            block.new_start as int,
                            block.new_end as int,
                            block_new_lines_spec(block.rows@),
                        ) ==> exists|j: int| 0 <= j < candidates@.len() && (#[trigger] candidates@[j]).2,
                    reads_functional(read_text, get_commit, parent_paths) ==> forall|q: int, t: String|
                        0 <= q < qi && #[trigger] text_read(read_text, parent_commit.hash@, paths@[q]@, t)
                            && window_found(
                            t@,
                            block.new_start as int,
                            block.new_end as int,
                            block_new_lines_spec(block.rows@),
                        ) ==> candidates@.len() > 0,
                    tb == trace_block(*block),
                    reads_functional(read_text, get_commit, parent_paths) ==> forall|q: int|
                        0 <= q < qi ==> #[trigger] text_ok(read_text, parent_commit.hash@, texts(paths@)[q]),
                    reads_functional(read_text, get_commit, parent_paths) ==> candidates_view(candidates@)
                        == trace_candidates(read_text, parent_commit.hash@, texts(paths@).take(qi as int), tb),
                decreases paths.len() - qi,
            {
                let pq = paths[qi].as_str();
                let pch = parent_commit.hash.as_str();
                let parent_text = match read_text(pch, pq) {
                    Ok(t) => t,
                    Err(e) => {
                        proof {
                            lemma_visited_grows(entry_visited, start_visited, self.visited@, key);
                            assert(read_text.ensures((pch, pq), Err::<String, AppError>(e)));
                        }
                        return Err(e);
                    },
                };
                proof {
                    assert(text_read(read_text, parent_commit.hash@, paths@[qi as int]@, parent_text));
                    if reads_functional(read_text, get_commit, parent_paths) {
                        lemma_picks(read_text, get_commit, parent_paths);
                        assert(texts(paths@)[qi as int] == paths@[qi as int]@);
                        assert(text_ok(read_text, parent_commit.hash@, paths@[qi as int]@));
                        assert(text_of(read_text, parent_commit.hash@, paths@[qi as int]@) == parent_text@);
                    }
                }
                let ghost cand_before = candidates@;
                let ghost amb_here = window_ambiguous(
                    parent_text@,
                    block.new_start as int,
                    block.new_end as int,
                    block_new_lines_spec(block.rows@),
                );
                let copy = copy_block(block);
                proof {
                    lemma_candidate_view(parent_text@, *block, copy);
                }
                let ghost pc_spec = parent_candidate_spec(parent_text@, copy, block_new_lines_spec(block.rows@));
                match parent_candidate_from_text(parent_text.as_str(), copy, block_lines.as_slice()) {
                    Some(found) => {
                        proof {
                            assert(window_found(
                                parent_text@,
                                block.new_start as int,
                                block.new_end as int,
                                block_new_lines_spec(block.rows@),
                            ));
                            assert(found.1 == amb_here);
                        }
                        let path_copy = paths[qi].clone();
                        candidates.push((path_copy, found.0, found.1));
                        proof {
                            assert(candidates_view(candidates@) =~= candidates_view(cand_before).push(
                                (paths@[qi as int]@, trace_block(found.0), found.1),
                            ));
                            assert(candidates@[cand_before.len() as int].2 == amb_here);
                            assert forall|j: int| 0 <= j < cand_before.len() implies candidates@[j] == cand_before[j] by {}
                        }
                    },
                    None => {
                        proof {
                            assert(!amb_here);
                            assert(!window_found(
                                parent_text@,
                                block.new_start as int,
                                block.new_end as int,
                                block_new_lines_spec(block.rows@),
                            ));
                        }
                    },
                }
                proof {
                    if reads_functional(read_text, get_commit, parent_paths) {
                        let tp = texts(paths@).take(qi + 1);
                        assert(tp.drop_last() =~= texts(paths@).take(qi as int));
                        assert(tp.last() == paths@[qi as int]@);
                        assert(candidates_view(candidates@) == trace_candidates(
                            read_text,
                            parent_commit.hash@,
                            tp,
                            tb,
                        ));
                        assert forall|q: int| 0 <= q < qi + 1 implies #[trigger] text_ok(
                            read_text,
                            parent_commit.hash@,
                            texts(paths@)[q],
                        ) by {}
                        assert forall|q: int, t: String|
                            0 <= q < qi + 1 && #[trigger] text_read(read_text, parent_commit.hash@, paths@[q]@, t)
                                && window_found(
                                t@,
                                block.new_start as int,
                                block.new_end as int,
                                block_new_lines_spec(block.rows@),
                            ) implies candidates@.len() > 0 by {
                            if q < qi {
                                assert(cand_before.len() > 0);
                            } else {
                                assert(t@ == parent_text@);
                            }
                        }
                    }
                }
                proof {
                    if reads_functional(read_text, get_commit, parent_paths) {
                        assert forall|q: int, t: String|
                            0 <= q < qi + 1 && #[trigger] text_read(read_text, parent_commit.hash@, paths@[q]@, t)
                                && window_ambiguous(
                                t@,
                                block.new_start as int,
                                block.new_end as int,
                                block_new_lines_spec(block.rows@),
                            ) implies exists|j: int| 0 <= j < candidates@.len() && (#[trigger] candidates@[j]).2 by {
                            if q < qi {
                                let j = choose|j: int| 0 <= j < cand_before.len() && (#[trigger] cand_before[j]).2;
                                assert(candidates@[j] == cand_before[j]);
                            } else {
                                assert(t@ == parent_text@);
                                assert(candidates@[cand_before.len() as int].2);
                            }
                        }
                    }
                }
                qi += 1;
            }
            proof {
                if candidates@.len() > 0 {
                    assert(looked_up(get_commit, commit.parents@[pi as int]@, parent_commit));
                    assert(parent_explains(read_text, get_commit, parent_paths, *commit, file_path@, *block));
                }
            }
            let ghost amb0 = ambiguous;
            let ghost cv = candidates_view(candidates@);
            let ghost st1: TraceState = (st_pre.0, st_pre.1, st_pre.2, st_pre.3 || cv.len() > 0, st_pre.4);
            proof {
                assert(texts(paths@).take(paths@.len() as int) =~= texts(paths@));
                assert(st_pre == trace_state(self.visited@, related@, ambiguous, has_parent_candidate, replaced));
            }
            if candidates.len() > 0 {
                has_parent_candidate = true;
                let mut ci: usize = 0;
                while ci < candidates.len()
                    invariant
                        forall|h: &str, p: &str| #[trigger] read_text.requires((h, p)),
                        forall|h: &str| #[trigger] get_commit.requires((h,)),
                        forall|h: &str, c: &str, p: &str| #[trigger] parent_paths.requires((h, c, p)),
                        ci <= candidates@.len(),
                        has_parent_candidate,
                        entry_visited == old(self).visited@,
                key == (commit.hash@, file_path@, block_signature_spec(file_path@, *block)),
                !visited_view(entry_visited).contains(key),
                commit.is_merge,
                texts(via@) == via_with(via_in, commit.hash@),
                        entry_visited.len() <= start_visited.len(),
                        start_visited.subrange(0, entry_visited.len() as int) == entry_visited,
                        visited_view(start_visited).contains(key),
                        start_visited.len() <= self.visited@.len(),
                        self.visited@.subrange(0, start_visited.len() as int) == start_visited,
                        looked_up(get_commit, parent_hash@, parent_commit),
                        merge_text_holds(read_text, *commit, file_path@, *block),
                        parent_explains(read_text, get_commit, parent_paths, *commit, file_path@, *block),
                        amb0 ==> ambiguous,
                        forall|j: int| 0 <= j < ci && (#[trigger] candidates@[j]).2 ==> ambiguous,
                        tb == trace_block(*block),
                        cv == candidates_view(candidates@),
                        reads_functional(read_text, get_commit, parent_paths) ==> trace_offers(
                            read_text,
                            get_commit,
                            parent_paths,
                            parent_commit,
                            cv,
                            depth as nat,
                            ci as int,
                            trace_state(self.visited@, related@, ambiguous, has_parent_candidate, replaced),
                        ) == trace_offers(
                            read_text,
                            get_commit,
                            parent_paths,
                            parent_commit,
                            cv,
                            depth as nat,
                            0,
                            st1,
                        ),
                        forall|k: int|
                            0 <= k < related@.len() ==> traced_source(
                                get_commit,
                                *commit,
                                *filter,
                                previous_related_commits@,
                                #[trigger] related@[k],
                            ),
                    decreases candidates.len() - ci,
                {
                    let candidate = &candidates[ci];
                    let ghost st_ci = trace_state(self.visited@, related@, ambiguous, has_parent_candidate, replaced);
                    proof {
                        assert(cv[ci as int] == (candidate.0@, trace_block(candidate.1), candidate.2));
                    }
                    if candidate.2 {
                        ambiguous = true;
                        proof {
                            assert(trace_state(self.visited@, related@, ambiguous, has_parent_candidate, replaced) == (
                                st_ci.0,
                                st_ci.1,
                                true,
                                st_ci.3,
                                st_ci.4,
                            ));
                        }
                    } else {
                        if depth == 0 {
                            proof { lemma_visited_grows(entry_visited, start_visited, self.visited@, key); }
                            let m = String::from_str("合并追踪层数超出支持范围");
                            proof {
                                assert(depth_exceeded(AppError::Analysis(m)));
                            }
                            return Err(AppError::Analysis(m));
                        }
                        let next_via = copy_texts(&via);
                        let ghost before_visited = self.visited@;
                        let outcome = self.resolve(
                            read_text,
                            get_commit,
                            parent_paths,
                            &parent_commit,
                            candidate.0.as_str(),
                            &candidate.1,
                            filter,
                            previous_related_commits,
                            next_via,
                            true,
                            depth - 1,
                        );
                        proof {
                            assert(self.visited@.subrange(0, start_visited.len() as int) =~= before_visited.subrange(
                                0,
                                start_visited.len() as int,
                            ));
                        }
                        let ghost out_g = outcome;
                        let ghost sub_spec = trace_spec(
                            read_text,
                            get_commit,
                            parent_paths,
                            st_ci.0,
                            parent_commit,
                            cv[ci as int].0,
                            cv[ci as int].1,
                            true,
                            (depth as nat - 1) as nat,
                        );
                        proof {
                            if reads_functional(read_text, get_commit, parent_paths) && out_g is Ok {
                                assert(sub_spec == (true, outcome_view(out_g->Ok_0), visited_set(self.visited@)));
                            }
                        }
                        match outcome {
                            Err(e) => {
                                proof { lemma_visited_grows(entry_visited, start_visited, self.visited@, key); }
                                return Err(e);
                            },
                            Ok(Some(o)) => {
                                let ghost pre = related@;
                                let ghost sub = o.related_commits@;
                                let ghost o_amb = o.ambiguous;
                                let ghost o_rep = o.replaced_merge_commit;
                                let mut found = o.related_commits;
                                related.append(&mut found);
                                proof {
                                    lemma_hashes_append(pre, sub);
                                    assert(related@ == pre + sub);
                                }
                                proof {
                                    assert forall|k: int|
                                        0 <= k < related@.len() implies traced_source(
                                        get_commit,
                                        *commit,
                                        *filter,
                                        previous_related_commits@,
                                        #[trigger] related@[k],
                                    ) by {
                                        if k < pre.len() {
                                            assert(related@[k] == pre[k]);
                                        } else {
                                            assert(related@[k] == sub[k - pre.len()]);
                                            assert(traced_source(
                                                get_commit,
                                                parent_commit,
                                                *filter,
                                                previous_related_commits@,
                                                sub[k - pre.len()],
                                            ));
                                            lemma_traced_through_parent(
                                                get_commit,
                                                parent_commit,
                                                parent_hash@,
                                                *commit,
                                                *filter,
                                                previous_related_commits@,
                                                related@[k],
                                            );
                                        }
                                    }
                                }
                                ambiguous = ambiguous || o.ambiguous;
                                replaced = replaced || o.replaced_merge_commit || !parent_commit.is_merge;
                                proof {
                                    if reads_functional(read_text, get_commit, parent_paths) {
                                        assert(sub_spec == (
                                            true,
                                            Some((hashes_of(sub), o_amb, o_rep)),
                                            visited_set(self.visited@),
                                        ));
                                        assert(trace_state(self.visited@, related@, ambiguous, has_parent_candidate, replaced) == (
                                            sub_spec.2,
                                            st_ci.1 + hashes_of(sub),
                                            st_ci.2 || o_amb,
                                            st_ci.3,
                                            st_ci.4 || o_rep || !parent_commit.is_merge,
                                        ));
                                    }
                                }
                            },
                            Ok(None) => {
                                proof {
                                    if reads_functional(read_text, get_commit, parent_paths) {
                                        assert(sub_spec == (true, None::<TraceOutcome>, visited_set(self.visited@)));
                                    }
                                }
                            },
                        }
                    }
                    proof {
                        if reads_functional(read_text, get_commit, parent_paths) {
                            assert(trace_offers(
                                read_text,
                                get_commit,
                                parent_paths,
                                parent_commit,
                                cv,
                                depth as nat,
                                ci as int,
                                st_ci,
                            ) == trace_offers(
                                read_text,
                                get_commit,
                                parent_paths,
                                parent_commit,
                                cv,
                                depth as nat,
                                ci + 1,
                                trace_state(self.visited@, related@, ambiguous, has_parent_candidate, replaced),
                            ));
                        }
                    }
                    ci += 1;
                }
            }
            proof {
                if reads_functional(read_text, get_commit, parent_paths) {
                    let cur = trace_state(self.visited@, related@, ambiguous, has_parent_candidate, replaced);
                    assert(trace_candidates(read_text, parent_commit.hash@, texts(paths@), tb) == cv);
                    assert(texts_ok(read_text, parent_commit.hash@, texts(paths@)));
                    assert(trace_offers(read_text, get_commit, parent_paths, parent_commit, cv, depth as nat, cv.len() as int, cur)
                        == (true, cur));
                    assert(trace_offers(read_text, get_commit, parent_paths, parent_commit, cv, depth as nat, 0, st1) == (
                        true,
                        cur,
                    ));
                    assert(trace_parents(
                        read_text,
                        get_commit,
                        parent_paths,
                        *commit,
                        file_path@,
                        tb,
                        allow_direct_merge,
                        depth as nat,
                        pi as int,
                        st_pre,
                    ) == trace_parents(
                        read_text,
                        get_commit,
                        parent_paths,
                        *commit,
                        file_path@,
                        tb,
                        allow_direct_merge,
                        depth as nat,
                        pi + 1,
                        cur,
                    ));
                }
            }
            proof {
                if reads_functional(read_text, get_commit, parent_paths) {
                    assert forall|k: int|
                        0 <= k < pi + 1 && #[trigger] parent_explains_at(
                            read_text,
                            get_commit,
                            parent_paths,
                            *commit,
                            file_path@,
                            *block,
                            k,
                        ) implies has_parent_candidate by {
                        if k == pi {
                            let (pc, ps, q, t) = choose|pc: IndexedCommit, ps: Vec<String>, q: int, t: String|
                                #![trigger looked_up(get_commit, commit.parents@[k]@, pc), paths_read(parent_paths, pc.hash@, commit.hash@, file_path@, ps), text_read(read_text, pc.hash@, ps@[q]@, t)]
                                {
                                    &&& looked_up(get_commit, commit.parents@[k]@, pc)
                                    &&& paths_read(parent_paths, pc.hash@, commit.hash@, file_path@, ps)
                                    &&& 0 <= q < ps@.len()
                                    &&& text_read(read_text, pc.hash@, ps@[q]@, t)
                                    &&& window_found(t@, block.new_start as int, block.new_end as int, block_new_lines_spec(block.rows@))
                                };
                            assert(looked_up(get_commit, parent_hash@, parent_commit));
                            assert(pc == parent_commit);
                            assert(paths_read(parent_paths, parent_commit.hash@, commit.hash@, file_path@, paths));
                            assert(texts(ps@) == texts(paths@));
                            assert(texts(ps@).len() == ps@.len());
                            assert(texts(ps@)[q] == ps@[q]@);
                            assert(texts(paths@)[q] == paths@[q]@);
                            assert(text_read(read_text, parent_commit.hash@, paths@[q]@, t));
                        }
                    }
                    assert forall|k: int|
                        0 <= k < pi + 1 && #[trigger] parent_ambiguous_at(
                            read_text,
                            get_commit,
                            parent_paths,
                            *commit,
                            file_path@,
                            *block,
                            k,
                        ) implies ambiguous by {
                        if k == pi {
                            let (pc, ps, q, t) = choose|pc: IndexedCommit, ps: Vec<String>, q: int, t: String|
                                #![trigger looked_up(get_commit, commit.parents@[k]@, pc), paths_read(parent_paths, pc.hash@, commit.hash@, file_path@, ps), text_read(read_text, pc.hash@, ps@[q]@, t)]
                                {
                                    &&& looked_up(get_commit, commit.parents@[k]@, pc)
                                    &&& paths_read(parent_paths, pc.hash@, commit.hash@, file_path@, ps)
                                    &&& 0 <= q < ps@.len()
                                    &&& text_read(read_text, pc.hash@, ps@[q]@, t)
                                    &&& window_ambiguous(t@, block.new_start as int, block.new_end as int, block_new_lines_spec(block.rows@))
                                };
                            assert(looked_up(get_commit, parent_hash@, parent_commit));
                            assert(pc == parent_commit);
                            assert(paths_read(parent_paths, parent_commit.hash@, commit.hash@, file_path@, paths));
                            assert(texts(ps@) == texts(paths@));
                            assert(texts(ps@).len() == ps@.len());
                            assert(texts(ps@)[q] == ps@[q]@);
                            assert(texts(paths@)[q] == paths@[q]@);
                            assert(text_read(read_text, parent_commit.hash@, paths@[q]@, t));
                            let j = choose|j: int| 0 <= j < candidates@.len() && (#[trigger] candidates@[j]).2;
                            assert(candidates@[j].2);
                        }
                    }
                }
            }
            pi += 1;
        }
        let merge_itself = related_commit_for_merge_trace(commit, via.as_slice(), filter, previous_related_commits);
        let ghost related_all = related@;
        let result = finish_merge_resolution(
            has_parent_candidate,
            related,
            ambiguous,
            replaced,
            allow_direct_merge,
            merge_itself,
        );
        proof {
            if result is None {
                assert(has_parent_candidate);
            }
            if reads_functional(read_text, get_commit, parent_paths) && parent_explains(
                read_text,
                get_commit,
                parent_paths,
                *commit,
                file_path@,
                *block,
            ) {
                lemma_parent_explains_some(read_text, get_commit, parent_paths, *commit, file_path@, *block);
                let k = choose|k: int|
                    0 <= k < commit.parents@.len() && #[trigger] parent_explains_at(
                        read_text,
                        get_commit,
                        parent_paths,
                        *commit,
                        file_path@,
                        *block,
                        k,
                    );
                assert(has_parent_candidate);
            }
            if reads_functional(read_text, get_commit, parent_paths) && parent_window_ambiguous(
                read_text,
                get_commit,
                parent_paths,
                *commit,
                file_path@,
                *block,
            ) {
                let k = choose|k: int|
                    0 <= k < commit.parents@.len() && #[trigger] parent_ambiguous_at(
                        read_text,
                        get_commit,
                        parent_paths,
                        *commit,
                        file_path@,
                        *block,
                        k,
                    );
                assert(ambiguous);
            }
            lemma_first_per_hash_distinct(related_all);
            lemma_first_per_hash_within(related_all);
            if reads_functional(read_text, get_commit, parent_paths) {
                lemma_hashes_first_per_hash(related_all);
                assert(hashes_of(related_all).len() == related_all.len());
                assert(hashes_of(first_per_hash(related_all)).len() == first_per_hash(related_all).len());
                assert(merge_itself.hash@ == commit.hash@);
                assert(hashes_of(seq![merge_itself]) =~= seq![commit.hash@]);
                assert(trace_parents(
                    read_text,
                    get_commit,
                    parent_paths,
                    *commit,
                    file_path@,
                    tb,
                    allow_direct_merge,
                    depth as nat,
                    pi as int,
                    trace_state(self.visited@, related_all, ambiguous, has_parent_candidate, replaced),
                ) == (true, outcome_view(result), visited_set(self.visited@)));
            }
            lemma_visited_grows(entry_visited, start_visited, self.visited@, key);
            assert(merge_traced_commit(merge_itself, *commit, texts(via@), *filter, previous_related_commits@));
            if result is Some {
                let o = result->0;
                assert forall|k: int|
                    0 <= k < o.related_commits@.len() implies traced_source(
                    get_commit,
                    *commit,
                    *filter,
                    previous_related_commits@,
                    #[trigger] o.related_commits@[k],
                ) by {
                    if has_parent_candidate {
                        assert(related_all.contains(o.related_commits@[k]));
                        let j = choose|j: int| 0 <= j < related_all.len() && related_all[j] == o.related_commits@[k];
                        assert(traced_source(get_commit, *commit, *filter, previous_related_commits@, related_all[j]));
                    } else {
                        assert(o.related_commits@[k] == merge_itself);
                    }
                }
            }
        }
        Ok(result)
    }
}

/// Traces a block of a merge commit back to the commits that wrote it: nothing for a commit that
/// is no merge or a block with no new line; else what a fresh trace from the merge finds,
/// failing only where a read failed or the trace went deeper than a `usize` counts.
pub fn resolve_merge_commit<FT, FC, FP>(
    read_text: FT,
    get_commit: FC,
    parent_paths: FP,
    merge_commit: &IndexedCommit,
    file_path: &str,
    block: &DiffBlockOutput,
    filter: &FilterMatcher,
    previous_related_commits: &[RelatedCommitOutput],
) -> (r: Result<Option<MergeTraceOutcome>, AppError>)
    where
        FT: Fn(&str, &str) -> Result<String, AppError> + Copy,
        FC: Fn(&str) -> Result<IndexedCommit, AppError> + Copy,
        FP: Fn(&str, &str, &str) -> Result<Vec<String>, AppError> + Copy,
    requires
        forall|h: &str, p: &str| #[trigger] read_text.requires((h, p)),
        forall|h: &str| #[trigger] get_commit.requires((h,)),
        forall|h: &str, c: &str, p: &str| #[trigger] parent_paths.requires((h, c, p)),
    ensures
        !merge_commit.is_merge ==> r == Ok::<Option<MergeTraceOutcome>, AppError>(None),
        block_new_lines_spec(block.rows@).len() == 0 ==> r == Ok::<Option<MergeTraceOutcome>, AppError>(None),
        r matches Ok(Some(o)) ==> o.related_commits@.len() > 0,
        r matches Ok(Some(o)) ==> (o.replaced_merge_commit ==> hashes_of(
            o.related_commits@,
        ).no_duplicates()),
        r matches Ok(Some(o)) ==> (!o.replaced_merge_commit ==> (o.related_commits@.len() == 1
            && merge_traced_commit(
            o.related_commits@[0],
            *merge_commit,
            seq![merge_commit.hash@],
            *filter,
            previous_related_commits@,
        ))),
        r matches Ok(Some(o)) ==> merge_text_holds(read_text, *merge_commit, file_path@, *block),
        merge_commit.is_merge && block_new_lines_spec(block.rows@).len() > 0 && r == Ok::<
            Option<MergeTraceOutcome>,
            AppError,
        >(None) ==> merge_text_misses(read_text, *merge_commit, file_path@, *block) || parent_explains(
            read_text,
            get_commit,
            parent_paths,
            *merge_commit,
            file_path@,
            *block,
        ),
        r matches Ok(Some(o)) ==> forall|k: int|
            0 <= k < o.related_commits@.len() ==> traced_source(
                get_commit,
                *merge_commit,
                *filter,
                previous_related_commits@,
                #[trigger] o.related_commits@[k],
            ),
        r matches Ok(Some(o)) ==> (o.related_commits@.len() > 1 ==> o.ambiguous),
        r matches Ok(Some(o)) ==> (reads_functional(read_text, get_commit, parent_paths) && parent_window_ambiguous(
            read_text,
            get_commit,
            parent_paths,
            *merge_commit,
            file_path@,
            *block,
        ) ==> o.ambiguous),
        r matches Err(e) ==> merge_commit.is_merge && block_new_lines_spec(block.rows@).len() > 0 && (
        trace_read_failed(read_text, get_commit, parent_paths, e) || (depth_exceeded(e) && merge_text_holds(
            read_text,
            *merge_commit,
            file_path@,
            *block,
        ) && parent_explains(read_text, get_commit, parent_paths, *merge_commit, file_path@, *block))),
        merge_commit.is_merge && reads_functional(read_text, get_commit, parent_paths) && merge_text_holds(
            read_text,
            *merge_commit,
            file_path@,
            *block,
        ) && parent_explains(read_text, get_commit, parent_paths, *merge_commit, file_path@, *block) ==> (r is Err
            || r == Ok::<Option<MergeTraceOutcome>, AppError>(None) || (r matches Ok(Some(o))
            && o.replaced_merge_commit)),
        merge_commit.is_merge && reads_functional(read_text, get_commit, parent_paths) && merge_text_holds(
            read_text,
            *merge_commit,
            file_path@,
            *block,
        ) && !parent_explains(read_text, get_commit, parent_paths, *merge_commit, file_path@, *block) ==> (r is Err
            || (r matches Ok(Some(o)) && !o.replaced_merge_commit && !o.ambiguous && o.related_commits@.len() == 1)),
        merge_commit.is_merge && block_new_lines_spec(block.rows@).len() > 0 && reads_functional(
            read_text,
            get_commit,
            parent_paths,
        ) ==> (r matches Ok(x) ==> trace_spec(
            read_text,
            get_commit,
            parent_paths,
            Set::empty(),
            *merge_commit,
            file_path@,
            trace_block(*block),
            false,
            usize::MAX as nat,
        ).0 && trace_spec(
            read_text,
            get_commit,
            parent_paths,
            Set::empty(),
            *merge_commit,
            file_path@,
            trace_block(*block),
            false,
            usize::MAX as nat,
        ).1 == outcome_view(x)),
{
    if !merge_commit.is_merge {
        return Ok(None);
    }
    let block_lines = block_new_lines(block);
    if block_lines.len() == 0 {
        return Ok(None);
    }
    let mut state = MergeTraceState::new();
    proof {
        assert(!visited_view(state.visited@).contains(
            (merge_commit.hash@, file_path@, block_signature_spec(file_path@, *block)),
        ));
        assert(via_with(texts(Seq::<String>::empty()), merge_commit.hash@) =~= seq![merge_commit.hash@]);
        assert(texts(Seq::<String>::empty()) =~= Seq::<Seq<char>>::empty());
        assert(visited_set(state.visited@) =~= Set::<(Seq<char>, Seq<char>, Seq<char>)>::empty());
    }
    let via: Vec<String> = Vec::new();
    state.resolve(
        read_text,
        get_commit,
        parent_paths,
        merge_commit,
        file_path,
        block,
        filter,
        previous_related_commits,
        via,
        false,
        usize::MAX,
    )
}

} // verus!
