//! Line-level diff of two texts, by a divide-and-conquer longest common subsequence.
use crate::overlay::lcs::{
    is_matching, lcs_len, lcs_witness, lemma_lcs_bound, lemma_lcs_rev, lemma_lcs_step, lemma_lcs_witness,
    lemma_lcs_append_a, lemma_lcs_append_b, lemma_lcs_append_both, lemma_matching_le_lcs,
    lemma_split_attained, lemma_split_le, rev, split_score,
};
use crate::text::{lines_view, text_lines, text_lines_of};
use vstd::prelude::*;

verus! {

/// One run of lines in a line diff.
#[derive(Debug, Clone, PartialEq, Eq)]
pub enum LineDiffPart {
    Equal(Vec<String>),
    Added(Vec<String>),
    Removed(Vec<String>),
}

impl LineDiffPart {
    /// The lines of the run.
    pub open spec fn lines(&self) -> Seq<Seq<char>> {
        match self {
            LineDiffPart::Equal(l) => lines_view(l@),
            LineDiffPart::Added(l) => lines_view(l@),
            LineDiffPart::Removed(l) => lines_view(l@),
        }
    }

    /// 0 for equal, 1 for added, 2 for removed lines.
    pub open spec fn kind(&self) -> int {
        match self {
            LineDiffPart::Equal(_) => 0,
            LineDiffPart::Added(_) => 1,
            LineDiffPart::Removed(_) => 2,
        }
    }

    /// The lines this run contributes to the old text.
    pub open spec fn old_lines(&self) -> Seq<Seq<char>> {
        if self.kind() == 1 {
            Seq::empty()
        } else {
            self.lines()
        }
    }

    /// The lines this run contributes to the new text.
    pub open spec fn new_lines(&self) -> Seq<Seq<char>> {
        if self.kind() == 2 {
            Seq::empty()
        } else {
            self.lines()
        }
    }
}

/// The old text that a sequence of runs describes: its equal and removed lines, in order.
pub open spec fn old_side(parts: Seq<LineDiffPart>) -> Seq<Seq<char>>
    decreases parts.len(),
{
    if parts.len() == 0 {
        Seq::empty()
    } else {
        old_side(parts.drop_last()) + parts.last().old_lines()
    }
}

/// The new text that a sequence of runs describes: its equal and added lines, in order.
pub open spec fn new_side(parts: Seq<LineDiffPart>) -> Seq<Seq<char>>
    decreases parts.len(),
{
    if parts.len() == 0 {
        Seq::empty()
    } else {
        new_side(parts.drop_last()) + parts.last().new_lines()
    }
}

/// The lines that a sequence of runs marks as equal, in order.
pub open spec fn equal_side(parts: Seq<LineDiffPart>) -> Seq<Seq<char>>
    decreases parts.len(),
{
    if parts.len() == 0 {
        Seq::empty()
    } else {
        equal_side(parts.drop_last()) + (if parts.last().kind() == 0 {
            parts.last().lines()
        } else {
            Seq::empty()
        })
    }
}

/// Every run holds at least one line, no two neighbouring runs are of the same kind, and no
/// run of added lines is directly followed by one of removed lines (within a changed stretch
/// the removed lines come first).
pub open spec fn parts_well_formed(parts: Seq<LineDiffPart>) -> bool {
    &&& forall|i: int| 0 <= i < parts.len() ==> (#[trigger] parts[i]).lines().len() > 0
    &&& forall|i: int| 0 <= i < parts.len() - 1 ==> (#[trigger] parts[i]).kind() != parts[i + 1].kind()
    &&& forall|i: int| 0 <= i < parts.len() - 1 ==> !((#[trigger] parts[i]).kind() == 1 && parts[i + 1].kind() == 2)
}

/// A run as plain values: its kind (as `kind`) and its lines.
pub open spec fn run_view(p: LineDiffPart) -> (int, Seq<Seq<char>>) {
    (p.kind(), p.lines())
}

/// Runs as plain values.
pub open spec fn runs_view(parts: Seq<LineDiffPart>) -> Seq<(int, Seq<Seq<char>>)> {
    parts.map_values(|p: LineDiffPart| run_view(p))
}

/// `runs` with `run` appended, merged into the last run when both are of one kind.
pub open spec fn push_run(runs: Seq<(int, Seq<Seq<char>>)>, run: (int, Seq<Seq<char>>)) -> Seq<
    (int, Seq<Seq<char>>),
> {
    if runs.len() > 0 && runs.last().0 == run.0 {
        runs.drop_last().push((run.0, runs.last().1 + run.1))
    } else {
        runs.push(run)
    }
}

/// `runs` followed by the old lines `old[oi..oe]` as removed and then the new lines
/// `new[ni..ne]` as added, each where there is at least one.
pub open spec fn push_gap(
    runs: Seq<(int, Seq<Seq<char>>)>,
    old: Seq<Seq<char>>,
    new: Seq<Seq<char>>,
    oi: int,
    oe: int,
    ni: int,
    ne: int,
) -> Seq<(int, Seq<Seq<char>>)> {
    let removed = if oi < oe {
        push_run(runs, (2, old.subrange(oi, oe)))
    } else {
        runs
    };
    if ni < ne {
        push_run(removed, (1, new.subrange(ni, ne)))
    } else {
        removed
    }
}

/// The old and new line just past the first `k` matched pairs.
pub open spec fn after_pairs(m: Seq<(usize, usize)>, k: int) -> (int, int) {
    if k <= 0 {
        (0, 0)
    } else {
        (m[k - 1].0 + 1, m[k - 1].1 + 1)
    }
}

/// The runs up to and including the `k`-th matched pair: before each pair, the unmatched old
/// lines as removed and the unmatched new lines as added, then the pair's line as equal.
pub open spec fn runs_through(old: Seq<Seq<char>>, new: Seq<Seq<char>>, m: Seq<(usize, usize)>, k: int) -> Seq<
    (int, Seq<Seq<char>>),
>
    decreases k,
{
    if k <= 0 {
        Seq::empty()
    } else {
        let at = after_pairs(m, k - 1);
        push_run(
            push_gap(runs_through(old, new, m, k - 1), old, new, at.0, m[k - 1].0 as int, at.1, m[k - 1].1 as int),
            (0, seq![old[m[k - 1].0 as int]]),
        )
    }
}

/// The runs that matched pairs make of two lists of lines: those through every pair, then the
/// old lines left as removed and the new lines left as added.
pub open spec fn runs_of_pairs(old: Seq<Seq<char>>, new: Seq<Seq<char>>, m: Seq<(usize, usize)>) -> Seq<
    (int, Seq<Seq<char>>),
> {
    let at = after_pairs(m, m.len() as int);
    push_gap(runs_through(old, new, m, m.len() as int), old, new, at.0, old.len() as int, at.1, new.len() as int)
}

/// The line diff of two lists of lines, as runs: the runs of the pairs the divide and conquer
/// picks.
pub open spec fn line_diff_runs(old: Seq<Seq<char>>, new: Seq<Seq<char>>) -> Seq<(int, Seq<Seq<char>>)> {
    runs_of_pairs(old, new, hirschberg_pairs(old, new, 0, old.len() as int, 0, new.len() as int))
}

/// `p` pairs a line of `old[olo..ohi]` with an equal line of `new[nlo..nhi]`.
pub open spec fn pair_matches(
    p: (usize, usize),
    old: Seq<Seq<char>>,
    new: Seq<Seq<char>>,
    olo: int,
    ohi: int,
    nlo: int,
    nhi: int,
) -> bool {
    &&& olo <= p.0 < ohi
    &&& nlo <= p.1 < nhi
    &&& old[p.0 as int] == new[p.1 as int]
}

/// `pairs` matches equal lines of `old[olo..ohi]` and `new[nlo..nhi]`, in increasing order on both sides.
pub open spec fn valid_matching(
    pairs: Seq<(usize, usize)>,
    old: Seq<Seq<char>>,
    new: Seq<Seq<char>>,
    olo: int,
    ohi: int,
    nlo: int,
    nhi: int,
) -> bool {
    &&& forall|k: int|
        0 <= k < pairs.len() ==> pair_matches(#[trigger] pairs[k], old, new, olo, ohi, nlo, nhi)
    &&& forall|k: int, l: int|
        0 <= k < l < pairs.len() ==> (#[trigger] pairs[k]).0 < (#[trigger] pairs[l]).0 && pairs[k].1
            < pairs[l].1
}

/// The line diff of two texts: runs of equal, added and removed lines whose equal and removed
/// lines give the old text's lines and whose equal and added lines give the new text's lines;
/// the equal lines are a longest common subsequence of the two texts' lines, the one that the
/// divide and conquer picks (`line_diff_runs`), so the diff depends on the two lists of lines
/// alone.
pub fn diff_lines(old_text: &str, new_text: &str) -> (parts: Vec<LineDiffPart>)
    ensures
        old_side(parts@) == text_lines(old_text@),
        new_side(parts@) == text_lines(new_text@),
        parts_well_formed(parts@),
        equal_side(parts@).len() == lcs_len(text_lines(old_text@), text_lines(new_text@)),
        lcs_len(equal_side(parts@), text_lines(old_text@)) == equal_side(parts@).len(),
        lcs_len(equal_side(parts@), text_lines(new_text@)) == equal_side(parts@).len(),
        runs_view(parts@) == line_diff_runs(text_lines(old_text@), text_lines(new_text@)),
{
    let old_lines = text_lines_of(old_text);
    let new_lines = text_lines_of(new_text);
    let matches = lcs_pairs(&old_lines, &new_lines, 0, old_lines.len(), 0, new_lines.len());
    proof {
        assert(lines_view(old_lines@).subrange(0, old_lines.len() as int) =~= lines_view(old_lines@));
        assert(lines_view(new_lines@).subrange(0, new_lines.len() as int) =~= lines_view(new_lines@));
    }
    let parts = parts_from_matches(&old_lines, &new_lines, &matches);
    proof {
        lemma_equal_lines_common_subsequence(parts@);
    }
    parts
}

proof fn lemma_matching_concat(
    left: Seq<(usize, usize)>,
    right: Seq<(usize, usize)>,
    old: Seq<Seq<char>>,
    new: Seq<Seq<char>>,
    olo: int,
    omid: int,
    ohi: int,
    nlo: int,
    nmid: int,
    nhi: int,
)
    requires
        olo <= omid <= ohi,
        nlo <= nmid <= nhi,
        valid_matching(left, old, new, olo, omid, nlo, nmid),
        valid_matching(right, old, new, omid, ohi, nmid, nhi),
    ensures
        valid_matching(left + right, old, new, olo, ohi, nlo, nhi),
{
    let all = left + right;
    assert forall|k: int, l: int| 0 <= k < l < all.len() implies (#[trigger] all[k]).0 < (
    #[trigger] all[l]).0 && all[k].1 < all[l].1 by {
        if l < left.len() {
            assert(all[k] == left[k] && all[l] == left[l]);
        } else if k >= left.len() {
            assert(all[k] == right[k - left.len()] && all[l] == right[l - left.len()]);
        } else {
            assert(all[k] == left[k] && all[l] == right[l - left.len()]);
        }
    }
    assert forall|k: int| 0 <= k < all.len() implies pair_matches(
        #[trigger] all[k],
        old,
        new,
        olo,
        ohi,
        nlo,
        nhi,
    ) by {
        if k < left.len() {
            assert(all[k] == left[k]);
            assert(pair_matches(left[k], old, new, olo, omid, nlo, nmid));
        } else {
            assert(all[k] == right[k - left.len()]);
            assert(pair_matches(right[k - left.len()], old, new, omid, ohi, nmid, nhi));
        }
    }
}

/// The index of the first line of `lines[lo..hi]` equal to `target`, if any.
pub open spec fn first_match(lines: Seq<Seq<char>>, lo: int, hi: int, target: Seq<char>) -> Option<int>
    decreases hi - lo,
{
    if lo >= hi {
        None
    } else if lines[lo] == target {
        Some(lo)
    } else {
        first_match(lines, lo + 1, hi, target)
    }
}

/// The split of `b` chosen after trying the first `k` splits, with its score: the first split
/// whose score is larger than that of every split before it, or split 0 with score 0 while no
/// split scores above 0.
pub open spec fn best_split(a: Seq<Seq<char>>, b: Seq<Seq<char>>, h: int, k: int) -> (int, int)
    decreases k,
{
    if k <= 0 {
        (0, 0)
    } else {
        let prev = best_split(a, b, h, k - 1);
        let score = split_score(a, b, h, k - 1) as int;
        if score > prev.1 {
            (k - 1, score)
        } else {
            prev
        }
    }
}

proof fn lemma_best_split_bound(a: Seq<Seq<char>>, b: Seq<Seq<char>>, h: int, k: int)
    requires
        k > 0,
    ensures
        0 <= best_split(a, b, h, k).0 < k,
    decreases k,
{
    if k > 1 {
        lemma_best_split_bound(a, b, h, k - 1);
    } else {
        assert(best_split(a, b, h, 0) == (0int, 0int));
    }
}

/// The pairs of matched lines of `old[olo..ohi]` and `new[nlo..nhi]` that the divide and
/// conquer picks: with one line on a side, its first equal line on the other; else the old side
/// split in halves and the new side at the best split of the two halves' tables, each part
/// paired in turn.
pub open spec fn hirschberg_pairs(
    old: Seq<Seq<char>>,
    new: Seq<Seq<char>>,
    olo: int,
    ohi: int,
    nlo: int,
    nhi: int,
) -> Seq<(usize, usize)>
    decreases (ohi - olo) + (nhi - nlo),
    when 0 <= olo <= ohi && 0 <= nlo <= nhi
    via hirschberg_pairs_decreases
{
    if olo >= ohi || nlo >= nhi {
        Seq::empty()
    } else if ohi - olo == 1 {
        match first_match(new, nlo, nhi, old[olo]) {
            Some(j) => seq![(olo as usize, j as usize)],
            None => Seq::empty(),
        }
    } else if nhi - nlo == 1 {
        match first_match(old, olo, ohi, new[nlo]) {
            Some(i) => seq![(i as usize, nlo as usize)],
            None => Seq::empty(),
        }
    } else {
        let omid = olo + (ohi - olo) / 2;
        let nmid = nlo + best_split(
            old.subrange(olo, ohi),
            new.subrange(nlo, nhi),
            omid - olo,
            nhi - nlo + 1,
        ).0;
        hirschberg_pairs(old, new, olo, omid, nlo, nmid) + hirschberg_pairs(old, new, omid, ohi, nmid, nhi)
    }
}

#[via_fn]
proof fn hirschberg_pairs_decreases(
    old: Seq<Seq<char>>,
    new: Seq<Seq<char>>,
    olo: int,
    ohi: int,
    nlo: int,
    nhi: int,
) {
    if 0 <= olo <= ohi && 0 <= nlo <= nhi && !(olo >= ohi || nlo >= nhi) && ohi - olo != 1 && nhi - nlo != 1 {
        lemma_best_split_bound(
            old.subrange(olo, ohi),
            new.subrange(nlo, nhi),
            (olo + (ohi - olo) / 2) - olo,
            nhi - nlo + 1,
        );
    }
}

/// Index of the first line of `lines[lo..hi]` equal to `target`.
fn position_of(lines: &Vec<String>, lo: usize, hi: usize, target: &String) -> (r: Option<usize>)
    requires
        lo <= hi <= lines.len(),
    ensures
        match r {
            Some(i) => lo <= i < hi && lines@[i as int]@ == target@,
            None => forall|i: int| lo <= i < hi ==> lines@[i]@ != target@,
        },
        match r {
            Some(i) => first_match(lines_view(lines@), lo as int, hi as int, target@) == Some(i as int),
            None => first_match(lines_view(lines@), lo as int, hi as int, target@) is None,
        },
{
    let ghost lv = lines_view(lines@);
    let mut i = lo;
    while i < hi
        invariant
            lo <= i <= hi <= lines.len(),
            lv == lines_view(lines@),
            forall|k: int| lo <= k < i ==> lines@[k]@ != target@,
            first_match(lv, lo as int, hi as int, target@) == first_match(lv, i as int, hi as int, target@),
        decreases hi - i,
    {
        assert(lv[i as int] == lines@[i as int]@);
        if lines[i] == *target {
            return Some(i);
        }
        i += 1;
    }
    None
}

/// `s[lo..hi]`, read backwards when `reversed`.
pub open spec fn oriented(s: Seq<Seq<char>>, lo: int, hi: int, reversed: bool) -> Seq<Seq<char>> {
    if reversed {
        rev(s.subrange(lo, hi))
    } else {
        s.subrange(lo, hi)
    }
}

/// The last row of the longest-common-subsequence table of `old[olo..ohi]` against each prefix of
/// `new[nlo..nhi]` (entry `k` for the first `k` lines), either side optionally read backwards.
fn lcs_lengths(
    old: &Vec<String>,
    olo: usize,
    ohi: usize,
    new: &Vec<String>,
    nlo: usize,
    nhi: usize,
    reverse_old: bool,
    reverse_new: bool,
) -> (row: Vec<usize>)
    requires
        olo <= ohi <= old.len(),
        nlo <= nhi <= new.len(),
    ensures
        row.len() == nhi - nlo + 1,
        forall|k: int| 0 <= k < row.len() ==> row@[k] <= ohi - olo,
        forall|k: int|
            0 <= k < row.len() ==> row@[k] == lcs_len(
                oriented(lines_view(old@), olo as int, ohi as int, reverse_old),
                oriented(lines_view(new@), nlo as int, nhi as int, reverse_new).take(k),
            ),
{
    let ghost oa = oriented(lines_view(old@), olo as int, ohi as int, reverse_old);
    let ghost nb = oriented(lines_view(new@), nlo as int, nhi as int, reverse_new);
    let n = nhi - nlo;
    let mut previous: Vec<usize> = Vec::new();
    let mut current: Vec<usize> = Vec::new();
    previous.push(0);
    current.push(0);
    while previous.len() <= n
        invariant
            n == nhi - nlo,
            1 <= previous.len() <= n + 1,
            previous.len() == current.len(),
            forall|j: int| 0 <= j < previous.len() ==> previous@[j] == 0 && current@[j] == 0,
        decreases n + 1 - previous.len(),
    {
        previous.push(0);
        current.push(0);
    }
    proof {
        assert forall|j: int| 0 <= j <= n implies previous@[j] == lcs_len(
            #[trigger] oa.take(0),
            nb.take(j),
        ) by {
            assert(oa.take(0).len() == 0);
        }
    }
    let m = ohi - olo;
    let mut old_index: usize = 0;
    while old_index < m
        invariant
            m == ohi - olo,
            n == nhi - nlo,
            olo <= ohi <= old.len(),
            nlo <= nhi <= new.len(),
            oa == oriented(lines_view(old@), olo as int, ohi as int, reverse_old),
            nb == oriented(lines_view(new@), nlo as int, nhi as int, reverse_new),
            oa.len() == m,
            nb.len() == n,
            old_index <= m,
            previous.len() == n + 1,
            current.len() == n + 1,
            forall|j: int| 0 <= j <= n ==> previous@[j] <= old_index,
            forall|j: int| 0 <= j <= n ==> previous@[j] == lcs_len(oa.take(old_index as int), #[trigger] nb.take(j)),
        decreases m - old_index,
    {
        current.set(0, 0);
        let old_line = if reverse_old {
            &old[ohi - 1 - old_index]
        } else {
            &old[olo + old_index]
        };
        let ghost a = oa.take(old_index + 1);
        proof {
            assert(old_line@ == oa[old_index as int]);
            assert(a.drop_last() =~= oa.take(old_index as int));
            assert(lcs_len(a, nb.take(0)) == 0) by {
                assert(nb.take(0).len() == 0);
            }
        }
        let mut new_index: usize = 0;
        while new_index < n
            invariant
                m == ohi - olo,
                n == nhi - nlo,
                nlo <= nhi <= new.len(),
                old_index < m,
                new_index <= n,
                oa == oriented(lines_view(old@), olo as int, ohi as int, reverse_old),
                nb == oriented(lines_view(new@), nlo as int, nhi as int, reverse_new),
                oa.len() == m,
                nb.len() == n,
                a == oa.take(old_index + 1),
                a.drop_last() == oa.take(old_index as int),
                a.len() > 0,
                a.last() == old_line@,
                previous.len() == n + 1,
                current.len() == n + 1,
                forall|j: int| 0 <= j <= n ==> previous@[j] <= old_index,
                forall|j: int| 0 <= j <= new_index ==> current@[j] <= old_index + 1,
                forall|j: int| 0 <= j <= n ==> previous@[j] == lcs_len(oa.take(old_index as int), #[trigger] nb.take(j)),
                forall|j: int| 0 <= j <= new_index ==> current@[j] == lcs_len(a, #[trigger] nb.take(j)),
            decreases n - new_index,
        {
            let new_line = if reverse_new {
                &new[nhi - 1 - new_index]
            } else {
                &new[nlo + new_index]
            };
            let ghost b = nb.take(new_index + 1);
            proof {
                assert(new_line@ == nb[new_index as int]);
                assert(b.drop_last() =~= nb.take(new_index as int));
                assert(b.last() == new_line@);
                lemma_lcs_step(a, b);
            }
            let value = if *old_line == *new_line {
                previous[new_index] + 1
            } else {
                let up = previous[new_index + 1];
                let left = current[new_index];
                if up >= left {
                    up
                } else {
                    left
                }
            };
            current.set(new_index + 1, value);
            new_index += 1;
        }
        std::mem::swap(&mut previous, &mut current);
        old_index += 1;
    }
    proof {
        assert(oa.take(m as int) =~= oa);
    }
    previous
}

/// Pairs of matched lines of `old[olo..ohi]` and `new[nlo..nhi]`, splitting the old side in
/// halves and the new side where the two half tables give the longest common subsequence.
fn lcs_pairs(
    old: &Vec<String>,
    new: &Vec<String>,
    olo: usize,
    ohi: usize,
    nlo: usize,
    nhi: usize,
) -> (pairs: Vec<(usize, usize)>)
    requires
        olo <= ohi <= old.len(),
        nlo <= nhi <= new.len(),
    ensures
        valid_matching(
            pairs@,
            lines_view(old@),
            lines_view(new@),
            olo as int,
            ohi as int,
            nlo as int,
            nhi as int,
        ),
        pairs@.len() == lcs_len(
            lines_view(old@).subrange(olo as int, ohi as int),
            lines_view(new@).subrange(nlo as int, nhi as int),
        ),
        pairs@ == hirschberg_pairs(lines_view(old@), lines_view(new@), olo as int, ohi as int, nlo as int, nhi as int),
    decreases (ohi - olo) + (nhi - nlo),
{
    let ghost ov = lines_view(old@);
    let ghost nv = lines_view(new@);
    let ghost sa = ov.subrange(olo as int, ohi as int);
    let ghost sb = nv.subrange(nlo as int, nhi as int);
    if olo == ohi || nlo == nhi {
        assert(lcs_len(sa, sb) == 0);
        return Vec::new();
    }
    if ohi - olo == 1 {
        let mut pairs = Vec::new();
        match position_of(new, nlo, nhi, &old[olo]) {
            Some(new_index) => {
                pairs.push((olo, new_index));
                proof {
                    let m = seq![(0int, new_index - nlo)];
                    assert(sa[0] == ov[olo as int]);
                    assert(sb[new_index - nlo] == nv[new_index as int]);
                    assert(is_matching(m, sa, sb));
                    lemma_matching_le_lcs(m, sa, sb);
                    lemma_lcs_bound(sa, sb);
                }
            },
            None => {
                proof {
                    lemma_lcs_witness(sa, sb);
                    let w = lcs_witness(sa, sb);
                    if w.len() > 0 {
                        assert(0 <= w[0].0 < 1);
                        assert(sb[w[0].1] == nv[nlo + w[0].1]);
                        assert(sa[0] == ov[olo as int]);
                    }
                }
            },
        }
        return pairs;
    }
    if nhi - nlo == 1 {
        let mut pairs = Vec::new();
        match position_of(old, olo, ohi, &new[nlo]) {
            Some(old_index) => {
                pairs.push((old_index, nlo));
                proof {
                    let m = seq![(old_index - olo, 0int)];
                    assert(sb[0] == nv[nlo as int]);
                    assert(sa[old_index - olo] == ov[old_index as int]);
                    assert(is_matching(m, sa, sb));
                    lemma_matching_le_lcs(m, sa, sb);
                    lemma_lcs_bound(sa, sb);
                }
            },
            None => {
                proof {
                    lemma_lcs_witness(sa, sb);
                    let w = lcs_witness(sa, sb);
                    if w.len() > 0 {
                        assert(0 <= w[0].1 < 1);
                        assert(sa[w[0].0] == ov[olo + w[0].0]);
                        assert(sb[0] == nv[nlo as int]);
                    }
                }
            },
        }
        return pairs;
    }
    let n = nhi - nlo;
    let omid = olo + (ohi - olo) / 2;
    let ghost h = omid - olo;
    let left_scores = lcs_lengths(old, olo, omid, new, nlo, nhi, false, false);
    let right_scores = lcs_lengths(old, omid, ohi, new, nlo, nhi, true, true);
    proof {
        assert(oriented(ov, olo as int, omid as int, false) =~= sa.take(h));
        assert(oriented(ov, omid as int, ohi as int, true) =~= rev(sa.skip(h)));
        assert(oriented(nv, nlo as int, nhi as int, false) =~= sb);
        assert(oriented(nv, nlo as int, nhi as int, true) =~= rev(sb));
    }
    let mut split_at: usize = 0;
    let mut best_score: usize = 0;
    let mut split: usize = 0;
    while split <= n
        invariant
            n == nhi - nlo,
            sb.len() == n,
            sa.len() == ohi - olo,
            h == omid - olo,
            0 <= h <= sa.len(),
            split <= n + 1,
            split_at <= n,
            left_scores.len() == n + 1,
            right_scores.len() == n + 1,
            forall|k: int| 0 <= k < left_scores.len() ==> left_scores@[k] <= omid - olo,
            forall|k: int| 0 <= k < right_scores.len() ==> right_scores@[k] <= ohi - omid,
            forall|k: int|
                0 <= k < left_scores.len() ==> left_scores@[k] == lcs_len(sa.take(h), #[trigger] sb.take(k)),
            forall|k: int|
                0 <= k < right_scores.len() ==> right_scores@[k] == lcs_len(
                    rev(sa.skip(h)),
                    #[trigger] rev(sb).take(k),
                ),
            olo <= omid <= ohi,
            forall|k: int| 0 <= k < split ==> #[trigger] split_score(sa, sb, h, k) <= best_score,
            split > 0 ==> split_score(sa, sb, h, split_at as int) == best_score,
            split == 0 ==> best_score == 0 && split_at == 0,
            best_split(sa, sb, h, split as int) == (split_at as int, best_score as int),
        decreases n + 1 - split,
    {
        proof {
            assert(rev(sb).take(n - split) =~= rev(sb.skip(split as int)));
            lemma_lcs_rev(sa.skip(h), sb.skip(split as int));
            assert(left_scores@[split as int] == lcs_len(sa.take(h), sb.take(split as int)));
            assert(right_scores@[n - split] == lcs_len(rev(sa.skip(h)), rev(sb).take(n - split)));
        }
        let score = left_scores[split] + right_scores[n - split];
        assert(score == split_score(sa, sb, h, split as int));
        if score > best_score {
            best_score = score;
            split_at = split;
        }
        split += 1;
    }
    let nmid = nlo + split_at;
    proof {
        lemma_split_attained(sa, sb, h);
        let k = choose|k: int| 0 <= k <= sb.len() && #[trigger] split_score(sa, sb, h, k) >= lcs_len(sa, sb);
        assert(split_score(sa, sb, h, k) <= best_score);
        lemma_split_le(sa, sb, h, split_at as int);
        assert(ov.subrange(olo as int, omid as int) =~= sa.take(h));
        assert(ov.subrange(omid as int, ohi as int) =~= sa.skip(h));
        assert(nv.subrange(nlo as int, nmid as int) =~= sb.take(split_at as int));
        assert(nv.subrange(nmid as int, nhi as int) =~= sb.skip(split_at as int));
    }
    assert(nmid == nlo + best_split(sa, sb, omid - olo, nhi - nlo + 1).0);
    let mut pairs = lcs_pairs(old, new, olo, omid, nlo, nmid);
    let mut right = lcs_pairs(old, new, omid, ohi, nmid, nhi);
    let ghost left_pairs = pairs@;
    let ghost right_pairs = right@;
    proof {
        lemma_matching_concat(
            pairs@,
            right@,
            ov,
            nv,
            olo as int,
            omid as int,
            ohi as int,
            nlo as int,
            nmid as int,
            nhi as int,
        );
    }
    pairs.append(&mut right);
    assert(pairs@ =~= left_pairs + right_pairs);
    pairs
}

/// A copy of `lines[lo..hi]`.
fn copy_lines(lines: &Vec<String>, lo: usize, hi: usize) -> (out: Vec<String>)
    requires
        lo <= hi <= lines.len(),
    ensures
        lines_view(out@) == lines_view(lines@).subrange(lo as int, hi as int),
        out.len() == hi - lo,
{
    let mut out: Vec<String> = Vec::new();
    let mut i = lo;
    while i < hi
        invariant
            lo <= i <= hi <= lines.len(),
            lines_view(out@) == lines_view(lines@).subrange(lo as int, i as int),
            out.len() == i - lo,
        decreases hi - i,
    {
        out.push(lines[i].clone());
        assert(lines_view(out@) =~= lines_view(lines@).subrange(lo as int, i + 1));
        i += 1;
    }
    out
}

fn same_kind(a: &LineDiffPart, b: &LineDiffPart) -> (r: bool)
    ensures
        r == (a.kind() == b.kind()),
{
    match (a, b) {
        (LineDiffPart::Equal(_), LineDiffPart::Equal(_)) => true,
        (LineDiffPart::Added(_), LineDiffPart::Added(_)) => true,
        (LineDiffPart::Removed(_), LineDiffPart::Removed(_)) => true,
        _ => false,
    }
}

fn merge_parts(a: LineDiffPart, b: LineDiffPart) -> (r: LineDiffPart)
    requires
        a.kind() == b.kind(),
    ensures
        r.kind() == a.kind(),
        r.lines() == a.lines() + b.lines(),
{
    match a {
        LineDiffPart::Equal(mut x) => {
            let ghost xs = x@;
            match b {
                LineDiffPart::Equal(mut y) => {
                    let ghost ys = y@;
                    x.append(&mut y);
                    assert(lines_view(x@) =~= lines_view(xs) + lines_view(ys));
                    LineDiffPart::Equal(x)
                },
                _ => LineDiffPart::Equal(x),
            }
        },
        LineDiffPart::Added(mut x) => {
            let ghost xs = x@;
            match b {
                LineDiffPart::Added(mut y) => {
                    let ghost ys = y@;
                    x.append(&mut y);
                    assert(lines_view(x@) =~= lines_view(xs) + lines_view(ys));
                    LineDiffPart::Added(x)
                },
                _ => LineDiffPart::Added(x),
            }
        },
        LineDiffPart::Removed(mut x) => {
            let ghost xs = x@;
            match b {
                LineDiffPart::Removed(mut y) => {
                    let ghost ys = y@;
                    x.append(&mut y);
                    assert(lines_view(x@) =~= lines_view(xs) + lines_view(ys));
                    LineDiffPart::Removed(x)
                },
                _ => LineDiffPart::Removed(x),
            }
        },
    }
}

/// Appends a run, merging it into the last run when both are of the same kind.
fn push_part(parts: &mut Vec<LineDiffPart>, part: LineDiffPart)
    requires
        parts_well_formed(old(parts)@),
        part.lines().len() > 0,
        old(parts)@.len() > 0 && old(parts)@.last().kind() == 1 ==> part.kind() != 2,
    ensures
        parts_well_formed(final(parts)@),
        final(parts)@.len() > 0,
        final(parts)@.last().kind() == part.kind(),
        runs_view(final(parts)@) == push_run(runs_view(old(parts)@), run_view(part)),
        old_side(final(parts)@) == old_side(old(parts)@) + part.old_lines(),
        new_side(final(parts)@) == new_side(old(parts)@) + part.new_lines(),
        equal_side(final(parts)@) == equal_side(old(parts)@) + (if part.kind() == 0 {
            part.lines()
        } else {
            Seq::empty()
        }),
{
    let n = parts.len();
    if n > 0 && same_kind(&parts[n - 1], &part) {
        let ghost before = parts@;
        let last = parts.pop().unwrap();
        assert(parts@ =~= before.drop_last());
        let ghost part_copy = part;
        let merged = merge_parts(last, part);
        parts.push(merged);
        assert(parts@.drop_last() =~= before.drop_last());
        assert(runs_view(parts@) =~= runs_view(before).drop_last().push(
            (part_copy.kind(), runs_view(before).last().1 + part_copy.lines()),
        ));
        assert(old_side(parts@) == old_side(before.drop_last()) + merged.old_lines());
        assert(merged.old_lines() =~= last.old_lines() + part_copy.old_lines());
        assert(merged.new_lines() =~= last.new_lines() + part_copy.new_lines());
        assert(old_side(parts@) =~= old_side(before) + part_copy.old_lines());
        assert(new_side(parts@) =~= new_side(before) + part_copy.new_lines());
        assert(equal_side(parts@) =~= equal_side(before) + (if part_copy.kind() == 0 {
            part_copy.lines()
        } else {
            Seq::empty()
        }));
        assert forall|i: int| 0 <= i < parts@.len() - 1 implies (#[trigger] parts@[i]).kind()
            != parts@[i + 1].kind() by {
            assert(parts@[i] == before[i]);
            if i + 1 < parts@.len() - 1 {
                assert(parts@[i + 1] == before[i + 1]);
            }
        }
        assert forall|i: int| 0 <= i < parts@.len() - 1 implies !((#[trigger] parts@[i]).kind() == 1
            && parts@[i + 1].kind() == 2) by {
            assert(parts@[i] == before[i]);
            if i + 1 < parts@.len() - 1 {
                assert(parts@[i + 1] == before[i + 1]);
            }
        }
        assert forall|i: int| 0 <= i < parts@.len() implies (#[trigger] parts@[i]).lines().len()
            > 0 by {
            if i < parts@.len() - 1 {
                assert(parts@[i] == before[i]);
            }
        }
    } else {
        let ghost before = parts@;
        let ghost part_copy = part;
        parts.push(part);
        assert(parts@.drop_last() =~= before);
        assert(runs_view(parts@) =~= runs_view(before).push(run_view(part_copy)));
        assert forall|i: int| 0 <= i < parts@.len() - 1 implies (#[trigger] parts@[i]).kind()
            != parts@[i + 1].kind() by {
            assert(parts@[i] == before[i]);
            if i + 1 < parts@.len() - 1 {
                assert(parts@[i + 1] == before[i + 1]);
            }
        }
        assert forall|i: int| 0 <= i < parts@.len() - 1 implies !((#[trigger] parts@[i]).kind() == 1
            && parts@[i + 1].kind() == 2) by {
            assert(parts@[i] == before[i]);
            if i + 1 < parts@.len() - 1 {
                assert(parts@[i + 1] == before[i + 1]);
            }
        }
        assert forall|i: int| 0 <= i < parts@.len() implies (#[trigger] parts@[i]).lines().len()
            > 0 by {
            if i < parts@.len() - 1 {
                assert(parts@[i] == before[i]);
            }
        }
    }
}

/// Turns matched line pairs into runs of removed, added and equal lines.
fn parts_from_matches(old: &Vec<String>, new: &Vec<String>, matches: &Vec<(usize, usize)>) -> (parts:
    Vec<LineDiffPart>)
    requires
        valid_matching(
            matches@,
            lines_view(old@),
            lines_view(new@),
            0,
            old.len() as int,
            0,
            new.len() as int,
        ),
    ensures
        old_side(parts@) == lines_view(old@),
        new_side(parts@) == lines_view(new@),
        parts_well_formed(parts@),
        equal_side(parts@).len() == matches@.len(),
        runs_view(parts@) == runs_of_pairs(lines_view(old@), lines_view(new@), matches@),
{
    let ghost ov = lines_view(old@);
    let ghost nv = lines_view(new@);
    let mut parts: Vec<LineDiffPart> = Vec::new();
    let mut old_index: usize = 0;
    let mut new_index: usize = 0;
    let mut k: usize = 0;
    while k < matches.len()
        invariant
            ov == lines_view(old@),
            nv == lines_view(new@),
            valid_matching(matches@, ov, nv, 0, old.len() as int, 0, new.len() as int),
            k <= matches.len(),
            old_index <= old.len(),
            new_index <= new.len(),
            k < matches.len() ==> old_index <= matches@[k as int].0 && new_index <= matches@[k as int].1,
            parts_well_formed(parts@),
            parts@.len() > 0 ==> parts@.last().kind() == 0,
            old_side(parts@) == ov.take(old_index as int),
            new_side(parts@) == nv.take(new_index as int),
            equal_side(parts@).len() == k,
            runs_view(parts@) == runs_through(ov, nv, matches@, k as int),
            after_pairs(matches@, k as int) == (old_index as int, new_index as int),
        decreases matches.len() - k,
    {
        let (old_match, new_match) = matches[k];
        let ghost r0 = runs_view(parts@);
        if old_index < old_match {
            let lines = copy_lines(old, old_index, old_match);
            assert(run_view(LineDiffPart::Removed(lines)) == (2int, ov.subrange(old_index as int, old_match as int)));
            push_part(&mut parts, LineDiffPart::Removed(lines));
            assert(ov.take(old_index as int) + ov.subrange(old_index as int, old_match as int)
                =~= ov.take(old_match as int));
        }
        if new_index < new_match {
            let lines = copy_lines(new, new_index, new_match);
            assert(run_view(LineDiffPart::Added(lines)) == (1int, nv.subrange(new_index as int, new_match as int)));
            push_part(&mut parts, LineDiffPart::Added(lines));
            assert(nv.take(new_index as int) + nv.subrange(new_index as int, new_match as int)
                =~= nv.take(new_match as int));
        }
        assert(runs_view(parts@) == push_gap(
            r0,
            ov,
            nv,
            old_index as int,
            old_match as int,
            new_index as int,
            new_match as int,
        ));
        let mut equal: Vec<String> = Vec::new();
        equal.push(old[old_match].clone());
        let ghost eq_part = LineDiffPart::Equal(equal);
        assert(eq_part.lines() =~= seq![ov[old_match as int]]);
        push_part(&mut parts, LineDiffPart::Equal(equal));
        assert(runs_view(parts@) == runs_through(ov, nv, matches@, k + 1));
        assert(ov.take(old_match as int) + seq![ov[old_match as int]] =~= ov.take(old_match + 1));
        assert(nv.take(new_match as int) + seq![nv[new_match as int]] =~= nv.take(new_match + 1));
        old_index = old_match + 1;
        new_index = new_match + 1;
        k += 1;
        if k < matches.len() {
            assert(matches@[k - 1].0 < matches@[k as int].0);
        }
    }
    let ghost r0 = runs_view(parts@);
    if old_index < old.len() {
        let lines = copy_lines(old, old_index, old.len());
        assert(run_view(LineDiffPart::Removed(lines)) == (2int, ov.subrange(old_index as int, old.len() as int)));
        push_part(&mut parts, LineDiffPart::Removed(lines));
    }
    if new_index < new.len() {
        let lines = copy_lines(new, new_index, new.len());
        assert(run_view(LineDiffPart::Added(lines)) == (1int, nv.subrange(new_index as int, new.len() as int)));
        push_part(&mut parts, LineDiffPart::Added(lines));
    }
    assert(runs_view(parts@) == push_gap(
        r0,
        ov,
        nv,
        old_index as int,
        old.len() as int,
        new_index as int,
        new.len() as int,
    ));
    assert(ov.take(old_index as int) + ov.subrange(old_index as int, old.len() as int) =~= ov);
    assert(nv.take(new_index as int) + nv.subrange(new_index as int, new.len() as int) =~= nv);
    assert(ov.take(old.len() as int) =~= ov);
    assert(nv.take(new.len() as int) =~= nv);
    parts
}

/// A line diff keeps at most as many lines equal as a longest common subsequence of the two
/// sides it describes.
pub proof fn lemma_equal_lines_within_lcs(parts: Seq<LineDiffPart>)
    ensures
        equal_side(parts).len() <= lcs_len(old_side(parts), new_side(parts)),
    decreases parts.len(),
{
    if parts.len() > 0 {
        let prev = parts.drop_last();
        let p = parts.last();
        lemma_equal_lines_within_lcs(prev);
        let o = old_side(prev);
        let n = new_side(prev);
        if p.kind() == 0 {
            lemma_lcs_append_both(o, n, p.lines());
        } else if p.kind() == 1 {
            assert(o + p.old_lines() =~= o);
            lemma_lcs_append_b(o, n, p.lines());
        } else {
            assert(n + p.new_lines() =~= n);
            lemma_lcs_append_a(o, n, p.lines());
        }
    } else {
        assert(equal_side(parts).len() == 0);
    }
}

/// The lines a line diff keeps equal form a common subsequence of the two sides it
/// describes: a longest common subsequence of the equal lines with either side is all of them.
pub proof fn lemma_equal_lines_common_subsequence(parts: Seq<LineDiffPart>)
    ensures
        lcs_len(equal_side(parts), old_side(parts)) == equal_side(parts).len(),
        lcs_len(equal_side(parts), new_side(parts)) == equal_side(parts).len(),
    decreases parts.len(),
{
    lemma_lcs_bound(equal_side(parts), old_side(parts));
    lemma_lcs_bound(equal_side(parts), new_side(parts));
    if parts.len() > 0 {
        let prev = parts.drop_last();
        let p = parts.last();
        lemma_equal_lines_common_subsequence(prev);
        let e = equal_side(prev);
        let o = old_side(prev);
        let n = new_side(prev);
        if p.kind() == 0 {
            lemma_lcs_append_both(e, o, p.lines());
            lemma_lcs_append_both(e, n, p.lines());
        } else if p.kind() == 1 {
            assert(equal_side(parts) =~= e);
            assert(old_side(parts) =~= o);
            lemma_lcs_append_b(e, n, p.lines());
        } else {
            assert(equal_side(parts) =~= e);
            assert(new_side(parts) =~= n);
            lemma_lcs_append_b(e, o, p.lines());
        }
    }
}

/// One final newline more or less does not change a line diff: a non-empty text that does not
/// end in a newline diffs, on either side, as it does with one newline added.
pub proof fn lemma_diff_ignores_final_newline(old_text: Seq<char>, new_text: Seq<char>)
    ensures
        old_text.len() > 0 && old_text.last() != '\n' ==> line_diff_runs(
            text_lines(old_text.push('\n')),
            text_lines(new_text),
        ) == line_diff_runs(text_lines(old_text), text_lines(new_text)),
        new_text.len() > 0 && new_text.last() != '\n' ==> line_diff_runs(
            text_lines(old_text),
            text_lines(new_text.push('\n')),
        ) == line_diff_runs(text_lines(old_text), text_lines(new_text)),
{
    assert(old_text.push('\n').drop_last() =~= old_text);
    assert(new_text.push('\n').drop_last() =~= new_text);
}

/// No line diff of two texts keeps more lines equal than `diff_lines` does: any runs whose
/// sides are the two texts' lines have at most as many equal lines as a longest common
/// subsequence of them, which is what `diff_lines` keeps.
pub proof fn lemma_diff_lines_keeps_most_lines(parts: Seq<LineDiffPart>, old_text: Seq<char>, new_text: Seq<char>)
    requires
        old_side(parts) == text_lines(old_text),
        new_side(parts) == text_lines(new_text),
    ensures
        equal_side(parts).len() <= lcs_len(text_lines(old_text), text_lines(new_text)),
{
    lemma_equal_lines_within_lcs(parts);
}

} // verus!
