//! Longest common subsequences: their length, the in-order pairings of equal elements they
//! bound, and the facts a divide-and-conquer search for one rests on.
use vstd::prelude::*;

verus! {

/// The larger of two naturals.
pub open spec fn max_nat(x: nat, y: nat) -> nat {
    if x >= y {
        x
    } else {
        y
    }
}

/// The length of a longest common subsequence of `a` and `b`.
pub open spec fn lcs_len<A>(a: Seq<A>, b: Seq<A>) -> nat
    decreases a.len() + b.len(),
{
    if a.len() == 0 || b.len() == 0 {
        0
    } else {
        let skip_a = lcs_len(a.drop_last(), b);
        let skip_b = lcs_len(a, b.drop_last());
        let both = if a.last() == b.last() {
            lcs_len(a.drop_last(), b.drop_last()) + 1
        } else {
            0
        };
        max_nat(max_nat(skip_a, skip_b), both)
    }
}

/// `m` pairs positions of `a` with positions of `b` that hold equal elements, in increasing
/// order on both sides.
pub open spec fn is_matching<A>(m: Seq<(int, int)>, a: Seq<A>, b: Seq<A>) -> bool {
    &&& forall|k: int|
        0 <= k < m.len() ==> 0 <= (#[trigger] m[k]).0 < a.len() && 0 <= m[k].1 < b.len() && a[m[k].0]
            == b[m[k].1]
    &&& forall|k: int, l: int|
        0 <= k < l < m.len() ==> (#[trigger] m[k]).0 < (#[trigger] m[l]).0 && m[k].1 < m[l].1
}

/// `s` read backwards.
pub open spec fn rev<A>(s: Seq<A>) -> Seq<A> {
    Seq::new(s.len(), |i: int| s[s.len() - 1 - i])
}

/// The score of splitting `a` after `h` elements and `b` after `k`: the longest common
/// subsequences of the two front parts and of the two back parts, together.
pub open spec fn split_score<A>(a: Seq<A>, b: Seq<A>, h: int, k: int) -> nat {
    lcs_len(a.take(h), b.take(k)) + lcs_len(a.skip(h), b.skip(k))
}

/// Dropping an element from either side never lengthens a longest common subsequence.
pub proof fn lemma_lcs_mono<A>(a: Seq<A>, b: Seq<A>)
    ensures
        a.len() > 0 ==> lcs_len(a.drop_last(), b) <= lcs_len(a, b),
        b.len() > 0 ==> lcs_len(a, b.drop_last()) <= lcs_len(a, b),
{
    if a.len() > 0 && b.len() == 0 {
        assert(lcs_len(a.drop_last(), b) == 0);
    }
    if b.len() > 0 && a.len() == 0 {
        assert(lcs_len(a, b.drop_last()) == 0);
    }
}

/// A longest common subsequence is no longer than either side.
pub proof fn lemma_lcs_bound<A>(a: Seq<A>, b: Seq<A>)
    ensures
        lcs_len(a, b) <= a.len(),
        lcs_len(a, b) <= b.len(),
    decreases a.len() + b.len(),
{
    if a.len() > 0 && b.len() > 0 {
        lemma_lcs_bound(a.drop_last(), b);
        lemma_lcs_bound(a, b.drop_last());
        lemma_lcs_bound(a.drop_last(), b.drop_last());
    }
}

proof fn lemma_lcs_drop_b<A>(a: Seq<A>, b: Seq<A>)
    requires
        b.len() > 0,
    ensures
        lcs_len(a, b) <= lcs_len(a, b.drop_last()) + 1,
    decreases a.len(),
{
    if a.len() > 0 {
        lemma_lcs_drop_b(a.drop_last(), b);
        lemma_lcs_mono(a, b.drop_last());
    }
}

proof fn lemma_lcs_drop_a<A>(a: Seq<A>, b: Seq<A>)
    requires
        a.len() > 0,
    ensures
        lcs_len(a, b) <= lcs_len(a.drop_last(), b) + 1,
    decreases b.len(),
{
    if b.len() > 0 {
        lemma_lcs_drop_a(a, b.drop_last());
        lemma_lcs_mono(a.drop_last(), b);
    }
}

/// The table step of the longest common subsequence: with equal last elements it is one longer
/// than that of the two shorter sequences, else the longer of the two with one element less.
pub proof fn lemma_lcs_step<A>(a: Seq<A>, b: Seq<A>)
    requires
        a.len() > 0,
        b.len() > 0,
    ensures
        a.last() == b.last() ==> lcs_len(a, b) == lcs_len(a.drop_last(), b.drop_last()) + 1,
        a.last() != b.last() ==> lcs_len(a, b) == max_nat(
            lcs_len(a.drop_last(), b),
            lcs_len(a, b.drop_last()),
        ),
{
    if a.last() == b.last() {
        lemma_lcs_drop_b(a.drop_last(), b);
        lemma_lcs_drop_a(a, b.drop_last());
    }
}

/// No in-order pairing of equal elements is longer than a longest common subsequence.
pub proof fn lemma_matching_le_lcs<A>(m: Seq<(int, int)>, a: Seq<A>, b: Seq<A>)
    requires
        is_matching(m, a, b),
    ensures
        m.len() <= lcs_len(a, b),
    decreases a.len() + b.len(),
{
    if m.len() > 0 {
        let n = m.len() - 1;
        let p = m[n];
        assert(0 <= p.0 < a.len() && 0 <= p.1 < b.len());
        if p.0 < a.len() - 1 {
            let a2 = a.drop_last();
            assert forall|k: int| 0 <= k < m.len() implies 0 <= (#[trigger] m[k]).0 < a2.len() && 0
                <= m[k].1 < b.len() && a2[m[k].0] == b[m[k].1] by {
                if k < n {
                    assert(m[k].0 < m[n].0);
                }
            }
            lemma_matching_le_lcs(m, a2, b);
            lemma_lcs_mono(a, b);
        } else if p.1 < b.len() - 1 {
            let b2 = b.drop_last();
            assert forall|k: int| 0 <= k < m.len() implies 0 <= (#[trigger] m[k]).0 < a.len() && 0
                <= m[k].1 < b2.len() && a[m[k].0] == b2[m[k].1] by {
                if k < n {
                    assert(m[k].1 < m[n].1);
                }
            }
            lemma_matching_le_lcs(m, a, b2);
            lemma_lcs_mono(a, b);
        } else {
            let a2 = a.drop_last();
            let b2 = b.drop_last();
            let m2 = m.drop_last();
            assert forall|k: int| 0 <= k < m2.len() implies 0 <= (#[trigger] m2[k]).0 < a2.len() && 0
                <= m2[k].1 < b2.len() && a2[m2[k].0] == b2[m2[k].1] by {
                assert(m2[k] == m[k]);
                assert(m[k].0 < m[n].0 && m[k].1 < m[n].1);
            }
            assert forall|k: int, l: int| 0 <= k < l < m2.len() implies (#[trigger] m2[k]).0 < (
            #[trigger] m2[l]).0 && m2[k].1 < m2[l].1 by {
                assert(m2[k] == m[k] && m2[l] == m[l]);
            }
            lemma_matching_le_lcs(m2, a2, b2);
            assert(a.last() == b.last());
        }
    }
}

/// A longest common subsequence, as the pairs of positions it takes from `a` and `b`.
pub open spec fn lcs_witness<A>(a: Seq<A>, b: Seq<A>) -> Seq<(int, int)>
    decreases a.len() + b.len(),
{
    if a.len() == 0 || b.len() == 0 {
        Seq::empty()
    } else if lcs_len(a, b) == lcs_len(a.drop_last(), b) {
        lcs_witness(a.drop_last(), b)
    } else if lcs_len(a, b) == lcs_len(a, b.drop_last()) {
        lcs_witness(a, b.drop_last())
    } else {
        lcs_witness(a.drop_last(), b.drop_last()).push((a.len() - 1, b.len() - 1))
    }
}

/// Some in-order pairing of equal elements is as long as a longest common subsequence.
pub proof fn lemma_lcs_witness<A>(a: Seq<A>, b: Seq<A>)
    ensures
        is_matching(lcs_witness(a, b), a, b),
        lcs_witness(a, b).len() == lcs_len(a, b),
    decreases a.len() + b.len(),
{
    if a.len() > 0 && b.len() > 0 {
        let a2 = a.drop_last();
        let b2 = b.drop_last();
        let w = lcs_witness(a, b);
        if lcs_len(a, b) == lcs_len(a2, b) {
            lemma_lcs_witness(a2, b);
            assert forall|k: int| 0 <= k < w.len() implies 0 <= (#[trigger] w[k]).0 < a.len() && 0
                <= w[k].1 < b.len() && a[w[k].0] == b[w[k].1] by {
                assert(a2[w[k].0] == a[w[k].0]);
            }
        } else if lcs_len(a, b) == lcs_len(a, b2) {
            lemma_lcs_witness(a, b2);
            assert forall|k: int| 0 <= k < w.len() implies 0 <= (#[trigger] w[k]).0 < a.len() && 0
                <= w[k].1 < b.len() && a[w[k].0] == b[w[k].1] by {
                assert(b2[w[k].1] == b[w[k].1]);
            }
        } else {
            lemma_lcs_witness(a2, b2);
            let w2 = lcs_witness(a2, b2);
            assert(a.last() == b.last());
            assert(w == w2.push((a.len() - 1, b.len() - 1)));
            assert forall|k: int| 0 <= k < w.len() implies 0 <= (#[trigger] w[k]).0 < a.len() && 0
                <= w[k].1 < b.len() && a[w[k].0] == b[w[k].1] by {
                if k < w2.len() {
                    assert(w[k] == w2[k]);
                    assert(a2[w2[k].0] == a[w2[k].0]);
                    assert(b2[w2[k].1] == b[w2[k].1]);
                }
            }
            assert forall|k: int, l: int| 0 <= k < l < w.len() implies (#[trigger] w[k]).0 < (
            #[trigger] w[l]).0 && w[k].1 < w[l].1 by {
                assert(w[k] == w2[k]);
                if l < w2.len() {
                    assert(w[l] == w2[l]);
                }
            }
        }
    }
}

/// The pairing of the reversed sequences that reverses `m`.
pub open spec fn rev_matching(m: Seq<(int, int)>, alen: int, blen: int) -> Seq<(int, int)> {
    Seq::new(m.len(), |k: int| (alen - 1 - m[m.len() - 1 - k].0, blen - 1 - m[m.len() - 1 - k].1))
}

proof fn lemma_rev_matching<A>(m: Seq<(int, int)>, a: Seq<A>, b: Seq<A>)
    requires
        is_matching(m, a, b),
    ensures
        is_matching(rev_matching(m, a.len() as int, b.len() as int), rev(a), rev(b)),
        rev_matching(m, a.len() as int, b.len() as int).len() == m.len(),
{
    let r = rev_matching(m, a.len() as int, b.len() as int);
    assert forall|k: int| 0 <= k < r.len() implies 0 <= (#[trigger] r[k]).0 < rev(a).len() && 0
        <= r[k].1 < rev(b).len() && rev(a)[r[k].0] == rev(b)[r[k].1] by {
        let q = m[m.len() - 1 - k];
        assert(0 <= q.0 < a.len() && 0 <= q.1 < b.len() && a[q.0] == b[q.1]);
    }
    assert forall|k: int, l: int| 0 <= k < l < r.len() implies (#[trigger] r[k]).0 < (
    #[trigger] r[l]).0 && r[k].1 < r[l].1 by {
        let qk = m[m.len() - 1 - k];
        let ql = m[m.len() - 1 - l];
        assert(ql.0 < qk.0 && ql.1 < qk.1);
    }
}

/// Reading both sequences backwards keeps the length of their longest common subsequence.
pub proof fn lemma_lcs_rev<A>(a: Seq<A>, b: Seq<A>)
    ensures
        lcs_len(rev(a), rev(b)) == lcs_len(a, b),
{
    lemma_lcs_witness(a, b);
    lemma_rev_matching(lcs_witness(a, b), a, b);
    lemma_matching_le_lcs(rev_matching(lcs_witness(a, b), a.len() as int, b.len() as int), rev(a), rev(b));
    let ra = rev(a);
    let rb = rev(b);
    lemma_lcs_witness(ra, rb);
    lemma_rev_matching(lcs_witness(ra, rb), ra, rb);
    assert(rev(ra) =~= a);
    assert(rev(rb) =~= b);
    lemma_matching_le_lcs(rev_matching(lcs_witness(ra, rb), ra.len() as int, rb.len() as int), a, b);
}

/// No split of the two sequences scores more than their longest common subsequence.
pub proof fn lemma_split_le<A>(a: Seq<A>, b: Seq<A>, h: int, k: int)
    requires
        0 <= h <= a.len(),
        0 <= k <= b.len(),
    ensures
        split_score(a, b, h, k) <= lcs_len(a, b),
{
    let a1 = a.take(h);
    let b1 = b.take(k);
    let a2 = a.skip(h);
    let b2 = b.skip(k);
    lemma_lcs_witness(a1, b1);
    lemma_lcs_witness(a2, b2);
    let w1 = lcs_witness(a1, b1);
    let w2 = lcs_witness(a2, b2);
    let shifted = Seq::new(w2.len(), |i: int| (w2[i].0 + h, w2[i].1 + k));
    let m = w1 + shifted;
    assert forall|i: int| 0 <= i < m.len() implies 0 <= (#[trigger] m[i]).0 < a.len() && 0 <= m[i].1
        < b.len() && a[m[i].0] == b[m[i].1] by {
        if i < w1.len() {
            assert(m[i] == w1[i]);
            assert(a1[w1[i].0] == a[w1[i].0]);
            assert(b1[w1[i].1] == b[w1[i].1]);
        } else {
            let j = i - w1.len();
            assert(m[i] == shifted[j]);
            assert(a2[w2[j].0] == a[w2[j].0 + h]);
            assert(b2[w2[j].1] == b[w2[j].1 + k]);
        }
    }
    assert forall|i: int, l: int| 0 <= i < l < m.len() implies (#[trigger] m[i]).0 < (
    #[trigger] m[l]).0 && m[i].1 < m[l].1 by {
        if l < w1.len() {
            assert(m[i] == w1[i] && m[l] == w1[l]);
        } else if i >= w1.len() {
            assert(m[i] == shifted[i - w1.len()] && m[l] == shifted[l - w1.len()]);
        } else {
            assert(m[i] == w1[i] && m[l] == shifted[l - w1.len()]);
            assert(w1[i].0 < h && w1[i].1 < k);
            assert(0 <= w2[l - w1.len()].0 && 0 <= w2[l - w1.len()].1);
        }
    }
    lemma_matching_le_lcs(m, a, b);
}

/// How many of the first pairs of `w` take an element of `a` before position `h`.
pub open spec fn count_below(w: Seq<(int, int)>, h: int) -> int
    decreases w.len(),
{
    if w.len() == 0 {
        0
    } else if w.last().0 < h {
        w.len() as int
    } else {
        count_below(w.drop_last(), h)
    }
}

proof fn lemma_count_below(w: Seq<(int, int)>, h: int)
    requires
        forall|k: int, l: int| 0 <= k < l < w.len() ==> (#[trigger] w[k]).0 < (#[trigger] w[l]).0,
    ensures
        0 <= count_below(w, h) <= w.len(),
        forall|i: int| 0 <= i < count_below(w, h) ==> (#[trigger] w[i]).0 < h,
        forall|i: int| count_below(w, h) <= i < w.len() ==> (#[trigger] w[i]).0 >= h,
    decreases w.len(),
{
    if w.len() > 0 {
        let n = w.len() - 1;
        if w.last().0 < h {
            assert forall|i: int| 0 <= i < w.len() implies (#[trigger] w[i]).0 < h by {
                if i < n {
                    assert(w[i].0 < w[n].0);
                }
            }
        } else {
            let w2 = w.drop_last();
            assert forall|k: int, l: int| 0 <= k < l < w2.len() implies (#[trigger] w2[k]).0 < (
            #[trigger] w2[l]).0 by {
                assert(w2[k] == w[k] && w2[l] == w[l]);
            }
            lemma_count_below(w2, h);
            assert forall|i: int| 0 <= i < count_below(w, h) implies (#[trigger] w[i]).0 < h by {
                assert(w[i] == w2[i]);
            }
            assert forall|i: int| count_below(w, h) <= i < w.len() implies (#[trigger] w[i]).0 >= h by {
                if i < n {
                    assert(w[i] == w2[i]);
                }
            }
        }
    }
}

/// Some split of `b` scores, against the split of `a` after `h` elements, as much as the
/// longest common subsequence of `a` and `b`.
pub proof fn lemma_split_attained<A>(a: Seq<A>, b: Seq<A>, h: int)
    requires
        0 <= h <= a.len(),
    ensures
        exists|k: int| 0 <= k <= b.len() && #[trigger] split_score(a, b, h, k) >= lcs_len(a, b),
{
    lemma_lcs_witness(a, b);
    let w = lcs_witness(a, b);
    lemma_count_below(w, h);
    let c = count_below(w, h);
    let k = if c < w.len() {
        w[c].1
    } else {
        b.len() as int
    };
    assert(0 <= k <= b.len());
    let left = w.take(c);
    let right = Seq::new((w.len() - c) as nat, |i: int| (w[c + i].0 - h, w[c + i].1 - k));
    let a1 = a.take(h);
    let b1 = b.take(k);
    let a2 = a.skip(h);
    let b2 = b.skip(k);
    assert forall|i: int| 0 <= i < left.len() implies 0 <= (#[trigger] left[i]).0 < a1.len() && 0
        <= left[i].1 < b1.len() && a1[left[i].0] == b1[left[i].1] by {
        assert(left[i] == w[i]);
        assert(w[i].0 < h);
        if c < w.len() {
            assert(w[i].1 < w[c].1);
        }
    }
    assert forall|i: int, l: int| 0 <= i < l < left.len() implies (#[trigger] left[i]).0 < (
    #[trigger] left[l]).0 && left[i].1 < left[l].1 by {
        assert(left[i] == w[i] && left[l] == w[l]);
    }
    lemma_matching_le_lcs(left, a1, b1);
    assert forall|i: int| 0 <= i < right.len() implies 0 <= (#[trigger] right[i]).0 < a2.len() && 0
        <= right[i].1 < b2.len() && a2[right[i].0] == b2[right[i].1] by {
        assert(w[c + i].0 >= h);
        if i > 0 {
            assert(w[c].1 < w[c + i].1);
        }
        assert(a2[right[i].0] == a[w[c + i].0]);
        assert(b2[right[i].1] == b[w[c + i].1]);
    }
    assert forall|i: int, l: int| 0 <= i < l < right.len() implies (#[trigger] right[i]).0 < (
    #[trigger] right[l]).0 && right[i].1 < right[l].1 by {
        assert(w[c + i].0 < w[c + l].0 && w[c + i].1 < w[c + l].1);
    }
    lemma_matching_le_lcs(right, a2, b2);
    assert(split_score(a, b, h, k) >= lcs_len(a, b));
}

/// Appending the same elements to both sequences lengthens their longest common subsequence
/// by that many elements at least.
pub proof fn lemma_lcs_append_both<A>(a: Seq<A>, b: Seq<A>, l: Seq<A>)
    ensures
        lcs_len(a + l, b + l) >= lcs_len(a, b) + l.len(),
    decreases l.len(),
{
    if l.len() > 0 {
        lemma_lcs_append_both(a, b, l.drop_last());
        let x = a + l;
        let y = b + l;
        assert(x.drop_last() =~= a + l.drop_last());
        assert(y.drop_last() =~= b + l.drop_last());
        lemma_lcs_step(x, y);
    } else {
        assert(a + l =~= a);
        assert(b + l =~= b);
    }
}

/// Appending elements to the first sequence never shortens the longest common subsequence.
pub proof fn lemma_lcs_append_a<A>(a: Seq<A>, b: Seq<A>, l: Seq<A>)
    ensures
        lcs_len(a + l, b) >= lcs_len(a, b),
    decreases l.len(),
{
    if l.len() > 0 {
        lemma_lcs_append_a(a, b, l.drop_last());
        assert((a + l).drop_last() =~= a + l.drop_last());
        lemma_lcs_mono(a + l, b);
    } else {
        assert(a + l =~= a);
    }
}

/// Appending elements to the second sequence never shortens the longest common subsequence.
pub proof fn lemma_lcs_append_b<A>(a: Seq<A>, b: Seq<A>, l: Seq<A>)
    ensures
        lcs_len(a, b + l) >= lcs_len(a, b),
    decreases l.len(),
{
    if l.len() > 0 {
        lemma_lcs_append_b(a, b, l.drop_last());
        assert((b + l).drop_last() =~= b + l.drop_last());
        lemma_lcs_mono(a, b + l);
    } else {
        assert(b + l =~= b);
    }
}

} // verus!
