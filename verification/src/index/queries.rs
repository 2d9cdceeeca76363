//! The index queries' own logic: the commit filter, the time window and the file list order.
use crate::attribution::patch_inference::{fields_accepted, texts, FilterMatcher};
use crate::error::AppError;
use crate::json::{opt_text, ChangedFileOutput};
use crate::text::str_eq;
use globset::{Glob, GlobSetBuilder};
use vstd::prelude::*;

verus! {

/// The counts an index holds and when it was last updated.
pub struct IndexStatusRecord {
    pub indexed_commit_count: u64,
    pub indexed_file_count: u64,
    pub updated_at: Option<String>,
}

/// What a file query asks for: a commit range and the review filter.
pub struct QueryFilesFilter {
    pub base: String,
    pub head: String,
    pub authors: Vec<String>,
    pub author_query: Option<String>,
    pub message: Option<String>,
    pub since: Option<String>,
    pub until: Option<String>,
    pub globs: Vec<String>,
}

/// A commit as the index lists it for filtering.
pub struct CommitRow {
    pub hash: String,
    pub author_key: String,
    pub author_name: String,
    pub author_email: String,
    pub subject: String,
    pub committed_at: String,
}

/// The instant an RFC 3339 text denotes, as seconds since the Unix epoch and nanoseconds within
/// the second; nothing for a text that is not RFC 3339.
pub uninterp spec fn rfc3339_instant(text: Seq<char>) -> Option<(i64, u32)>;

/// Parses RFC 3339 text with `chrono::DateTime::parse_from_rfc3339` and gives the instant's
/// epoch seconds and nanoseconds; on failure, chrono's message.
#[verifier::external_body]
fn parse_rfc3339(text: &str) -> (r: Result<(i64, u32), String>)
    ensures
        match r {
            Ok(t) => rfc3339_instant(text@) == Some(t),
            Err(_) => rfc3339_instant(text@) is None,
        },
{
    match chrono::DateTime::parse_from_rfc3339(text) {
        Ok(t) => Ok((t.timestamp(), t.timestamp_subsec_nanos())),
        Err(e) => Err(e.to_string()),
    }
}

/// The prefix of the message for a time that is not RFC 3339.
pub open spec fn bad_time_prefix(field: Seq<char>) -> Seq<char> {
    field + " 时间格式无效："@
}

/// The instant of a filter time, or an invalid-argument failure that names the field.
pub fn parse_filter_time(value: &str, field: &str) -> (r: Result<(i64, u32), AppError>)
    ensures
        match rfc3339_instant(value@) {
            Some(t) => r == Ok::<(i64, u32), AppError>(t),
            None => r matches Err(AppError::InvalidArgument(m)) && bad_time_prefix(field@).len()
                <= m@.len() && m@.subrange(0, bad_time_prefix(field@).len() as int)
                == bad_time_prefix(field@),
        },
{
    match parse_rfc3339(value) {
        Ok(t) => Ok(t),
        Err(e) => {
            let mut m = String::from_str(field);
            m.append(" 时间格式无效：");
            let ghost prefix = m@;
            m.append(e.as_str());
            assert(m@.subrange(0, prefix.len() as int) =~= prefix);
            Err(AppError::InvalidArgument(m))
        },
    }
}

/// The instant of an optional filter time.
pub fn parse_optional_filter_time(value: Option<&str>, field: &str) -> (r: Result<
    Option<(i64, u32)>,
    AppError,
>)
    ensures
        match value {
            None => r == Ok::<Option<(i64, u32)>, AppError>(None),
            Some(v) => match rfc3339_instant(v@) {
                Some(t) => r == Ok::<Option<(i64, u32)>, AppError>(Some(t)),
                None => r matches Err(AppError::InvalidArgument(_)),
            },
        },
{
    match value {
        Some(v) => match parse_filter_time(v, field) {
            Ok(t) => Ok(Some(t)),
            Err(e) => Err(e),
        },
        None => Ok(None),
    }
}

/// `a` is no later than `b`.
pub open spec fn instant_le(a: (i64, u32), b: (i64, u32)) -> bool {
    a.0 < b.0 || (a.0 == b.0 && a.1 <= b.1)
}

/// Whether an instant lies in the optional bounds, both inclusive.
pub open spec fn in_window(t: (i64, u32), since: Option<(i64, u32)>, until: Option<(i64, u32)>) -> bool {
    (since matches Some(s) ==> instant_le(s, t)) && (until matches Some(u) ==> instant_le(t, u))
}

fn instant_le_exec(a: (i64, u32), b: (i64, u32)) -> (r: bool)
    ensures
        r == instant_le(a, b),
{
    a.0 < b.0 || (a.0 == b.0 && a.1 <= b.1)
}

/// A commit row passes the filter and its time lies in the window.
pub open spec fn row_passes(
    filter: FilterMatcher,
    since: Option<(i64, u32)>,
    until: Option<(i64, u32)>,
    row: CommitRow,
) -> bool {
    &&& rfc3339_instant(row.committed_at@) matches Some(t) && in_window(t, since, until)
    &&& fields_accepted(
        filter.authors_view(),
        filter.author_query_view(),
        filter.message_view(),
        row.author_key@,
        row.author_name@,
        Some(row.author_email@),
        row.subject@,
    )
}

/// An instant as nanoseconds since the Unix epoch.
pub open spec fn epoch_nanos(t: (i64, u32)) -> int {
    t.0 * 1_000_000_000 + t.1
}

proof fn lemma_instant_order(a: (i64, u32), b: (i64, u32))
    requires
        a.1 < 1_000_000_000,
        b.1 < 1_000_000_000,
    ensures
        instant_le(a, b) <==> epoch_nanos(a) <= epoch_nanos(b),
{
    if a.0 < b.0 {
        assert(a.0 * 1_000_000_000 + 1_000_000_000 <= b.0 * 1_000_000_000) by (nonlinear_arith)
            requires
                a.0 < b.0,
        ;
    } else if a.0 > b.0 {
        assert(b.0 * 1_000_000_000 + 1_000_000_000 <= a.0 * 1_000_000_000) by (nonlinear_arith)
            requires
                b.0 < a.0,
        ;
    }
}

/// `a` is strictly later than `b`: a later second, or the same second and more nanoseconds.
pub open spec fn strictly_later(a: (i64, u32), b: (i64, u32)) -> bool {
    a.0 > b.0 || (a.0 == b.0 && a.1 > b.1)
}

/// An instant lies in the window exactly when it is no earlier than `since` and no later than
/// `until`, comparing instants (with less than a second of nanoseconds) by their time since
/// the epoch.
pub proof fn lemma_window_by_time(t: (i64, u32), since: Option<(i64, u32)>, until: Option<(i64, u32)>)
    requires
        t.1 < 1_000_000_000,
        since matches Some(s) ==> s.1 < 1_000_000_000,
        until matches Some(u) ==> u.1 < 1_000_000_000,
    ensures
        in_window(t, since, until) <==> (since matches Some(s) ==> epoch_nanos(s) <= epoch_nanos(t)) && (
        until matches Some(u) ==> epoch_nanos(t) <= epoch_nanos(u)),
{
    if let Some(s) = since {
        lemma_instant_order(s, t);
    }
    if let Some(u) = until {
        lemma_instant_order(t, u);
    }
}

/// A row whose time is later than `until` adds no commit: its hash is not listed after those
/// of the rows before it.
pub proof fn lemma_late_row_not_listed(
    filter: FilterMatcher,
    since: Option<(i64, u32)>,
    u: (i64, u32),
    rows: Seq<CommitRow>,
    row: CommitRow,
)
    requires
        rfc3339_instant(row.committed_at@) matches Some(t) && strictly_later(t, u),
    ensures
        passing_hashes(filter, since, Some(u), rows.push(row)) == passing_hashes(filter, since, Some(u), rows),
{
    assert(rows.push(row).drop_last() =~= rows);
}

/// A row whose time is earlier than `since` adds no commit.
pub proof fn lemma_early_row_not_listed(
    filter: FilterMatcher,
    s: (i64, u32),
    until: Option<(i64, u32)>,
    rows: Seq<CommitRow>,
    row: CommitRow,
)
    requires
        rfc3339_instant(row.committed_at@) matches Some(t) && strictly_later(s, t),
    ensures
        passing_hashes(filter, Some(s), until, rows.push(row)) == passing_hashes(filter, Some(s), until, rows),
{
    assert(rows.push(row).drop_last() =~= rows);
}

/// A row whose time is neither earlier than `since` nor later than `until`, and whose fields the
/// filter accepts, adds its commit after those of the rows before it.
pub proof fn lemma_window_row_listed(
    filter: FilterMatcher,
    since: Option<(i64, u32)>,
    until: Option<(i64, u32)>,
    rows: Seq<CommitRow>,
    row: CommitRow,
)
    requires
        rfc3339_instant(row.committed_at@) matches Some(t) && (since matches Some(s) ==> !strictly_later(s, t))
            && (until matches Some(u) ==> !strictly_later(t, u)),
        fields_accepted(
            filter.authors_view(),
            filter.author_query_view(),
            filter.message_view(),
            row.author_key@,
            row.author_name@,
            Some(row.author_email@),
            row.subject@,
        ),
    ensures
        passing_hashes(filter, since, until, rows.push(row)) == passing_hashes(filter, since, until, rows).push(
            row.hash@,
        ),
{
    assert(rows.push(row).drop_last() =~= rows);
}

/// The first row, by position, whose time is not RFC 3339.
pub open spec fn first_bad_time(rows: Seq<CommitRow>) -> Option<int>
    decreases rows.len(),
{
    if rows.len() == 0 {
        None
    } else {
        match first_bad_time(rows.drop_last()) {
            Some(k) => Some(k),
            None => if rfc3339_instant(rows.last().committed_at@) is None {
                Some(rows.len() - 1)
            } else {
                None
            },
        }
    }
}

/// The hashes of the rows that pass, in order.
pub open spec fn passing_hashes(
    filter: FilterMatcher,
    since: Option<(i64, u32)>,
    until: Option<(i64, u32)>,
    rows: Seq<CommitRow>,
) -> Seq<Seq<char>>
    decreases rows.len(),
{
    if rows.len() == 0 {
        Seq::empty()
    } else {
        let prev = passing_hashes(filter, since, until, rows.drop_last());
        if row_passes(filter, since, until, rows.last()) {
            prev.push(rows.last().hash@)
        } else {
            prev
        }
    }
}

/// The hashes of the commits that pass the filter within the time window, in row order; a row
/// whose time is not RFC 3339 fails the query.
pub fn matching_commit_hashes(
    filter: &FilterMatcher,
    since: Option<(i64, u32)>,
    until: Option<(i64, u32)>,
    rows: &[CommitRow],
) -> (r: Result<Vec<String>, AppError>)
    ensures
        first_bad_time(rows@) is None ==> (r matches Ok(v) && texts(v@) == passing_hashes(
            *filter,
            since,
            until,
            rows@,
        )),
        first_bad_time(rows@) is Some ==> r matches Err(AppError::InvalidArgument(_)),
{
    let mut hashes: Vec<String> = Vec::new();
    let mut i: usize = 0;
    while i < rows.len()
        invariant
            i <= rows.len(),
            first_bad_time(rows@.take(i as int)) is None,
            texts(hashes@) == passing_hashes(*filter, since, until, rows@.take(i as int)),
        decreases rows.len() - i,
    {
        assert(rows@.take(i + 1).drop_last() =~= rows@.take(i as int));
        assert(rows@.take(i + 1).last() == rows@[i as int]);
        let row = &rows[i];
        let t = match parse_filter_time(row.committed_at.as_str(), "committed_at") {
            Ok(t) => t,
            Err(e) => {
                proof {
                    lemma_bad_time_prefix(rows@, i + 1);
                }
                return Err(e);
            },
        };
        let in_range = match since {
            Some(s) => instant_le_exec(s, t),
            None => true,
        } && match until {
            Some(u) => instant_le_exec(t, u),
            None => true,
        };
        if in_range && filter.matches_fields(
            row.author_key.as_str(),
            row.author_name.as_str(),
            Some(row.author_email.as_str()),
            row.subject.as_str(),
        ) {
            let ghost before = hashes@;
            let h = row.hash.clone();
            hashes.push(h);
            assert(texts(hashes@) =~= texts(before).push(h@));
        }
        i += 1;
    }
    assert(rows@.take(rows.len() as int) =~= rows@);
    Ok(hashes)
}

proof fn lemma_bad_time_prefix(rows: Seq<CommitRow>, n: int)
    requires
        0 <= n <= rows.len(),
        first_bad_time(rows.take(n)) is Some,
    ensures
        first_bad_time(rows) is Some,
    decreases rows.len() - n,
{
    if n < rows.len() {
        assert(rows.take(n + 1).drop_last() =~= rows.take(n));
        lemma_bad_time_prefix(rows, n + 1);
    } else {
        assert(rows.take(n) =~= rows);
    }
}

/// The message for a range end that the index does not hold.
pub open spec fn unindexed_message(which: Seq<char>, hash: Seq<char>) -> Seq<char> {
    "查询范围 "@ + which + " "@ + hash + " 未被索引，请先执行 index build"@
}

/// Refuses a range whose head, then whose base, the index does not hold.
pub fn check_range_indexed(base: &str, head: &str, head_indexed: bool, base_indexed: bool) -> (r: Result<
    (),
    AppError,
>)
    ensures
        !head_indexed ==> (r matches Err(AppError::IndexUnavailable(m)) && m@ == unindexed_message(
            "head"@,
            head@,
        )),
        head_indexed && !base_indexed ==> (r matches Err(AppError::IndexUnavailable(m)) && m@
            == unindexed_message("base"@, base@)),
        head_indexed && base_indexed ==> r == Ok::<(), AppError>(()),
{
    if !head_indexed {
        let mut m = String::from_str("查询范围 head ");
        m.append(head);
        m.append(" 未被索引，请先执行 index build");
        proof {
            reveal_strlit("查询范围 head ");
            reveal_strlit("查询范围 ");
            reveal_strlit("head");
            reveal_strlit(" ");
        }
        assert(m@ =~= unindexed_message("head"@, head@));
        return Err(AppError::IndexUnavailable(m));
    }
    if !base_indexed {
        let mut m = String::from_str("查询范围 base ");
        m.append(base);
        m.append(" 未被索引，请先执行 index build");
        proof {
            reveal_strlit("查询范围 base ");
            reveal_strlit("查询范围 ");
            reveal_strlit("base");
            reveal_strlit(" ");
        }
        assert(m@ =~= unindexed_message("base"@, base@));
        return Err(AppError::IndexUnavailable(m));
    }
    Ok(())
}

/// The rules of a glob list split into those that select files and those that reject them (written
/// with a leading `'!'`, which is dropped), each in order.
pub open spec fn glob_rules_spec(rules: Seq<Seq<char>>) -> (Seq<Seq<char>>, Seq<Seq<char>>)
    decreases rules.len(),
{
    if rules.len() == 0 {
        (Seq::empty(), Seq::empty())
    } else {
        let (inc, exc) = glob_rules_spec(rules.drop_last());
        let r = rules.last();
        if r.len() > 0 && r[0] == '!' {
            (inc, exc.push(r.drop_first()))
        } else {
            (inc.push(r), exc)
        }
    }
}

/// Splits glob rules into including and excluding patterns.
pub fn split_glob_rules(rules: &[String]) -> (r: (Vec<String>, Vec<String>))
    ensures
        (texts(r.0@), texts(r.1@)) == glob_rules_spec(texts(rules@)),
{
    let mut inc: Vec<String> = Vec::new();
    let mut exc: Vec<String> = Vec::new();
    let mut i: usize = 0;
    while i < rules.len()
        invariant
            i <= rules.len(),
            (texts(inc@), texts(exc@)) == glob_rules_spec(texts(rules@).take(i as int)),
        decreases rules.len() - i,
    {
        assert(texts(rules@).take(i + 1).drop_last() =~= texts(rules@).take(i as int));
        assert(texts(rules@).take(i + 1).last() == rules@[i as int]@);
        let chars = crate::text::chars_of(rules[i].as_str());
        if chars.len() > 0 && chars[0] == '!' {
            let ghost before = exc@;
            let p = crate::text::string_from_chars(&chars, 1, chars.len());
            assert(p@ =~= rules@[i as int]@.drop_first());
            exc.push(p);
            assert(texts(exc@) =~= texts(before).push(p@));
        } else {
            let ghost before = inc@;
            let p = rules[i].clone();
            inc.push(p);
            assert(texts(inc@) =~= texts(before).push(p@));
        }
        i += 1;
    }
    assert(texts(rules@).take(rules.len() as int) =~= texts(rules@));
    (inc, exc)
}

/// `a` comes strictly before `b` in the lexicographic order of their characters, which for
/// UTF-8 text is the byte order that `str` compares by.
pub open spec fn text_lt(a: Seq<char>, b: Seq<char>) -> bool
    decreases a.len(),
{
    if b.len() == 0 {
        false
    } else if a.len() == 0 {
        true
    } else if a[0] != b[0] {
        a[0] < b[0]
    } else {
        text_lt(a.drop_first(), b.drop_first())
    }
}

/// Whether `a` comes strictly before `b`.
pub fn text_less(a: &str, b: &str) -> (r: bool)
    ensures
        r == text_lt(a@, b@),
{
    let x = crate::text::chars_of(a);
    let y = crate::text::chars_of(b);
    let mut i: usize = 0;
    assert(a@.skip(0) =~= a@);
    assert(b@.skip(0) =~= b@);
    while i < x.len() && i < y.len()
        invariant
            i <= x@.len(),
            i <= y@.len(),
            x@ == a@,
            y@ == b@,
            text_lt(a@, b@) == text_lt(a@.skip(i as int), b@.skip(i as int)),
        decreases x.len() - i,
    {
        assert(a@.skip(i as int)[0] == x@[i as int]);
        assert(b@.skip(i as int)[0] == y@[i as int]);
        if x[i] != y[i] {
            return x[i] < y[i];
        }
        assert(a@.skip(i as int).drop_first() =~= a@.skip(i + 1));
        assert(b@.skip(i as int).drop_first() =~= b@.skip(i + 1));
        i += 1;
    }
    i < y.len()
}

/// The path and old path of a changed file.
pub open spec fn file_key(f: ChangedFileOutput) -> (Seq<char>, Option<Seq<char>>) {
    (f.path@, opt_text(f.old_path))
}

/// A file list ordered by path: no file's path comes before the previous one's.
pub open spec fn sorted_by_path(v: Seq<ChangedFileOutput>) -> bool {
    forall|i: int, j: int| 0 <= i < j < v.len() ==> !text_lt((#[trigger] v[j]).path@, (#[trigger] v[i]).path@)
}

/// Two lists hold the same files, counted with multiplicity.
pub open spec fn same_files(a: Seq<ChangedFileOutput>, b: Seq<ChangedFileOutput>) -> bool {
    a.to_multiset() == b.to_multiset()
}

proof fn lemma_text_lt_total(a: Seq<char>, b: Seq<char>)
    ensures
        !text_lt(a, b) && !text_lt(b, a) ==> a == b,
        text_lt(a, b) ==> !text_lt(b, a),
    decreases a.len(),
{
    if a.len() > 0 && b.len() > 0 && a[0] == b[0] {
        lemma_text_lt_total(a.drop_first(), b.drop_first());
        if !text_lt(a, b) && !text_lt(b, a) {
            assert(a =~= seq![a[0]] + a.drop_first());
            assert(b =~= seq![b[0]] + b.drop_first());
        }
    } else if a.len() == 0 && b.len() == 0 {
        assert(a =~= b);
    }
}

proof fn lemma_text_lt_trans(a: Seq<char>, b: Seq<char>, c: Seq<char>)
    requires
        !text_lt(b, a),
        !text_lt(c, b),
    ensures
        !text_lt(c, a),
    decreases a.len(),
{
    lemma_text_lt_total(a, b);
    lemma_text_lt_total(b, c);
    if a.len() > 0 && b.len() > 0 && c.len() > 0 && a[0] == b[0] && b[0] == c[0] {
        lemma_text_lt_trans(a.drop_first(), b.drop_first(), c.drop_first());
    }
}

/// Whether a file's path is `p`.
pub open spec fn path_pred(p: Seq<char>) -> spec_fn(ChangedFileOutput) -> bool {
    |f: ChangedFileOutput| f.path@ == p
}

/// The files of a list whose path is `p`, in list order.
pub open spec fn with_path(v: Seq<ChangedFileOutput>, p: Seq<char>) -> Seq<ChangedFileOutput> {
    v.filter(path_pred(p))
}

proof fn lemma_insert_keeps_path_runs(
    before: Seq<ChangedFileOutput>,
    pos: int,
    f: ChangedFileOutput,
    p: Seq<char>,
)
    requires
        0 <= pos <= before.len(),
        forall|k: int| pos <= k < before.len() ==> text_lt(f.path@, (#[trigger] before[k]).path@),
    ensures
        with_path(before.insert(pos, f), p) == if f.path@ == p {
            with_path(before, p).push(f)
        } else {
            with_path(before, p)
        },
{
    let pred = path_pred(p);
    let front = before.take(pos);
    let back = before.skip(pos);
    assert(before.insert(pos, f) =~= front + seq![f] + back);
    assert(before =~= front + back);
    Seq::filter_distributes_over_add(front + seq![f], back, pred);
    Seq::filter_distributes_over_add(front, seq![f], pred);
    Seq::filter_distributes_over_add(front, back, pred);
    assert(seq![f] =~= Seq::<ChangedFileOutput>::empty().push(f));
    Seq::<ChangedFileOutput>::empty().lemma_filter_push(f, pred);
    assert(Seq::<ChangedFileOutput>::empty().filter(pred) =~= Seq::<ChangedFileOutput>::empty()) by {
        Seq::<ChangedFileOutput>::empty().lemma_filter_len(pred);
    }
    if f.path@ == p {
        assert(back.all(|x: ChangedFileOutput| !pred(x))) by {
            assert forall|k: int| 0 <= k < back.len() implies !pred(#[trigger] back[k]) by {
                assert(back[k] == before[pos + k]);
                assert(text_lt(f.path@, before[pos + k].path@));
                lemma_text_lt_total(f.path@, f.path@);
            }
        }
        back.lemma_all_neg_filter_empty(pred);
        assert(back.filter(pred) =~= Seq::<ChangedFileOutput>::empty());
        assert(front.filter(pred) + seq![f] + back.filter(pred) =~= (front.filter(pred) + back.filter(
            pred,
        )).push(f));
    } else {
        assert(seq![f].filter(pred) =~= Seq::<ChangedFileOutput>::empty());
        assert(front.filter(pred) + seq![f].filter(pred) =~= front.filter(pred));
    }
}

/// The files ordered by path, those of one path in the order they came: each path's files
/// are the same, in the same order, as in the input.
pub fn sort_files_by_path(files: Vec<ChangedFileOutput>) -> (sorted: Vec<ChangedFileOutput>)
    ensures
        sorted_by_path(sorted@),
        same_files(sorted@, files@),
        forall|p: Seq<char>| #[trigger] with_path(sorted@, p) == with_path(files@, p),
{
    let ghost original = files@;
    let mut remaining = files;
    let mut sorted: Vec<ChangedFileOutput> = Vec::new();
    let mut i: usize = 0;
    let total = remaining.len();
    assert(original.take(0) =~= sorted@);
    while remaining.len() > 0
        invariant
            total == original.len(),
            i + remaining@.len() == original.len(),
            remaining@ == original.skip(i as int),
            sorted_by_path(sorted@),
            sorted@.to_multiset() == original.take(i as int).to_multiset(),
            forall|p: Seq<char>| #[trigger] with_path(sorted@, p) == with_path(original.take(i as int), p),
        decreases remaining@.len(),
    {
        let f = remaining.remove(0);
        assert(f == original[i as int]);
        let mut pos: usize = sorted.len();
        while pos > 0 && text_less(f.path.as_str(), sorted[pos - 1].path.as_str())
            invariant
                pos <= sorted@.len(),
                sorted_by_path(sorted@),
                forall|k: int| pos <= k < sorted@.len() ==> text_lt(f.path@, (#[trigger] sorted@[k]).path@),
            decreases pos,
        {
            pos -= 1;
        }
        let ghost before = sorted@;
        proof {
            if pos > 0 {
                assert(!text_lt(f.path@, before[pos - 1].path@));
            }
        }
        sorted.insert(pos, f);
        proof {
            assert(sorted@ =~= before.insert(pos as int, f));
            assert forall|a: int, b: int| 0 <= a < b < sorted@.len() implies !text_lt(
                (#[trigger] sorted@[b]).path@,
                (#[trigger] sorted@[a]).path@,
            ) by {
                if b < pos {
                    assert(sorted@[a] == before[a] && sorted@[b] == before[b]);
                } else if b == pos {
                    assert(sorted@[a] == before[a]);
                    assert(!text_lt(f.path@, before[pos - 1].path@));
                    if a < pos - 1 {
                        assert(!text_lt(before[pos - 1].path@, before[a].path@));
                        lemma_text_lt_trans(before[a].path@, before[pos - 1].path@, f.path@);
                    }
                } else if a < pos {
                    assert(sorted@[a] == before[a] && sorted@[b] == before[b - 1]);
                } else if a == pos {
                    assert(sorted@[b] == before[b - 1]);
                    assert(text_lt(f.path@, before[b - 1].path@));
                    lemma_text_lt_total(f.path@, before[b - 1].path@);
                } else {
                    assert(sorted@[a] == before[a - 1] && sorted@[b] == before[b - 1]);
                }
            }
            before.insert_ensures(pos as int, f);
            vstd::seq_lib::lemma_multiset_commutative(original.take(i as int), seq![f]);
            assert(original.take(i + 1) =~= original.take(i as int) + seq![f]);
            assert(before.insert(pos as int, f) =~= before.take(pos as int) + seq![f] + before.skip(pos as int));
            vstd::seq_lib::lemma_multiset_commutative(before.take(pos as int), seq![f]);
            vstd::seq_lib::lemma_multiset_commutative(before.take(pos as int) + seq![f], before.skip(pos as int));
            vstd::seq_lib::lemma_multiset_commutative(before.take(pos as int), before.skip(pos as int));
            assert(before =~= before.take(pos as int) + before.skip(pos as int));
            assert forall|p: Seq<char>| #[trigger] with_path(sorted@, p) == with_path(original.take(i + 1), p) by {
                lemma_insert_keeps_path_runs(before, pos as int, f, p);
                original.take(i as int).lemma_filter_push(f, path_pred(p));
                assert(original.take(i + 1) =~= original.take(i as int).push(f));
            }
        }
        i += 1;
    }
    assert(original.take(i as int) =~= original);
    sorted
}

/// A file list with each run of files of the same path and old path reduced to its first.
pub open spec fn dedup_spec(v: Seq<ChangedFileOutput>) -> Seq<ChangedFileOutput>
    decreases v.len(),
{
    if v.len() == 0 {
        Seq::empty()
    } else {
        let prev = dedup_spec(v.drop_last());
        if v.len() > 1 && file_key(v[v.len() - 2]) == file_key(v.last()) {
            prev
        } else {
            prev.push(v.last())
        }
    }
}

/// Drops each file that repeats the path and old path of the file before it.
pub fn dedup_files(files: Vec<ChangedFileOutput>) -> (out: Vec<ChangedFileOutput>)
    ensures
        out@ == dedup_spec(files@),
{
    let ghost original = files@;
    let mut remaining = files;
    let mut out: Vec<ChangedFileOutput> = Vec::new();
    let mut last_key: Option<(String, Option<String>)> = None;
    let mut i: usize = 0;
    let total = remaining.len();
    while remaining.len() > 0
        invariant
            total == original.len(),
            i + remaining@.len() == original.len(),
            remaining@ == original.skip(i as int),
            out@ == dedup_spec(original.take(i as int)),
            i == 0 <==> last_key is None,
            last_key matches Some(k) ==> (k.0@, opt_text(k.1)) == file_key(original[i - 1]),
        decreases remaining@.len(),
    {
        let f = remaining.remove(0);
        assert(f == original[i as int]);
        assert(original.take(i + 1).drop_last() =~= original.take(i as int));
        assert(original.take(i + 1).last() == f);
        let same = match &last_key {
            Some(k) => str_eq(k.0.as_str(), f.path.as_str()) && match (&k.1, &f.old_path) {
                (Some(a), Some(b)) => str_eq(a.as_str(), b.as_str()),
                (None, None) => true,
                _ => false,
            },
            None => false,
        };
        proof {
            if i > 0 {
                assert(original.take(i + 1)[i - 1] == original[i - 1]);
            }
        }
        let key = (
            f.path.clone(),
            match &f.old_path {
                Some(o) => Some(o.clone()),
                None => None,
            },
        );
        if !same {
            out.push(f);
        }
        last_key = Some(key);
        i += 1;
    }
    assert(original.take(i as int) =~= original);
    out
}

/// Whether `globset::Glob::new` accepts a pattern.
pub uninterp spec fn glob_valid(pattern: Seq<char>) -> bool;

/// Checks one glob pattern with `globset::Glob::new`; on refusal, globset's message.
#[verifier::external_body]
fn check_glob(pattern: &str) -> (r: Result<(), String>)
    ensures
        r is Ok <==> glob_valid(pattern@),
{
    match Glob::new(pattern) {
        Ok(_) => Ok(()),
        Err(e) => Err(e.to_string()),
    }
}

/// What a `globset::GlobSet` built from valid patterns answers for a path: whether some of
/// its globs matches it; `None` when the set cannot be built.
pub uninterp spec fn glob_set_match(patterns: Seq<Seq<char>>, path: Seq<char>) -> Option<bool>;

/// Builds a `globset::GlobSet` from valid patterns and asks whether it matches `path`; on a
/// failure to build, globset's message.
#[verifier::external_body]
fn glob_set_matches(patterns: &Vec<String>, path: &str) -> (r: Result<bool, String>)
    requires
        forall|k: int| 0 <= k < patterns@.len() ==> glob_valid(#[trigger] patterns@[k]@),
    ensures
        match r {
            Ok(b) => glob_set_match(texts(patterns@), path@) == Some(b),
            Err(_) => glob_set_match(texts(patterns@), path@) is None,
        },
{
    let mut builder = GlobSetBuilder::new();
    for pattern in patterns {
        builder.add(Glob::new(pattern).expect("checked glob"));
    }
    builder.build().map(|set| set.is_match(path)).map_err(|e| e.to_string())
}

/// The first rule, in order, that is not a valid glob once its `'!'` is dropped.
pub open spec fn first_invalid_rule(rules: Seq<Seq<char>>) -> Option<int>
    decreases rules.len(),
{
    if rules.len() == 0 {
        None
    } else {
        match first_invalid_rule(rules.drop_last()) {
            Some(k) => Some(k),
            None => {
                let r = rules.last();
                let p = if r.len() > 0 && r[0] == '!' {
                    r.drop_first()
                } else {
                    r
                };
                if glob_valid(p) {
                    None
                } else {
                    Some(rules.len() - 1)
                }
            },
        }
    }
}

/// Whether some of the candidate paths matches the set built from `patterns`.
pub open spec fn any_candidate_matches(patterns: Seq<Seq<char>>, path: Seq<char>, old_path: Option<Seq<char>>) -> bool {
    glob_set_match(patterns, path) == Some(true) || (old_path matches Some(o) && glob_set_match(
        patterns,
        o,
    ) == Some(true))
}

/// Whether the sets can be built for every candidate path.
pub open spec fn sets_build(patterns: Seq<Seq<char>>, path: Seq<char>, old_path: Option<Seq<char>>) -> bool {
    patterns.len() == 0 || (glob_set_match(patterns, path) is Some && (old_path matches Some(o)
        ==> glob_set_match(patterns, o) is Some))
}

fn check_rules(rules: &[String]) -> (r: Result<(), AppError>)
    ensures
        first_invalid_rule(texts(rules@)) is None <==> r is Ok,
        r matches Err(e) ==> e is InvalidArgument,
{
    let mut i: usize = 0;
    while i < rules.len()
        invariant
            i <= rules.len(),
            first_invalid_rule(texts(rules@).take(i as int)) is None,
        decreases rules.len() - i,
    {
        assert(texts(rules@).take(i + 1).drop_last() =~= texts(rules@).take(i as int));
        assert(texts(rules@).take(i + 1).last() == rules@[i as int]@);
        let chars = crate::text::chars_of(rules[i].as_str());
        let pattern = if chars.len() > 0 && chars[0] == '!' {
            crate::text::string_from_chars(&chars, 1, chars.len())
        } else {
            crate::text::string_from_chars(&chars, 0, chars.len())
        };
        proof {
            if chars.len() > 0 && chars[0] == '!' {
                assert(pattern@ =~= rules@[i as int]@.drop_first());
            } else {
                assert(pattern@ =~= rules@[i as int]@);
            }
        }
        match check_glob(pattern.as_str()) {
            Ok(()) => {},
            Err(m) => {
                proof {
                    lemma_invalid_prefix(texts(rules@), i + 1);
                }
                return Err(AppError::InvalidArgument(m));
            },
        }
        i += 1;
    }
    assert(texts(rules@).take(rules.len() as int) =~= texts(rules@));
    Ok(())
}

proof fn lemma_invalid_prefix(rules: Seq<Seq<char>>, n: int)
    requires
        0 <= n <= rules.len(),
        first_invalid_rule(rules.take(n)) is Some,
    ensures
        first_invalid_rule(rules) is Some,
    decreases rules.len() - n,
{
    if n < rules.len() {
        assert(rules.take(n + 1).drop_last() =~= rules.take(n));
        lemma_invalid_prefix(rules, n + 1);
    } else {
        assert(rules.take(n) =~= rules);
    }
}

proof fn lemma_split_valid(rules: Seq<Seq<char>>)
    requires
        first_invalid_rule(rules) is None,
    ensures
        forall|k: int| 0 <= k < glob_rules_spec(rules).0.len() ==> glob_valid(#[trigger] glob_rules_spec(rules).0[k]),
        forall|k: int| 0 <= k < glob_rules_spec(rules).1.len() ==> glob_valid(#[trigger] glob_rules_spec(rules).1[k]),
    decreases rules.len(),
{
    if rules.len() > 0 {
        lemma_split_valid(rules.drop_last());
        let (inc, exc) = glob_rules_spec(rules.drop_last());
        let (inc2, exc2) = glob_rules_spec(rules);
        assert forall|k: int| 0 <= k < inc2.len() implies glob_valid(#[trigger] inc2[k]) by {
            if k < inc.len() {
                assert(inc2[k] == inc[k]);
            }
        }
        assert forall|k: int| 0 <= k < exc2.len() implies glob_valid(#[trigger] exc2[k]) by {
            if k < exc.len() {
                assert(exc2[k] == exc[k]);
            }
        }
    }
}

fn set_hits(patterns: &Vec<String>, path: &str, old_path: Option<&str>) -> (r: Result<bool, AppError>)
    requires
        patterns@.len() > 0,
        forall|k: int| 0 <= k < patterns@.len() ==> glob_valid(#[trigger] patterns@[k]@),
    ensures
        match r {
            Ok(b) => sets_build(texts(patterns@), path@, opt_str_view(old_path)) && b
                == any_candidate_matches(texts(patterns@), path@, opt_str_view(old_path)),
            Err(e) => !sets_build(texts(patterns@), path@, opt_str_view(old_path)) && e is InvalidArgument,
        },
{
    let first = match glob_set_matches(patterns, path) {
        Ok(b) => b,
        Err(m) => {
            return Err(AppError::InvalidArgument(m));
        },
    };
    match old_path {
        Some(o) => match glob_set_matches(patterns, o) {
            Ok(b) => Ok(first || b),
            Err(m) => Err(AppError::InvalidArgument(m)),
        },
        None => Ok(first),
    }
}

/// The text of an optional string slice.
pub open spec fn opt_str_view(o: Option<&str>) -> Option<Seq<char>> {
    match o {
        Some(s) => Some(s@),
        None => None,
    }
}

/// Whether a file passes the glob rules: with rules that select files, one of its paths must
/// match one of them; a path that matches a rule that rejects files (written with a leading
/// `'!'`) drops it. An invalid rule fails the query.
pub fn path_matches_globs(rules: &[String], path: &str, old_path: Option<&str>) -> (r: Result<
    bool,
    AppError,
>)
    ensures
        first_invalid_rule(texts(rules@)) is Some ==> r matches Err(AppError::InvalidArgument(_)),
        ({
            let (inc, exc) = glob_rules_spec(texts(rules@));
            first_invalid_rule(texts(rules@)) is None && sets_build(inc, path@, opt_str_view(old_path))
                && sets_build(exc, path@, opt_str_view(old_path)) ==> r == Ok::<bool, AppError>(
                (inc.len() == 0 || any_candidate_matches(inc, path@, opt_str_view(old_path))) && !(
                exc.len() > 0 && any_candidate_matches(exc, path@, opt_str_view(old_path))),
            )
        }),
{
    check_rules(rules)?;
    let (including, excluding) = split_glob_rules(rules);
    proof {
        lemma_split_valid(texts(rules@));
        let split = glob_rules_spec(texts(rules@));
        assert(texts(including@) == split.0);
        assert(texts(excluding@) == split.1);
        assert forall|k: int| 0 <= k < including@.len() implies glob_valid(#[trigger] including@[k]@) by {
            assert(texts(including@)[k] == including@[k]@);
            assert(glob_valid(split.0[k]));
        }
        assert forall|k: int| 0 <= k < excluding@.len() implies glob_valid(#[trigger] excluding@[k]@) by {
            assert(texts(excluding@)[k] == excluding@[k]@);
            assert(glob_valid(split.1[k]));
        }
    }
    let included = if including.len() > 0 {
        set_hits(&including, path, old_path)?
    } else {
        true
    };
    let excluded = if excluding.len() > 0 {
        set_hits(&excluding, path, old_path)?
    } else {
        false
    };
    Ok(included && !excluded)
}

} // verus!
