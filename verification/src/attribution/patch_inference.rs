//! Attribution of diff blocks to the commits whose own changes touch the same lines.
use crate::contracts::ResolvedTextEncoding;
use crate::error::AppError;
use crate::git::commits::{author_key, author_key_spec, IndexedCommit};
use crate::git::diff::{contains_path, push_unique_path, CommitFileChange};
use crate::overlay::diff_builder::{build_overlay_diff, overlay_of_texts, BuiltOverlayDiff};
use crate::json::{
    opt_text, AuthorOutput, DiffBlockOutput, RelatedCommitAttributionOutput, RelatedCommitOutput,
    TouchedRangeOutput,
};
use crate::text::{contains, contains_spec, lowercase, str_eq, to_lowercase, trim, trim_spec};
use vstd::prelude::*;

verus! {

/// The options that select what attribution reports as matching the review filter.
pub struct AttributionOptions<'a> {
    pub encoding: ResolvedTextEncoding,
    pub authors: &'a [String],
    pub author_query: Option<&'a str>,
    pub message: Option<&'a str>,
}

/// A query after trimming: `None` when absent or blank, else its lowercase form.
pub open spec fn normalized_query_spec(value: Option<Seq<char>>) -> Option<Seq<char>> {
    match value {
        Some(v) => if trim_spec(v).len() > 0 {
            Some(lowercase(trim_spec(v)))
        } else {
            None
        },
        None => None,
    }
}

/// The author keys of a filter: each value trimmed and lowercased, empty results left out.
pub open spec fn normalized_authors(values: Seq<Seq<char>>) -> Seq<Seq<char>>
    decreases values.len(),
{
    if values.len() == 0 {
        Seq::empty()
    } else {
        let prev = normalized_authors(values.drop_last());
        let key = lowercase(trim_spec(values.last()));
        if key.len() > 0 {
            prev.push(key)
        } else {
            prev
        }
    }
}

/// The text that an author query is matched against: name, a space, and the email if any.
pub open spec fn author_text_of(name: Seq<char>, email: Option<Seq<char>>) -> Seq<char> {
    name + " "@ + match email {
        Some(e) => e,
        None => Seq::empty(),
    }
}

/// Whether a commit with the given author key, name, email and subject passes a filter of
/// author keys, an author query and a message query; an empty filter passes every commit.
pub open spec fn fields_accepted(
    authors: Seq<Seq<char>>,
    author_query: Option<Seq<char>>,
    message: Option<Seq<char>>,
    key: Seq<char>,
    name: Seq<char>,
    email: Option<Seq<char>>,
    subject: Seq<char>,
) -> bool {
    if authors.len() == 0 && author_query is None && message is None {
        true
    } else {
        &&& (authors.len() == 0 || authors.contains(key))
        &&& match author_query {
            Some(q) => contains_spec(lowercase(author_text_of(name, email)), q),
            None => true,
        }
        &&& match message {
            Some(q) => contains_spec(lowercase(subject), q),
            None => true,
        }
    }
}

/// Whether a commit passes a filter.
pub open spec fn filter_accepts(
    authors: Seq<Seq<char>>,
    author_query: Option<Seq<char>>,
    message: Option<Seq<char>>,
    c: IndexedCommit,
) -> bool {
    fields_accepted(
        authors,
        author_query,
        message,
        c.author_key@,
        c.author_name@,
        opt_text(c.author_email),
        c.subject@,
    )
}

/// The review filter, normalized for matching commits.
pub struct FilterMatcher {
    authors: Vec<String>,
    author_query: Option<String>,
    message: Option<String>,
}

/// The texts of a sequence of strings.
pub open spec fn texts(v: Seq<String>) -> Seq<Seq<char>> {
    v.map_values(|s: String| s@)
}

impl FilterMatcher {
    /// The normalized author keys.
    pub closed spec fn authors_view(&self) -> Seq<Seq<char>> {
        texts(self.authors@)
    }

    /// The normalized author query.
    pub closed spec fn author_query_view(&self) -> Option<Seq<char>> {
        opt_text(self.author_query)
    }

    /// The normalized message query.
    pub closed spec fn message_view(&self) -> Option<Seq<char>> {
        opt_text(self.message)
    }

    /// Whether this filter accepts a commit.
    pub open spec fn accepts(&self, c: IndexedCommit) -> bool {
        filter_accepts(self.authors_view(), self.author_query_view(), self.message_view(), c)
    }

    /// A filter from raw author keys and queries.
    pub fn new(authors: &[String], author_query: Option<&str>, message: Option<&str>) -> (f: Self)
        ensures
            f.authors_view() == normalized_authors(texts(authors@)),
            f.author_query_view() == normalized_query_spec(
                match author_query {
                    Some(q) => Some(q@),
                    None => None,
                },
            ),
            f.message_view() == normalized_query_spec(
                match message {
                    Some(q) => Some(q@),
                    None => None,
                },
            ),
    {
        let mut keys: Vec<String> = Vec::new();
        let mut i: usize = 0;
        while i < authors.len()
            invariant
                i <= authors.len(),
                texts(keys@) == normalized_authors(texts(authors@).take(i as int)),
            decreases authors.len() - i,
        {
            let trimmed = trim(authors[i].as_str());
            let key = to_lowercase(trimmed.as_str());
            let ghost before = keys@;
            assert(texts(authors@).take(i + 1).drop_last() =~= texts(authors@).take(i as int));
            assert(texts(authors@).take(i + 1).last() == authors@[i as int]@);
            if crate::text::chars_of(key.as_str()).len() > 0 {
                keys.push(key);
                assert(texts(keys@) =~= texts(before).push(keys@.last()@));
            }
            i += 1;
        }
        assert(texts(authors@).take(authors.len() as int) =~= texts(authors@));
        FilterMatcher {
            authors: keys,
            author_query: normalized_query(author_query),
            message: normalized_query(message),
        }
    }

    /// Whether the filter restricts anything.
    pub fn is_active(&self) -> (r: bool)
        ensures
            r == (self.authors_view().len() > 0 || self.author_query_view() is Some
                || self.message_view() is Some),
    {
        self.authors.len() > 0 || self.author_query.is_some() || self.message.is_some()
    }

    /// Whether a commit passes the filter.
    pub fn matches(&self, commit: &IndexedCommit) -> (r: bool)
        ensures
            r == self.accepts(*commit),
    {
        self.matches_fields(
            commit.author_key.as_str(),
            commit.author_name.as_str(),
            match &commit.author_email {
                Some(e) => Some(e.as_str()),
                None => None,
            },
            commit.subject.as_str(),
        )
    }

    /// Whether a commit with the given author key, name, email and subject passes the filter.
    pub fn matches_fields(&self, author_key: &str, author_name: &str, author_email: Option<&str>, subject: &str) -> (r: bool)
        ensures
            r == fields_accepted(
                self.authors_view(),
                self.author_query_view(),
                self.message_view(),
                author_key@,
                author_name@,
                opt_str(author_email),
                subject@,
            ),
    {
        if !self.is_active() {
            return true;
        }
        if self.authors.len() > 0 {
            let mut found = false;
            let mut i: usize = 0;
            while i < self.authors.len()
                invariant
                    i <= self.authors.len(),
                    found == exists|k: int| 0 <= k < i && self.authors@[k]@ == author_key@,
                decreases self.authors.len() - i,
            {
                if str_eq(self.authors[i].as_str(), author_key) {
                    found = true;
                }
                i += 1;
            }
            assert(found == texts(self.authors@).contains(author_key@)) by {
                if found {
                    let k = choose|k: int| 0 <= k < i && self.authors@[k]@ == author_key@;
                    assert(texts(self.authors@)[k] == author_key@);
                }
                if texts(self.authors@).contains(author_key@) {
                    let k = choose|k: int|
                        0 <= k < texts(self.authors@).len() && texts(self.authors@)[k]
                            == author_key@;
                    assert(self.authors@[k]@ == author_key@);
                }
            }
            if !found {
                return false;
            }
        }
        match &self.author_query {
            Some(query) => {
                let mut text = String::from_str(author_name);
                text.append(" ");
                match author_email {
                    Some(email) => text.append(email),
                    None => {},
                }
                assert(text@ =~= author_text_of(author_name@, opt_str(author_email)));
                let lowered = to_lowercase(text.as_str());
                if !contains(lowered.as_str(), query.as_str()) {
                    return false;
                }
            },
            None => {},
        }
        match &self.message {
            Some(query) => {
                let lowered = to_lowercase(subject);
                if !contains(lowered.as_str(), query.as_str()) {
                    return false;
                }
            },
            None => {},
        }
        true
    }
}

/// A query trimmed and lowercased, `None` when absent or blank.
pub fn normalized_query(value: Option<&str>) -> (r: Option<String>)
    ensures
        opt_text(r) == normalized_query_spec(
            match value {
                Some(v) => Some(v@),
                None => None,
            },
        ),
{
    match value {
        Some(v) => {
            let trimmed = trim(v);
            if crate::text::chars_of(trimmed.as_str()).len() > 0 {
                Some(to_lowercase(trimmed.as_str()))
            } else {
                None
            }
        },
        None => None,
    }
}

/// `Some(value)` for a positive line number, `None` for 0.
pub open spec fn non_zero_spec(value: usize) -> Option<usize> {
    if value > 0 {
        Some(value)
    } else {
        None
    }
}

/// The line ranges of a block as a touched range, with empty sides left out.
pub open spec fn touched_range_spec(b: DiffBlockOutput) -> TouchedRangeOutput {
    TouchedRangeOutput {
        old_start: non_zero_spec(b.old_start),
        old_end: non_zero_spec(b.old_end),
        new_start: non_zero_spec(b.new_start),
        new_end: non_zero_spec(b.new_end),
    }
}

fn non_zero(value: usize) -> (r: Option<usize>)
    ensures
        r == non_zero_spec(value),
{
    if value > 0 {
        Some(value)
    } else {
        None
    }
}

/// The touched range of a block.
pub fn touched_range_from_block(block: &DiffBlockOutput) -> (r: TouchedRangeOutput)
    ensures
        r == touched_range_spec(*block),
{
    TouchedRangeOutput {
        old_start: non_zero(block.old_start),
        old_end: non_zero(block.old_end),
        new_start: non_zero(block.new_start),
        new_end: non_zero(block.new_end),
    }
}

/// A non-empty block side `start..=end` overlaps a touched side.
pub open spec fn side_intersects(
    block_start: usize,
    block_end: usize,
    touched_start: Option<usize>,
    touched_end: Option<usize>,
) -> bool {
    match (touched_start, touched_end) {
        (Some(ts), Some(te)) => block_start > 0 && block_end > 0 && block_start <= te && ts
            <= block_end,
        _ => false,
    }
}

/// A touched side never intersects a block side that it lies wholly before or wholly after:
/// when they intersect, both touched ends are present, the touched side starts no later than the
/// block side ends, and ends no earlier than the block side starts.
pub proof fn lemma_intersecting_sides_overlap(
    block_start: usize,
    block_end: usize,
    touched_start: Option<usize>,
    touched_end: Option<usize>,
)
    ensures
        side_intersects(block_start, block_end, touched_start, touched_end) ==> touched_start is Some
            && touched_end is Some && block_start > 0 && touched_start->0 <= block_end && block_start
            <= touched_end->0,
{
}

/// Line `l` lies in the inclusive range `lo..=hi`.
pub open spec fn line_within(l: int, lo: int, hi: int) -> bool {
    lo <= l <= hi
}

/// For well-formed sides (start no later than end), a block side intersects a touched side
/// exactly when the block side is not the empty side `0..0`, both touched ends are present, and
/// the two share a line.
pub proof fn lemma_sides_intersect_iff_shared_line(
    block_start: usize,
    block_end: usize,
    touched_start: Option<usize>,
    touched_end: Option<usize>,
)
    requires
        block_start <= block_end,
        touched_start is Some && touched_end is Some ==> touched_start->0 <= touched_end->0,
    ensures
        side_intersects(block_start, block_end, touched_start, touched_end) <==> (block_start > 0
            && touched_start is Some && touched_end is Some && exists|l: int|
            #[trigger] line_within(l, block_start as int, block_end as int) && line_within(
                l,
                touched_start->0 as int,
                touched_end->0 as int,
            )),
{
    if touched_start is Some && touched_end is Some {
        let ts = touched_start->0;
        let te = touched_end->0;
        if side_intersects(block_start, block_end, touched_start, touched_end) {
            let l: int = if block_start >= ts {
                block_start as int
            } else {
                ts as int
            };
            assert(line_within(l, block_start as int, block_end as int) && line_within(l, ts as int, te as int));
        }
        if block_start > 0 && exists|l: int|
            #[trigger] line_within(l, block_start as int, block_end as int) && line_within(l, ts as int, te as int) {
            let l = choose|l: int|
                #[trigger] line_within(l, block_start as int, block_end as int) && line_within(l, ts as int, te as int);
            assert(block_end > 0 && block_start <= te && ts <= block_end);
        }
    }
}

/// A block overlaps a touched range on its old or its new side.
pub open spec fn block_intersects_spec(b: DiffBlockOutput, t: TouchedRangeOutput) -> bool {
    side_intersects(b.old_start, b.old_end, t.old_start, t.old_end) || side_intersects(
        b.new_start,
        b.new_end,
        t.new_start,
        t.new_end,
    )
}

fn ranges_intersect(
    block_start: usize,
    block_end: usize,
    touched_start: Option<usize>,
    touched_end: Option<usize>,
) -> (r: bool)
    ensures
        r == side_intersects(block_start, block_end, touched_start, touched_end),
        r ==> touched_start is Some && touched_end is Some && block_start > 0 && touched_start->0 <= block_end
            && block_start <= touched_end->0,
{
    match (touched_start, touched_end) {
        (Some(ts), Some(te)) => block_start > 0 && block_end > 0 && block_start <= te && ts
            <= block_end,
        _ => false,
    }
}

/// Whether a block overlaps a touched range.
pub fn block_intersects_touched(block: &DiffBlockOutput, touched: &TouchedRangeOutput) -> (r: bool)
    ensures
        r == block_intersects_spec(*block, *touched),
{
    ranges_intersect(block.old_start, block.old_end, touched.old_start, touched.old_end)
        || ranges_intersect(block.new_start, block.new_end, touched.new_start, touched.new_end)
}

/// The author of a related commit: name and email.
pub open spec fn author_of(c: RelatedCommitOutput) -> (Seq<char>, Option<Seq<char>>) {
    (c.author_name@, opt_text(c.author_email))
}

/// The author of an author entry.
pub open spec fn author_view(a: AuthorOutput) -> (Seq<char>, Option<Seq<char>>) {
    (a.name@, opt_text(a.email))
}

/// The authors of related commits in order of first appearance, one per author key.
pub open spec fn authors_spec(cs: Seq<RelatedCommitOutput>) -> Seq<(Seq<char>, Option<Seq<char>>)>
    decreases cs.len(),
{
    if cs.len() == 0 {
        Seq::empty()
    } else {
        let prev = authors_spec(cs.drop_last());
        let a = author_of(cs.last());
        if exists|k: int|
            0 <= k < prev.len() && author_key_spec((#[trigger] prev[k]).0, prev[k].1)
                == author_key_spec(a.0, a.1) {
            prev
        } else {
            prev.push(a)
        }
    }
}

/// The authors of related commits, one per author key, in order of first appearance.
pub fn authors_from_related_commits(related_commits: &[RelatedCommitOutput]) -> (authors: Vec<
    AuthorOutput,
>)
    ensures
        authors@.map_values(|a: AuthorOutput| author_view(a)) == authors_spec(related_commits@),
{
    let mut authors: Vec<AuthorOutput> = Vec::new();
    let mut seen: Vec<String> = Vec::new();
    let mut i: usize = 0;
    while i < related_commits.len()
        invariant
            i <= related_commits.len(),
            authors@.map_values(|a: AuthorOutput| author_view(a)) == authors_spec(
                related_commits@.take(i as int),
            ),
            seen@.len() == authors@.len(),
            forall|k: int|
                0 <= k < seen@.len() ==> (#[trigger] seen@[k])@ == author_key_spec(
                    authors@[k].name@,
                    opt_text(authors@[k].email),
                ),
        decreases related_commits.len() - i,
    {
        let commit = &related_commits[i];
        let key = author_key(
            commit.author_name.as_str(),
            match &commit.author_email {
                Some(e) => Some(e.as_str()),
                None => None,
            },
        );
        let ghost prev = authors_spec(related_commits@.take(i as int));
        let ghost views = authors@.map_values(|a: AuthorOutput| author_view(a));
        assert(related_commits@.take(i + 1).drop_last() =~= related_commits@.take(i as int));
        assert(related_commits@.take(i + 1).last() == related_commits@[i as int]);
        let mut found = false;
        let mut j: usize = 0;
        while j < seen.len()
            invariant
                j <= seen.len(),
                seen@.len() == authors@.len(),
                views == authors@.map_values(|a: AuthorOutput| author_view(a)),
                forall|k: int|
                    0 <= k < seen@.len() ==> (#[trigger] seen@[k])@ == author_key_spec(
                        authors@[k].name@,
                        opt_text(authors@[k].email),
                    ),
                found == exists|k: int| 0 <= k < j && (#[trigger] seen@[k])@ == key@,
            decreases seen.len() - j,
        {
            if seen[j] == key {
                found = true;
            }
            j += 1;
        }
        let ghost a = author_of(*commit);
        assert(key@ == author_key_spec(a.0, a.1)) by {
            assert(opt_text(commit.author_email) == match commit.author_email {
                Some(e) => Some(e@),
                None => None::<Seq<char>>,
            });
        }
        assert(found == exists|k: int|
            0 <= k < prev.len() && author_key_spec((#[trigger] prev[k]).0, prev[k].1)
                == author_key_spec(a.0, a.1)) by {
            if found {
                let k = choose|k: int| 0 <= k < j && (#[trigger] seen@[k])@ == key@;
                assert(prev[k] == views[k]);
            }
            if exists|k: int|
                0 <= k < prev.len() && author_key_spec((#[trigger] prev[k]).0, prev[k].1)
                    == author_key_spec(a.0, a.1) {
                let k = choose|k: int|
                    0 <= k < prev.len() && author_key_spec((#[trigger] prev[k]).0, prev[k].1)
                        == author_key_spec(a.0, a.1);
                assert(prev[k] == views[k]);
                assert(seen@[k]@ == key@);
            }
        }
        if !found {
            let entry = AuthorOutput {
                name: commit.author_name.clone(),
                email: match &commit.author_email {
                    Some(e) => Some(e.clone()),
                    None => None,
                },
            };
            assert(author_view(entry) == a);
            let ghost before = authors@;
            authors.push(entry);
            seen.push(key);
            assert(authors@.map_values(|a: AuthorOutput| author_view(a)) =~= views.push(a));
        }
        i += 1;
    }
    assert(related_commits@.take(related_commits.len() as int) =~= related_commits@);
    authors
}

/// The touched ranges of `ranges` that overlap `b`, in order.
pub open spec fn touched_for_block(ranges: Seq<TouchedRangeOutput>, b: DiffBlockOutput) -> Seq<
    TouchedRangeOutput,
>
    decreases ranges.len(),
{
    if ranges.len() == 0 {
        Seq::empty()
    } else {
        let prev = touched_for_block(ranges.drop_last(), b);
        if block_intersects_spec(b, ranges.last()) {
            prev.push(ranges.last())
        } else {
            prev
        }
    }
}

/// A commit whose changes touched the file, with the line ranges they touched.
pub struct RelatedCommitCandidate {
    pub commit: IndexedCommit,
    pub matched_by_filter: bool,
    pub touched_ranges: Vec<TouchedRangeOutput>,
}

/// `r` reports commit `c` for a block with the given touched ranges, attribution method and
/// merges it came through.
pub open spec fn related_from_commit(
    r: RelatedCommitOutput,
    c: IndexedCommit,
    matched: bool,
    touched: Seq<TouchedRangeOutput>,
    method: Seq<char>,
    via: Seq<Seq<char>>,
) -> bool {
    &&& r.hash@ == c.hash@
    &&& r.short_hash@ == c.short_hash@
    &&& r.author_name@ == c.author_name@
    &&& opt_text(r.author_email) == opt_text(c.author_email)
    &&& r.committed_at@ == c.committed_at@
    &&& r.subject@ == c.subject@
    &&& r.matched_by_filter == matched
    &&& r.touched_ranges@ == touched
    &&& r.attribution matches Some(a) && a.method@ == method && texts(a.via_merge_hashes@) == via
}

impl RelatedCommitCandidate {
    /// The commit as related to `block` through the touched ranges that overlap it, or `None`
    /// when none does.
    pub fn related_for_block(&self, block: &DiffBlockOutput) -> (r: Option<RelatedCommitOutput>)
        ensures
            match r {
                Some(rc) => touched_for_block(self.touched_ranges@, *block).len() > 0
                    && related_from_commit(
                    rc,
                    self.commit,
                    self.matched_by_filter,
                    touched_for_block(self.touched_ranges@, *block),
                    "patch-inference"@,
                    Seq::empty(),
                ),
                None => touched_for_block(self.touched_ranges@, *block).len() == 0,
            },
    {
        let mut touched: Vec<TouchedRangeOutput> = Vec::new();
        let mut i: usize = 0;
        while i < self.touched_ranges.len()
            invariant
                i <= self.touched_ranges.len(),
                touched@ == touched_for_block(self.touched_ranges@.take(i as int), *block),
            decreases self.touched_ranges.len() - i,
        {
            assert(self.touched_ranges@.take(i + 1).drop_last() =~= self.touched_ranges@.take(
                i as int,
            ));
            if block_intersects_touched(block, &self.touched_ranges[i]) {
                touched.push(self.touched_ranges[i]);
            }
            i += 1;
        }
        assert(self.touched_ranges@.take(self.touched_ranges.len() as int)
            =~= self.touched_ranges@);
        if touched.len() == 0 {
            return None;
        }
        let via: Vec<String> = Vec::new();
        assert(texts(via@) =~= Seq::<Seq<char>>::empty());
        Some(
            RelatedCommitOutput {
                hash: self.commit.hash.clone(),
                short_hash: self.commit.short_hash.clone(),
                author_name: self.commit.author_name.clone(),
                author_email: match &self.commit.author_email {
                    Some(e) => Some(e.clone()),
                    None => None,
                },
                committed_at: self.commit.committed_at.clone(),
                subject: self.commit.subject.clone(),
                matched_by_filter: self.matched_by_filter,
                touched_ranges: touched,
                attribution: Some(
                    RelatedCommitAttributionOutput {
                        method: String::from_str("patch-inference"),
                        via_merge_hashes: via,
                    },
                ),
            },
        )
    }
}

/// The commits of `candidates` related to block `b`, in candidate order.
pub open spec fn related_for_block_spec(cands: Seq<RelatedCommitCandidate>, b: DiffBlockOutput) -> Seq<
    RelatedCommitCandidate,
>
    decreases cands.len(),
{
    if cands.len() == 0 {
        Seq::empty()
    } else {
        let prev = related_for_block_spec(cands.drop_last(), b);
        if touched_for_block(cands.last().touched_ranges@, b).len() > 0 {
            prev.push(cands.last())
        } else {
            prev
        }
    }
}

/// `out` is `blocks` with patch inference's answer from `candidates`: each block relates to
/// every candidate with a touched range overlapping it, and its authors are those commits'
/// authors.
pub open spec fn patch_applied(
    blocks: Seq<DiffBlockOutput>,
    candidates: Seq<RelatedCommitCandidate>,
    out: Seq<DiffBlockOutput>,
) -> bool {
    &&& out.len() == blocks.len()
    &&& forall|i: int|
            0 <= i < out.len() ==> {
                let b = blocks[i];
                let o = #[trigger] out[i];
                let rel = related_for_block_spec(candidates, b);
                &&& o.id == b.id
                &&& o.old_start == b.old_start
                &&& o.old_end == b.old_end
                &&& o.new_start == b.new_start
                &&& o.new_end == b.new_end
                &&& o.row_start_index == b.row_start_index
                &&& o.row_end_index == b.row_end_index
                &&& o.change_type == b.change_type
                &&& o.rows == b.rows
                &&& o.attribution == b.attribution
                &&& o.related_commits@.len() == rel.len()
                &&& forall|k: int|
                    0 <= k < rel.len() ==> related_from_commit(
                        #[trigger] o.related_commits@[k],
                        rel[k].commit,
                        rel[k].matched_by_filter,
                        touched_for_block(rel[k].touched_ranges@, b),
                        "patch-inference"@,
                        Seq::empty(),
                    )
                &&& o.authors@.map_values(|a: AuthorOutput| author_view(a)) == authors_spec(
                    o.related_commits@,
                )
            }
}

/// Each block relates to every candidate with a touched range overlapping it, and its authors
/// are those commits' authors.
pub fn apply_patch_candidates(blocks: Vec<DiffBlockOutput>, candidates: &[RelatedCommitCandidate]) -> (out:
    Vec<DiffBlockOutput>)
    ensures
        patch_applied(blocks@, candidates@, out@),
{
    let ghost original = blocks@;
    let mut out: Vec<DiffBlockOutput> = Vec::new();
    let mut remaining = blocks;
    let mut i: usize = 0;
    let total = remaining.len();
    while remaining.len() > 0
        invariant
            total == original.len(),
            i + remaining@.len() == original.len(),
            remaining@ == original.skip(i as int),
            out@.len() == i,
            forall|n: int|
                0 <= n < out@.len() ==> {
                    let b = original[n];
                    let o = #[trigger] out@[n];
                    let rel = related_for_block_spec(candidates@, b);
                    &&& o.id == b.id
                    &&& o.old_start == b.old_start
                    &&& o.old_end == b.old_end
                    &&& o.new_start == b.new_start
                    &&& o.new_end == b.new_end
                    &&& o.row_start_index == b.row_start_index
                    &&& o.row_end_index == b.row_end_index
                    &&& o.change_type == b.change_type
                    &&& o.rows == b.rows
                    &&& o.attribution == b.attribution
                    &&& o.related_commits@.len() == rel.len()
                    &&& forall|k: int|
                        0 <= k < rel.len() ==> related_from_commit(
                            #[trigger] o.related_commits@[k],
                            rel[k].commit,
                            rel[k].matched_by_filter,
                            touched_for_block(rel[k].touched_ranges@, b),
                            "patch-inference"@,
                            Seq::empty(),
                        )
                    &&& o.authors@.map_values(|a: AuthorOutput| author_view(a)) == authors_spec(
                        o.related_commits@,
                    )
                },
        decreases remaining@.len(),
    {
        let mut block = remaining.remove(0);
        assert(block == original[i as int]);
        let related = related_commits_for_block(candidates, &block);
        let authors = authors_from_related_commits(related.as_slice());
        block.related_commits = related;
        block.authors = authors;
        out.push(block);
        i += 1;
    }
    out
}

/// The related commits of `candidates` for one block, in candidate order.
fn related_commits_for_block(candidates: &[RelatedCommitCandidate], block: &DiffBlockOutput) -> (rels:
    Vec<RelatedCommitOutput>)
    ensures
        rels@.len() == related_for_block_spec(candidates@, *block).len(),
        forall|k: int|
            0 <= k < rels@.len() ==> related_from_commit(
                #[trigger] rels@[k],
                related_for_block_spec(candidates@, *block)[k].commit,
                related_for_block_spec(candidates@, *block)[k].matched_by_filter,
                touched_for_block(
                    related_for_block_spec(candidates@, *block)[k].touched_ranges@,
                    *block,
                ),
                "patch-inference"@,
                Seq::empty(),
            ),
{
    let mut rels: Vec<RelatedCommitOutput> = Vec::new();
    let mut j: usize = 0;
    while j < candidates.len()
        invariant
            j <= candidates.len(),
            rels@.len() == related_for_block_spec(candidates@.take(j as int), *block).len(),
            forall|k: int|
                0 <= k < rels@.len() ==> related_from_commit(
                    #[trigger] rels@[k],
                    related_for_block_spec(candidates@.take(j as int), *block)[k].commit,
                    related_for_block_spec(
                        candidates@.take(j as int),
                        *block,
                    )[k].matched_by_filter,
                    touched_for_block(
                        related_for_block_spec(candidates@.take(j as int), *block)[k].touched_ranges@,
                        *block,
                    ),
                    "patch-inference"@,
                    Seq::empty(),
                ),
        decreases candidates.len() - j,
    {
        assert(candidates@.take(j + 1).drop_last() =~= candidates@.take(j as int));
        assert(candidates@.take(j + 1).last() == candidates@[j as int]);
        match candidates[j].related_for_block(block) {
            Some(rc) => {
                rels.push(rc);
            },
            None => {},
        }
        j += 1;
    }
    assert(candidates@.take(candidates.len() as int) =~= candidates@);
    rels
}

/// The path whose old content a change replaced: none for an added file, the old path of a
/// rename (its new path when it has none), else its path.
pub open spec fn old_change_path_spec(c: CommitFileChange) -> Option<Seq<char>> {
    if c.status@ == "added"@ {
        None
    } else if c.status@ == "renamed"@ {
        Some(
            match c.old_path {
                Some(o) => o@,
                None => c.path@,
            },
        )
    } else {
        Some(c.path@)
    }
}

/// The path whose new content a change wrote: none for a deleted file, else its path.
pub open spec fn new_change_path_spec(c: CommitFileChange) -> Option<Seq<char>> {
    if c.status@ == "deleted"@ {
        None
    } else {
        Some(c.path@)
    }
}

/// The text of an optional string slice.
pub open spec fn opt_str(o: Option<&str>) -> Option<Seq<char>> {
    match o {
        Some(s) => Some(s@),
        None => None,
    }
}

/// The path to read a change's old content from.
pub fn old_change_path(change: &CommitFileChange) -> (r: Option<&str>)
    ensures
        opt_str(r) == old_change_path_spec(*change),
{
    if str_eq(change.status.as_str(), "added") {
        None
    } else if str_eq(change.status.as_str(), "renamed") {
        match &change.old_path {
            Some(o) => Some(o.as_str()),
            None => Some(change.path.as_str()),
        }
    } else {
        Some(change.path.as_str())
    }
}

/// The path to read a change's new content from.
pub fn new_change_path(change: &CommitFileChange) -> (r: Option<&str>)
    ensures
        opt_str(r) == new_change_path_spec(*change),
{
    if str_eq(change.status.as_str(), "deleted") {
        None
    } else {
        Some(change.path.as_str())
    }
}

/// The paths a file had before the review range: its old path when it was renamed, else its
/// path.
pub fn initial_active_paths(file_path: &str, old_path: Option<&str>) -> (paths: Vec<String>)
    ensures
        texts(paths@) == seq![
            match old_path {
                Some(o) => o@,
                None => file_path@,
            },
        ],
{
    let mut paths: Vec<String> = Vec::new();
    let start = match old_path {
        Some(o) => o,
        None => file_path,
    };
    paths.push(String::from_str(start));
    assert(texts(paths@) =~= seq![start@]);
    paths
}

/// Whether a change is on one of the followed paths, by its path or its old path.
pub open spec fn touches_active(change: CommitFileChange, active: Seq<Seq<char>>) -> bool {
    active.contains(change.path@) || (change.old_path matches Some(o) && active.contains(o@))
}

/// Whether a change touches one of the paths the file has at this point of history.
pub fn change_touches_active_path(change: &CommitFileChange, active_paths: &Vec<String>) -> (r: bool)
    ensures
        r == touches_active(*change, texts(active_paths@)),
{
    if contains_path(active_paths, change.path.as_str()) {
        return true;
    }
    match &change.old_path {
        Some(o) => contains_path(active_paths, o.as_str()),
        None => false,
    }
}

/// The paths the file has after one change: a rename or deletion of a path it has moves or
/// drops that path.
pub open spec fn advance_step(active: Set<Seq<char>>, c: CommitFileChange) -> Set<Seq<char>> {
    let deleted = c.status@ == "deleted"@;
    match c.old_path {
        Some(o) if active.contains(o@) => if deleted {
            active.remove(o@)
        } else {
            active.remove(o@).insert(c.path@)
        },
        _ => if deleted {
            active.remove(c.path@)
        } else {
            active
        },
    }
}

/// The paths the file has after a commit's changes, taken in order.
pub open spec fn advance_spec(active: Set<Seq<char>>, changes: Seq<CommitFileChange>) -> Set<
    Seq<char>,
>
    decreases changes.len(),
{
    if changes.len() == 0 {
        active
    } else {
        advance_step(advance_spec(active, changes.drop_last()), changes.last())
    }
}

proof fn lemma_remove_to_set(s: Seq<Seq<char>>, i: int)
    requires
        s.no_duplicates(),
        0 <= i < s.len(),
    ensures
        s.remove(i).to_set() == s.to_set().remove(s[i]),
        s.remove(i).no_duplicates(),
{
    let r = s.remove(i);
    assert forall|x: Seq<char>| r.to_set().contains(x) <==> s.to_set().remove(s[i]).contains(x) by {
        if r.to_set().contains(x) {
            let k = choose|k: int| 0 <= k < r.len() && r[k] == x;
            if k < i {
                assert(s[k] == x);
            } else {
                assert(s[k + 1] == x);
            }
        }
        if s.to_set().remove(s[i]).contains(x) {
            let k = choose|k: int| 0 <= k < s.len() && s[k] == x;
            assert(k != i);
            if k < i {
                assert(r[k] == x);
            } else {
                assert(r[k - 1] == x);
            }
        }
    }
    assert(r.to_set() =~= s.to_set().remove(s[i]));
    assert forall|a: int, b: int| 0 <= a < b < r.len() implies r[a] != r[b] by {
        let sa = if a < i { a } else { a + 1 };
        let sb = if b < i { b } else { b + 1 };
        assert(r[a] == s[sa]);
        assert(r[b] == s[sb]);
    }
}

/// Removes `path` from a set of paths held without duplicates; tells whether it was there.
fn remove_path(paths: &mut Vec<String>, path: &str) -> (removed: bool)
    requires
        texts(old(paths)@).no_duplicates(),
    ensures
        removed == texts(old(paths)@).to_set().contains(path@),
        texts(final(paths)@).to_set() == texts(old(paths)@).to_set().remove(path@),
        texts(final(paths)@).no_duplicates(),
{
    let ghost before = texts(paths@);
    let mut i: usize = 0;
    while i < paths.len()
        invariant
            i <= paths.len(),
            before == texts(paths@),
            before == texts(old(paths)@),
            before.no_duplicates(),
            forall|k: int| 0 <= k < i ==> paths@[k]@ != path@,
        decreases paths.len() - i,
    {
        if str_eq(paths[i].as_str(), path) {
            let ghost pre = paths@;
            paths.remove(i);
            proof {
                assert(texts(paths@) =~= before.remove(i as int));
                lemma_remove_to_set(before, i as int);
                assert(before[i as int] == path@);
                assert(before.to_set().contains(path@));
            }
            return true;
        }
        i += 1;
    }
    assert(!before.to_set().contains(path@)) by {
        if before.to_set().contains(path@) {
            let k = choose|k: int| 0 <= k < before.len() && before[k] == path@;
            assert(paths@[k]@ == path@);
        }
    }
    assert(before.to_set().remove(path@) =~= before.to_set());
    false
}

/// Adds `path` to a set of paths held without duplicates.
fn insert_path(paths: &mut Vec<String>, path: &str)
    requires
        texts(old(paths)@).no_duplicates(),
    ensures
        texts(final(paths)@).to_set() == texts(old(paths)@).to_set().insert(path@),
        texts(final(paths)@).no_duplicates(),
{
    let ghost before = texts(paths@);
    let added = push_unique_path(paths, path);
    proof {
        if added {
            assert(texts(paths@).to_set() =~= before.to_set().insert(path@)) by {
                assert forall|x: Seq<char>| texts(paths@).to_set().contains(x) <==> before.to_set().insert(
                    path@,
                ).contains(x) by {
                    if texts(paths@).to_set().contains(x) {
                        let k = choose|k: int| 0 <= k < texts(paths@).len() && texts(paths@)[k] == x;
                        if k < before.len() {
                            assert(before[k] == x);
                        }
                    }
                    if before.to_set().insert(path@).contains(x) && x != path@ {
                        let k = choose|k: int| 0 <= k < before.len() && before[k] == x;
                        assert(texts(paths@)[k] == x);
                    }
                    if x == path@ {
                        assert(texts(paths@)[texts(paths@).len() - 1] == x);
                    }
                }
            }
            assert forall|a: int, b: int|
                0 <= a < b < texts(paths@).len() implies texts(paths@)[a] != texts(paths@)[b] by {
                if b == texts(paths@).len() - 1 {
                    assert(texts(paths@)[b] == path@);
                    assert(texts(paths@)[a] == before[a]);
                } else {
                    assert(texts(paths@)[a] == before[a]);
                    assert(texts(paths@)[b] == before[b]);
                }
            }
        } else {
            assert(before.to_set().insert(path@) =~= before.to_set()) by {
                let k = choose|k: int| 0 <= k < before.len() && before[k] == path@;
                assert(before.to_set().contains(path@));
            }
        }
    }
}

/// Moves the file's paths along a commit's changes: a rename of a path it has replaces that
/// path by the new one (drops it when the file was deleted), and a deletion drops the path.
pub fn advance_active_paths(active_paths: &mut Vec<String>, changes: &[CommitFileChange])
    requires
        texts(old(active_paths)@).no_duplicates(),
    ensures
        texts(final(active_paths)@).no_duplicates(),
        texts(final(active_paths)@).to_set() == advance_spec(
            texts(old(active_paths)@).to_set(),
            changes@,
        ),
{
    let ghost start = texts(active_paths@).to_set();
    let mut i: usize = 0;
    while i < changes.len()
        invariant
            i <= changes.len(),
            texts(active_paths@).no_duplicates(),
            texts(active_paths@).to_set() == advance_spec(start, changes@.take(i as int)),
        decreases changes.len() - i,
    {
        let change = &changes[i];
        assert(changes@.take(i + 1).drop_last() =~= changes@.take(i as int));
        assert(changes@.take(i + 1).last() == changes@[i as int]);
        let deleted = str_eq(change.status.as_str(), "deleted");
        let mut moved = false;
        match &change.old_path {
            Some(o) => {
                if remove_path(active_paths, o.as_str()) {
                    if !deleted {
                        insert_path(active_paths, change.path.as_str());
                    }
                    moved = true;
                }
            },
            None => {},
        }
        if !moved && deleted {
            remove_path(active_paths, change.path.as_str());
        }
        i += 1;
    }
    assert(changes@.take(changes.len() as int) =~= changes@);
}

/// `acc` followed by those of `xs` that neither `acc` nor an earlier one of `xs` holds.
pub open spec fn push_new<T>(acc: Seq<T>, xs: Seq<T>) -> Seq<T>
    decreases xs.len(),
{
    if xs.len() == 0 {
        acc
    } else {
        let prev = push_new(acc, xs.drop_last());
        if prev.contains(xs.last()) {
            prev
        } else {
            prev.push(xs.last())
        }
    }
}

/// Appends the touched range of each block that `touched` does not hold yet.
pub fn collect_touched_ranges(touched: &mut Vec<TouchedRangeOutput>, blocks: &[DiffBlockOutput])
    ensures
        final(touched)@ == push_new(old(touched)@, blocks@.map_values(|b: DiffBlockOutput| touched_range_spec(b))),
{
    let ghost start = touched@;
    let ghost ranges = blocks@.map_values(|b: DiffBlockOutput| touched_range_spec(b));
    let mut i: usize = 0;
    while i < blocks.len()
        invariant
            i <= blocks.len(),
            ranges == blocks@.map_values(|b: DiffBlockOutput| touched_range_spec(b)),
            touched@ == push_new(start, ranges.take(i as int)),
        decreases blocks.len() - i,
    {
        assert(ranges.take(i + 1).drop_last() =~= ranges.take(i as int));
        assert(ranges.take(i + 1).last() == ranges[i as int]);
        let range = touched_range_from_block(&blocks[i]);
        let mut found = false;
        let mut j: usize = 0;
        while j < touched.len()
            invariant
                j <= touched.len(),
                found == exists|k: int| 0 <= k < j && touched@[k] == range,
            decreases touched.len() - j,
        {
            if touched[j] == range {
                found = true;
            }
            j += 1;
        }
        assert(found == touched@.contains(range)) by {
            if touched@.contains(range) {
                let k = choose|k: int| 0 <= k < touched@.len() && touched@[k] == range;
                assert(0 <= k < j && touched@[k] == range);
            }
        }
        if !found {
            touched.push(range);
        }
        i += 1;
    }
    assert(ranges.take(blocks.len() as int) =~= ranges);
}

/// The ranges gathered from the side-by-side diffs `builts` of the pairs of old and new
/// contents: for each pair that differs, the ranges of its diff's blocks not gathered yet.
pub open spec fn touched_chain(pairs: Seq<(String, String)>, builts: Seq<BuiltOverlayDiff>) -> Seq<
    TouchedRangeOutput,
>
    decreases pairs.len(),
{
    if pairs.len() == 0 {
        Seq::empty()
    } else {
        let prev = touched_chain(pairs.drop_last(), builts.drop_last());
        if pairs.last().0@ == pairs.last().1@ {
            prev
        } else {
            push_new(prev, builts.last().blocks@.map_values(|b: DiffBlockOutput| touched_range_spec(b)))
        }
    }
}

/// The line ranges a commit touched in the file: for each pair of old and new contents that
/// differ, the ranges of the blocks of their side-by-side diff, each range once.
pub fn touched_ranges_for_texts(pairs: &[(String, String)]) -> (touched: Vec<TouchedRangeOutput>)
    requires
        forall|k: int|
            0 <= k < pairs@.len() ==> (#[trigger] pairs@[k]).0@.len() < usize::MAX
                && pairs@[k].1@.len() < usize::MAX,
    ensures
        exists|builts: Seq<BuiltOverlayDiff>|
            {
                &&& builts.len() == pairs@.len()
                &&& forall|k: int|
                    0 <= k < pairs@.len() && pairs@[k].0@ != pairs@[k].1@ ==> overlay_of_texts(
                        #[trigger] builts[k],
                        pairs@[k].0@,
                        pairs@[k].1@,
                    )
                &&& touched@ == touched_chain(pairs@, builts)
            },
        touched@.no_duplicates(),
        (forall|k: int| 0 <= k < pairs@.len() ==> (#[trigger] pairs@[k]).0@ == pairs@[k].1@)
            ==> touched@.len() == 0,
{
    let mut touched: Vec<TouchedRangeOutput> = Vec::new();
    let ghost mut builts: Seq<BuiltOverlayDiff> = Seq::empty();
    let mut i: usize = 0;
    while i < pairs.len()
        invariant
            i <= pairs.len(),
            forall|k: int|
                0 <= k < pairs@.len() ==> (#[trigger] pairs@[k]).0@.len() < usize::MAX
                    && pairs@[k].1@.len() < usize::MAX,
            builts.len() == i,
            forall|k: int|
                0 <= k < i && pairs@[k].0@ != pairs@[k].1@ ==> overlay_of_texts(
                    #[trigger] builts[k],
                    pairs@[k].0@,
                    pairs@[k].1@,
                ),
            touched@ == touched_chain(pairs@.take(i as int), builts),
            touched@.no_duplicates(),
            (forall|k: int| 0 <= k < i ==> (#[trigger] pairs@[k]).0@ == pairs@[k].1@)
                ==> touched@.len() == 0,
        decreases pairs.len() - i,
    {
        assert(pairs@.take(i + 1).drop_last() =~= pairs@.take(i as int));
        assert(pairs@.take(i + 1).last() == pairs@[i as int]);
        let (old_text, new_text) = &pairs[i];
        if !str_eq(old_text.as_str(), new_text.as_str()) {
            let built = build_overlay_diff(old_text.as_str(), new_text.as_str());
            let ghost before = touched@;
            collect_touched_ranges(&mut touched, built.blocks.as_slice());
            proof {
                lemma_push_new_no_duplicates(
                    before,
                    built.blocks@.map_values(|b: DiffBlockOutput| touched_range_spec(b)),
                );
                let next = builts.push(built);
                assert(next.drop_last() =~= builts);
                builts = next;
            }
        } else {
            proof {
                let next = builts.push(vstd::pervasive::arbitrary());
                assert(next.drop_last() =~= builts);
                builts = next;
            }
        }
        i += 1;
    }
    assert(pairs@.take(pairs.len() as int) =~= pairs@);
    touched
}

proof fn lemma_push_new_no_duplicates<T>(acc: Seq<T>, xs: Seq<T>)
    requires
        acc.no_duplicates(),
    ensures
        push_new(acc, xs).no_duplicates(),
    decreases xs.len(),
{
    if xs.len() > 0 {
        lemma_push_new_no_duplicates(acc, xs.drop_last());
        let prev = push_new(acc, xs.drop_last());
        if !prev.contains(xs.last()) {
            assert forall|a: int, b: int|
                0 <= a < b < prev.push(xs.last()).len() implies prev.push(xs.last())[a] != prev.push(
                xs.last(),
            )[b] by {
                if b == prev.len() {
                    assert(prev.push(xs.last())[a] == prev[a]);
                }
            }
        }
    }
}

/// The candidate a commit makes for attribution: `None` when it touched no line of the file.
pub fn candidate_for_commit(
    filter: &FilterMatcher,
    commit: IndexedCommit,
    touched_ranges: Vec<TouchedRangeOutput>,
) -> (r: Option<RelatedCommitCandidate>)
    ensures
        touched_ranges@.len() == 0 <==> r is None,
        r matches Some(c) ==> c.commit == commit && c.matched_by_filter == filter.accepts(commit)
            && c.touched_ranges@ == touched_ranges@,
{
    if touched_ranges.len() == 0 {
        return None;
    }
    let matched = filter.matches(&commit);
    Some(RelatedCommitCandidate { commit, matched_by_filter: matched, touched_ranges })
}

/// A block lists each author once: no two of the authors drawn from related commits share an
/// author key.
pub proof fn lemma_authors_distinct(cs: Seq<RelatedCommitOutput>)
    ensures
        forall|i: int, j: int|
            0 <= i < j < authors_spec(cs).len() ==> author_key_spec(
                (#[trigger] authors_spec(cs)[i]).0,
                authors_spec(cs)[i].1,
            ) != author_key_spec((#[trigger] authors_spec(cs)[j]).0, authors_spec(cs)[j].1),
    decreases cs.len(),
{
    if cs.len() > 0 {
        lemma_authors_distinct(cs.drop_last());
        let prev = authors_spec(cs.drop_last());
        let a = author_of(cs.last());
        if !(exists|k: int|
            0 <= k < prev.len() && author_key_spec((#[trigger] prev[k]).0, prev[k].1)
                == author_key_spec(a.0, a.1)) {
            let now = prev.push(a);
            assert forall|i: int, j: int| 0 <= i < j < now.len() implies author_key_spec(
                (#[trigger] now[i]).0,
                now[i].1,
            ) != author_key_spec((#[trigger] now[j]).0, now[j].1) by {
                if j == prev.len() {
                    assert(now[i] == prev[i]);
                } else {
                    assert(now[i] == prev[i] && now[j] == prev[j]);
                }
            }
        }
    }
}

/// The changes on a followed path, in order.
pub open spec fn touching_changes(changes: Seq<CommitFileChange>, active: Seq<Seq<char>>) -> Seq<
    CommitFileChange,
>
    decreases changes.len(),
{
    if changes.len() == 0 {
        Seq::empty()
    } else {
        let prev = touching_changes(changes.drop_last(), active);
        if touches_active(changes.last(), active) {
            prev.push(changes.last())
        } else {
            prev
        }
    }
}

/// `text` is what `read_text` may give back for `path` at `hash`, or empty where there is no
/// path.
pub open spec fn side_read<FT: Fn(&str, &str) -> Result<String, AppError>>(
    read_text: FT,
    hash: Seq<char>,
    path: Option<Seq<char>>,
    text: String,
) -> bool {
    match path {
        Some(p) => exists|h: &str, q: &str|
            h@ == hash && q@ == p && #[trigger] read_text.ensures((h, q), Ok::<String, AppError>(text)),
        None => text@ == Seq::<char>::empty(),
    }
}

/// Every lookup of `get_commit` succeeds.
pub open spec fn commits_read_fully<FC: Fn(&str) -> Result<IndexedCommit, AppError>>(get_commit: FC) -> bool {
    forall|h: &str, res: Result<IndexedCommit, AppError>| #[trigger] get_commit.ensures((h,), res) ==> res is Ok
}

/// Every read of `commit_changes` succeeds.
pub open spec fn changes_read_fully<FF: Fn(&str) -> Result<Vec<CommitFileChange>, AppError>>(
    commit_changes: FF,
) -> bool {
    forall|h: &str, res: Result<Vec<CommitFileChange>, AppError>|
        #[trigger] commit_changes.ensures((h,), res) ==> res is Ok
}

/// Every read of `read_text` succeeds, with a text shorter than the largest `usize`.
pub open spec fn texts_read_fully<FT: Fn(&str, &str) -> Result<String, AppError>>(read_text: FT) -> bool {
    forall|h: &str, p: &str, res: Result<String, AppError>|
        #[trigger] read_text.ensures((h, p), res) ==> (res matches Ok(t) && t@.len() < usize::MAX)
}

/// `pair` holds the old content of a change (at its parent) and its new content (at
/// `commit_hash`), as `read_text` may give them.
pub open spec fn change_read<FT: Fn(&str, &str) -> Result<String, AppError>>(
    read_text: FT,
    commit_hash: Seq<char>,
    change: CommitFileChange,
    pair: (String, String),
) -> bool {
    &&& side_read(read_text, change.parent_hash@, old_change_path_spec(change), pair.0)
    &&& side_read(read_text, commit_hash, new_change_path_spec(change), pair.1)
}

/// `v` holds the ranges touched by the changes on a followed path, their contents read with
/// `read_text`: the ranges of the blocks of the side-by-side diffs of the contents that differ,
/// each range once.
pub open spec fn touched_from_reads<FT: Fn(&str, &str) -> Result<String, AppError>>(
    read_text: FT,
    commit_hash: Seq<char>,
    changes: Seq<CommitFileChange>,
    active: Seq<Seq<char>>,
    v: Seq<TouchedRangeOutput>,
) -> bool {
    exists|pairs: Seq<(String, String)>, builts: Seq<BuiltOverlayDiff>|
        {
            &&& builts.len() == pairs.len()
            &&& pairs.len() == touching_changes(changes, active).len()
            &&& forall|k: int|
                0 <= k < pairs.len() ==> change_read(
                    read_text,
                    commit_hash,
                    touching_changes(changes, active)[k],
                    #[trigger] pairs[k],
                )
            &&& forall|k: int|
                0 <= k < pairs.len() && pairs[k].0@ != pairs[k].1@ ==> overlay_of_texts(
                    #[trigger] builts[k],
                    pairs[k].0@,
                    pairs[k].1@,
                )
            &&& v == #[trigger] touched_chain(pairs, builts)
        }
}

/// The line ranges a commit touched in the file: the old and new contents of each of its
/// changes on a followed path are read with `read_text` (the old at the change's parent, the
/// new at the commit; empty where a side is missing), and the ranges of the blocks of the
/// side-by-side diffs of those that differ are gathered, each range once.
pub fn touched_ranges_for_commit_with<FT>(
    read_text: FT,
    commit_hash: &str,
    changes: &[CommitFileChange],
    active_paths: &Vec<String>,
) -> (r: Result<Vec<TouchedRangeOutput>, AppError>)
    where
        FT: Fn(&str, &str) -> Result<String, AppError> + Copy,
    requires
        forall|h: &str, p: &str| #[trigger] read_text.requires((h, p)),
    ensures
        r matches Ok(v) ==> v@.no_duplicates(),
        r matches Ok(v) ==> touched_from_reads(read_text, commit_hash@, changes@, texts(active_paths@), v@),
        (forall|k: int| 0 <= k < changes@.len() ==> !touches_active(#[trigger] changes@[k], texts(active_paths@)))
            ==> (r matches Ok(v) && v@.len() == 0),
{
    let ghost active = texts(active_paths@);
    let mut pairs: Vec<(String, String)> = Vec::new();
    let mut i: usize = 0;
    while i < changes.len()
        invariant
            forall|h: &str, p: &str| #[trigger] read_text.requires((h, p)),
            active == texts(active_paths@),
            i <= changes@.len(),
            forall|k: int| 0 <= k < pairs@.len() ==> (#[trigger] pairs@[k]).0@.len() < usize::MAX
                && pairs@[k].1@.len() < usize::MAX,
            pairs@.len() == touching_changes(changes@.take(i as int), active).len(),
            forall|k: int|
                0 <= k < pairs@.len() ==> change_read(
                    read_text,
                    commit_hash@,
                    touching_changes(changes@.take(i as int), active)[k],
                    #[trigger] pairs@[k],
                ),
            (forall|k: int| 0 <= k < i ==> !touches_active(#[trigger] changes@[k], active))
                ==> pairs@.len() == 0,
        decreases changes.len() - i,
    {
        let change = &changes[i];
        let ghost prev = touching_changes(changes@.take(i as int), active);
        assert(changes@.take(i + 1).drop_last() =~= changes@.take(i as int));
        assert(changes@.take(i + 1).last() == changes@[i as int]);
        if change_touches_active_path(change, active_paths) {
            let parent = change.parent_hash.as_str();
            let old_text = match old_change_path(change) {
                Some(path) => match read_text(parent, path) {
                    Ok(t) => t,
                    Err(e) => {
                        return Err(e);
                    },
                },
                None => String::new(),
            };
            let new_text = match new_change_path(change) {
                Some(path) => match read_text(commit_hash, path) {
                    Ok(t) => t,
                    Err(e) => {
                        return Err(e);
                    },
                },
                None => String::new(),
            };
            if old_text.as_str().unicode_len() == usize::MAX || new_text.as_str().unicode_len() == usize::MAX {
                return Err(AppError::Analysis(String::from_str("文本长度超出支持范围")));
            }
            let ghost pre = pairs@;
            proof {
                assert(change_read(read_text, commit_hash@, *change, (old_text, new_text)));
            }
            pairs.push((old_text, new_text));
            proof {
                assert(touching_changes(changes@.take(i + 1), active) == prev.push(*change));
                assert forall|k: int|
                    0 <= k < pairs@.len() implies change_read(
                    read_text,
                    commit_hash@,
                    touching_changes(changes@.take(i + 1), active)[k],
                    #[trigger] pairs@[k],
                ) by {
                    if k < pre.len() {
                        assert(pairs@[k] == pre[k]);
                    }
                }
            }
        } else {
            assert(touching_changes(changes@.take(i + 1), active) == prev);
        }
        i += 1;
    }
    assert(changes@.take(changes.len() as int) =~= changes@);
    let touched = touched_ranges_for_texts(pairs.as_slice());
    proof {
        if forall|k: int| 0 <= k < changes@.len() ==> !touches_active(#[trigger] changes@[k], texts(active_paths@)) {
            assert(pairs@.len() == 0);
        }
        let builts = choose|builts: Seq<BuiltOverlayDiff>|
            {
                &&& builts.len() == pairs@.len()
                &&& forall|k: int|
                    0 <= k < pairs@.len() && pairs@[k].0@ != pairs@[k].1@ ==> overlay_of_texts(
                        #[trigger] builts[k],
                        pairs@[k].0@,
                        pairs@[k].1@,
                    )
                &&& touched@ == touched_chain(pairs@, builts)
            };
        assert(touched@ == touched_chain(pairs@, builts));
        assert(touched_from_reads(read_text, commit_hash@, changes@, texts(active_paths@), touched@));
    }
    Ok(touched)
}

/// `c` is a commit that `get_commit` may give back for one of `range_hashes`.
pub open spec fn commit_of_range<FC: Fn(&str) -> Result<IndexedCommit, AppError>>(
    get_commit: FC,
    range_hashes: Seq<String>,
    c: IndexedCommit,
) -> bool {
    exists|k: int, h: &str|
        #![trigger range_hashes[k], get_commit.ensures((h,), Ok::<IndexedCommit, AppError>(c))]
        0 <= k < range_hashes.len() && h@ == range_hashes[k]@ && get_commit.ensures(
            (h,),
            Ok::<IndexedCommit, AppError>(c),
        )
}

/// `c` is a candidate of patch inference over a range: its commit is one that `get_commit`
/// gave for a hash of the range, with its filter match, and its touched ranges are those of
/// changes that `commit_changes` gave for that commit, their contents read with `read_text`.
pub open spec fn patch_candidate_read<FC, FF, FT>(
    get_commit: FC,
    commit_changes: FF,
    read_text: FT,
    range_hashes: Seq<String>,
    filter: FilterMatcher,
    c: RelatedCommitCandidate,
) -> bool where
    FC: Fn(&str) -> Result<IndexedCommit, AppError>,
    FF: Fn(&str) -> Result<Vec<CommitFileChange>, AppError>,
    FT: Fn(&str, &str) -> Result<String, AppError>,
 {
    &&& commit_of_range(get_commit, range_hashes, c.commit)
    &&& c.touched_ranges@.len() > 0
    &&& c.touched_ranges@.no_duplicates()
    &&& c.matched_by_filter == filter.accepts(c.commit)
    &&& exists|h: &str, changes: Vec<CommitFileChange>, active: Seq<Seq<char>>|
        #![trigger commit_changes.ensures((h,), Ok::<Vec<CommitFileChange>, AppError>(changes)), touched_from_reads(read_text, c.commit.hash@, changes@, active, c.touched_ranges@)]
        h@ == c.commit.hash@ && commit_changes.ensures((h,), Ok::<Vec<CommitFileChange>, AppError>(changes))
            && touched_from_reads(read_text, c.commit.hash@, changes@, active, c.touched_ranges@)
}

/// `out` is `blocks` with the answer of patch inference from at most as many candidates as the
/// range has commits, each read as `patch_candidate_read` says.
pub open spec fn patch_inference_result<FC, FF, FT>(
    get_commit: FC,
    commit_changes: FF,
    read_text: FT,
    range_hashes: Seq<String>,
    filter: FilterMatcher,
    blocks: Seq<DiffBlockOutput>,
    out: Seq<DiffBlockOutput>,
) -> bool where
    FC: Fn(&str) -> Result<IndexedCommit, AppError>,
    FF: Fn(&str) -> Result<Vec<CommitFileChange>, AppError>,
    FT: Fn(&str, &str) -> Result<String, AppError>,
 {
    exists|candidates: Seq<RelatedCommitCandidate>|
        {
            &&& #[trigger] patch_applied(blocks, candidates, out)
            &&& candidates.len() <= range_hashes.len()
            &&& forall|k: int|
                0 <= k < candidates.len() ==> patch_candidate_read(
                    get_commit,
                    commit_changes,
                    read_text,
                    range_hashes,
                    filter,
                    #[trigger] candidates[k],
                )
        }
}

/// Patch inference: the range's commits are walked in order, following the file's paths
/// through renames; each commit whose changes touched lines of the file becomes a candidate,
/// matched by the filter or not, and each block relates to the candidates whose touched
/// ranges overlap it.
pub fn attach_patch_inference_with<FC, FF, FT>(
    get_commit: FC,
    commit_changes: FF,
    read_text: FT,
    range_hashes: &[String],
    blocks: Vec<DiffBlockOutput>,
    file_path: &str,
    old_path: Option<&str>,
    filter: &FilterMatcher,
) -> (r: Result<Vec<DiffBlockOutput>, AppError>)
    where
        FC: Fn(&str) -> Result<IndexedCommit, AppError> + Copy,
        FF: Fn(&str) -> Result<Vec<CommitFileChange>, AppError> + Copy,
        FT: Fn(&str, &str) -> Result<String, AppError> + Copy,
    requires
        forall|h: &str| #[trigger] get_commit.requires((h,)),
        forall|h: &str| #[trigger] commit_changes.requires((h,)),
        forall|h: &str, p: &str| #[trigger] read_text.requires((h, p)),
    ensures
        r matches Ok(out) ==> patch_inference_result(
            get_commit,
            commit_changes,
            read_text,
            range_hashes@,
            *filter,
            blocks@,
            out@,
        ),
        range_hashes@.len() == 0 ==> (r matches Ok(out) && patch_applied(blocks@, Seq::empty(), out@)),
{
    let ghost blocks_in = blocks@;
    let mut active_paths = initial_active_paths(file_path, old_path);
    proof {
        assert(texts(active_paths@).no_duplicates()) by {
            assert(texts(active_paths@).len() == 1);
        }
    }
    let mut candidates: Vec<RelatedCommitCandidate> = Vec::new();
    let mut i: usize = 0;
    while i < range_hashes.len()
        invariant
            forall|h: &str| #[trigger] get_commit.requires((h,)),
            forall|h: &str| #[trigger] commit_changes.requires((h,)),
            forall|h: &str, p: &str| #[trigger] read_text.requires((h, p)),
            i <= range_hashes@.len(),
            candidates@.len() <= i,
            texts(active_paths@).no_duplicates(),
            forall|k: int|
                0 <= k < candidates@.len() ==> patch_candidate_read(
                    get_commit,
                    commit_changes,
                    read_text,
                    range_hashes@,
                    *filter,
                    #[trigger] candidates@[k],
                ),
        decreases range_hashes.len() - i,
    {
        let h = range_hashes[i].as_str();
        let commit = match get_commit(h) {
            Ok(c) => c,
            Err(e) => {
                return Err(e);
            },
        };
        proof {
            assert(commit_of_range(get_commit, range_hashes@, commit));
        }
        let ch = commit.hash.as_str();
        let changes = match commit_changes(ch) {
            Ok(c) => c,
            Err(e) => {
                return Err(e);
            },
        };
        let ghost active = texts(active_paths@);
        let touched_ranges = match touched_ranges_for_commit_with(
            read_text,
            commit.hash.as_str(),
            changes.as_slice(),
            &active_paths,
        ) {
            Ok(t) => t,
            Err(e) => {
                return Err(e);
            },
        };
        proof {
            assert(touched_from_reads(read_text, commit.hash@, changes@, active, touched_ranges@));
        }
        advance_active_paths(&mut active_paths, changes.as_slice());
        let ghost ranges = touched_ranges@;
        let ghost the_commit = commit;
        let ghost pre = candidates@;
        match candidate_for_commit(filter, commit, touched_ranges) {
            Some(c) => {
                proof {
                    assert(patch_candidate_read(get_commit, commit_changes, read_text, range_hashes@, *filter, c));
                }
                candidates.push(c);
                proof {
                    assert forall|k: int|
                        0 <= k < candidates@.len() implies patch_candidate_read(
                        get_commit,
                        commit_changes,
                        read_text,
                        range_hashes@,
                        *filter,
                        #[trigger] candidates@[k],
                    ) by {
                        if k < pre.len() {
                            assert(candidates@[k] == pre[k]);
                        }
                    }
                }
            },
            None => {},
        }
        i += 1;
    }
    let out = apply_patch_candidates(blocks, candidates.as_slice());
    proof {
        assert(patch_applied(blocks_in, candidates@, out@));
        assert(candidates@.len() <= range_hashes@.len());
        assert(patch_inference_result(
            get_commit,
            commit_changes,
            read_text,
            range_hashes@,
            *filter,
            blocks_in,
            out@,
        ));
        if range_hashes@.len() == 0 {
            assert(candidates@ =~= Seq::<RelatedCommitCandidate>::empty());
        }
    }
    Ok(out)
}

} // verus!
