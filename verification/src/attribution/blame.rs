//! Precise attribution of a block's new lines to the commits that blame names for them.
use crate::attribution::patch_inference::{
    authors_from_related_commits, author_view, authors_spec, commits_read_fully, related_from_commit,
    texts, FilterMatcher,
};
use crate::error::AppError;
use crate::git::blame::BlameLine;
use crate::git::commits::IndexedCommit;
use crate::json::{
    AttributionWarningOutput, AuthorOutput, BlockAttributionOutput, DiffBlockOutput,
    RelatedCommitAttributionOutput, RelatedCommitOutput, TouchedRangeOutput,
};
use crate::text::str_eq;
use vstd::prelude::*;

verus! {

/// What blame gave for a block: the commits of its lines, or nothing usable.
#[derive(Debug)]
pub enum BlameResolution {
    Resolved(Vec<RelatedCommitOutput>),
    Unavailable,
}

/// An attribution of the given confidence whose warnings carry the given codes and messages.
pub open spec fn attribution_is(
    a: Option<BlockAttributionOutput>,
    confidence: Seq<char>,
    warnings: Seq<(Seq<char>, Seq<char>)>,
) -> bool {
    a matches Some(att) && att.confidence@ == confidence && att.warnings@.map_values(
        |w: AttributionWarningOutput| (w.code@, w.message@),
    ) == warnings
}

/// The confidence of an attribution that blame established.
pub open spec fn precise_confidence() -> Seq<char> {
    "precise"@
}

/// The confidence of an attribution inferred from commit diffs.
pub open spec fn inferred_confidence() -> Seq<char> {
    "inferred"@
}

/// The warning code for a block whose lines blame could not attribute.
pub open spec fn blame_unavailable_code() -> Seq<char> {
    "BLAME_UNAVAILABLE"@
}

/// The warning message for a block whose lines blame could not attribute.
pub open spec fn blame_unavailable_message() -> Seq<char> {
    "无法使用 blame 结果，已根据提交差异推断"@
}

/// The warning code for a deleted block, which has no final lines to blame.
pub open spec fn deletion_incomplete_code() -> Seq<char> {
    "DELETION_TRACE_INCOMPLETE"@
}

/// The warning message for a deleted block.
pub open spec fn deletion_incomplete_message() -> Seq<char> {
    "删除块无法通过最终内容 blame，已根据提交差异推断"@
}

/// An attribution established by blame, with no warning.
pub fn precise_attribution() -> (a: BlockAttributionOutput)
    ensures
        attribution_is(Some(a), precise_confidence(), Seq::empty()),
{
    let a = BlockAttributionOutput {
        confidence: String::from_str("precise"),
        warnings: Vec::new(),
    };
    assert(a.warnings@.map_values(|w: AttributionWarningOutput| (w.code@, w.message@)) =~= Seq::<
        (Seq<char>, Seq<char>),
    >::empty());
    a
}

/// An inferred attribution with one warning.
pub fn inferred_attribution(code: &str, message: &str) -> (a: BlockAttributionOutput)
    ensures
        attribution_is(Some(a), inferred_confidence(), seq![(code@, message@)]),
{
    let mut warnings: Vec<AttributionWarningOutput> = Vec::new();
    warnings.push(
        AttributionWarningOutput { code: String::from_str(code), message: String::from_str(message) },
    );
    let a = BlockAttributionOutput { confidence: String::from_str("inferred"), warnings };
    assert(a.warnings@.map_values(|w: AttributionWarningOutput| (w.code@, w.message@)) =~= seq![
        (code@, message@),
    ]);
    a
}

/// Whether a commit that blame names matches the filter: as the earlier attribution of the
/// block said when it named the commit too, else by the filter itself.
pub open spec fn matched_spec(
    previous: Option<RelatedCommitOutput>,
    commit: IndexedCommit,
    filter: FilterMatcher,
) -> bool {
    match previous {
        Some(p) => p.matched_by_filter,
        None => filter.accepts(commit),
    }
}

/// Whether a commit that blame names matches the filter; the earlier attribution's answer has
/// priority.
pub fn matched_by_filter(
    previous: Option<&RelatedCommitOutput>,
    commit: &IndexedCommit,
    filter: &FilterMatcher,
) -> (r: bool)
    ensures
        r == matched_spec(
            match previous {
                Some(p) => Some(*p),
                None => None,
            },
            *commit,
            *filter,
        ),
{
    match previous {
        Some(p) => p.matched_by_filter,
        None => filter.matches(commit),
    }
}

/// The last of `related` that reports the commit `hash`.
pub open spec fn last_with_hash(related: Seq<RelatedCommitOutput>, hash: Seq<char>) -> Option<
    RelatedCommitOutput,
>
    decreases related.len(),
{
    if related.len() == 0 {
        None
    } else if related.last().hash@ == hash {
        Some(related.last())
    } else {
        last_with_hash(related.drop_last(), hash)
    }
}

/// The last of `related` that reports the commit `hash`.
pub fn previous_for_hash<'a>(related: &'a Vec<RelatedCommitOutput>, hash: &str) -> (r: Option<
    &'a RelatedCommitOutput,
>)
    ensures
        match r {
            Some(p) => last_with_hash(related@, hash@) == Some(*p),
            None => last_with_hash(related@, hash@) is None,
        },
{
    let mut i: usize = related.len();
    assert(related@.take(i as int) =~= related@);
    while i > 0
        invariant
            i <= related@.len(),
            last_with_hash(related@, hash@) == last_with_hash(related@.take(i as int), hash@),
        decreases i,
    {
        assert(related@.take(i as int).drop_last() =~= related@.take(i - 1));
        assert(related@.take(i as int).last() == related@[i - 1]);
        if str_eq(related[i - 1].hash.as_str(), hash) {
            return Some(&related[i - 1]);
        }
        i -= 1;
    }
    None
}

/// `r` reports `commit` as blame found it: matched as `matched_spec` says, with the touched
/// ranges of the earlier attribution, by merge trace through the commit itself when it is a
/// merge and by blame otherwise.
pub open spec fn blamed_commit(
    r: RelatedCommitOutput,
    previous: Option<RelatedCommitOutput>,
    commit: IndexedCommit,
    filter: FilterMatcher,
) -> bool {
    related_from_commit(
        r,
        commit,
        matched_spec(previous, commit, filter),
        match previous {
            Some(p) => p.touched_ranges@,
            None => Seq::empty(),
        },
        if commit.is_merge {
            "merge-trace"@
        } else {
            "blame"@
        },
        if commit.is_merge {
            seq![commit.hash@]
        } else {
            Seq::empty()
        },
    )
}

fn copy_ranges(v: &Vec<TouchedRangeOutput>) -> (r: Vec<TouchedRangeOutput>)
    ensures
        r@ == v@,
{
    let mut r: Vec<TouchedRangeOutput> = Vec::new();
    let mut i: usize = 0;
    while i < v.len()
        invariant
            i <= v.len(),
            r@ == v@.take(i as int),
        decreases v.len() - i,
    {
        r.push(v[i]);
        assert(r@ =~= v@.take(i + 1));
        i += 1;
    }
    assert(v@.take(v.len() as int) =~= v@);
    r
}

/// The related commit for one commit that blame named.
pub fn related_commit_from_blame(
    previous: Option<&RelatedCommitOutput>,
    commit: IndexedCommit,
    filter: &FilterMatcher,
) -> (r: RelatedCommitOutput)
    ensures
        blamed_commit(
            r,
            match previous {
                Some(p) => Some(*p),
                None => None,
            },
            commit,
            *filter,
        ),
{
    let matched = matched_by_filter(previous, &commit, filter);
    let touched_ranges = match previous {
        Some(p) => copy_ranges(&p.touched_ranges),
        None => Vec::new(),
    };
    let mut via: Vec<String> = Vec::new();
    let method = if commit.is_merge {
        via.push(commit.hash.clone());
        String::from_str("merge-trace")
    } else {
        String::from_str("blame")
    };
    proof {
        if commit.is_merge {
            assert(texts(via@) =~= seq![commit.hash@]);
        } else {
            assert(texts(via@) =~= Seq::<Seq<char>>::empty());
        }
    }
    RelatedCommitOutput {
        hash: commit.hash,
        short_hash: commit.short_hash,
        author_name: commit.author_name,
        author_email: commit.author_email,
        committed_at: commit.committed_at,
        subject: commit.subject,
        matched_by_filter: matched,
        touched_ranges,
        attribution: Some(RelatedCommitAttributionOutput { method, via_merge_hashes: via }),
    }
}

/// The commit hashes of blame lines, each once, in order of first appearance.
pub open spec fn unique_hashes_spec(lines: Seq<BlameLine>) -> Seq<Seq<char>>
    decreases lines.len(),
{
    if lines.len() == 0 {
        Seq::empty()
    } else {
        let prev = unique_hashes_spec(lines.drop_last());
        if prev.contains(lines.last().commit_hash@) {
            prev
        } else {
            prev.push(lines.last().commit_hash@)
        }
    }
}

/// The commit hashes of blame lines, each once, in order of first appearance.
pub fn unique_blame_hashes(lines: &[BlameLine]) -> (hashes: Vec<String>)
    ensures
        texts(hashes@) == unique_hashes_spec(lines@),
{
    let mut hashes: Vec<String> = Vec::new();
    let mut i: usize = 0;
    while i < lines.len()
        invariant
            i <= lines.len(),
            texts(hashes@) == unique_hashes_spec(lines@.take(i as int)),
        decreases lines.len() - i,
    {
        assert(lines@.take(i + 1).drop_last() =~= lines@.take(i as int));
        assert(lines@.take(i + 1).last() == lines@[i as int]);
        crate::git::diff::push_unique_path(&mut hashes, lines[i].commit_hash.as_str());
        i += 1;
    }
    assert(lines@.take(lines.len() as int) =~= lines@);
    hashes
}

/// The related commits of a block from the commits of its blamed lines, in order: `None`
/// stands for unavailable blame when there is no commit.
pub fn resolve_related_commits(
    block: &DiffBlockOutput,
    commits: Vec<IndexedCommit>,
    filter: &FilterMatcher,
) -> (r: BlameResolution)
    ensures
        commits@.len() == 0 ==> r is Unavailable,
        commits@.len() > 0 ==> (r matches BlameResolution::Resolved(v) && v@.len()
            == commits@.len() && forall|k: int|
            0 <= k < v@.len() ==> blamed_commit(
                #[trigger] v@[k],
                last_with_hash(block.related_commits@, commits@[k].hash@),
                commits@[k],
                *filter,
            )),
{
    if commits.len() == 0 {
        return BlameResolution::Unavailable;
    }
    let ghost original = commits@;
    let mut remaining = commits;
    let mut related: Vec<RelatedCommitOutput> = Vec::new();
    let mut i: usize = 0;
    let total = remaining.len();
    while remaining.len() > 0
        invariant
            total == original.len(),
            i + remaining@.len() == original.len(),
            remaining@ == original.skip(i as int),
            related@.len() == i,
            forall|k: int|
                0 <= k < i ==> blamed_commit(
                    #[trigger] related@[k],
                    last_with_hash(block.related_commits@, original[k].hash@),
                    original[k],
                    *filter,
                ),
        decreases remaining@.len(),
    {
        let commit = remaining.remove(0);
        assert(commit == original[i as int]);
        let previous = previous_for_hash(&block.related_commits, commit.hash.as_str());
        let rc = related_commit_from_blame(previous, commit, filter);
        related.push(rc);
        i += 1;
    }
    BlameResolution::Resolved(related)
}

/// Whether a block has no final lines, so that blame cannot see it.
pub open spec fn is_deletion(block: DiffBlockOutput) -> bool {
    block.new_start == 0 || block.new_end == 0
}

/// `out` is `block` with only its related commits, authors and attribution changed.
pub open spec fn same_block(out: DiffBlockOutput, block: DiffBlockOutput) -> bool {
    &&& out.id == block.id
    &&& out.old_start == block.old_start
    &&& out.old_end == block.old_end
    &&& out.new_start == block.new_start
    &&& out.new_end == block.new_end
    &&& out.row_start_index == block.row_start_index
    &&& out.row_end_index == block.row_end_index
    &&& out.change_type == block.change_type
    &&& out.rows == block.rows
}

/// `out` is `block` after blame's answer `res`: the blamed commits with their authors and a
/// precise attribution when blame named any, else the earlier commits and authors with an
/// inferred attribution that warns of unavailable blame.
pub open spec fn blame_applied(block: DiffBlockOutput, res: BlameResolution, out: DiffBlockOutput) -> bool {
    &&& same_block(out, block)
    &&& match res {
        BlameResolution::Resolved(v) if v@.len() > 0 => {
            &&& out.related_commits == v
            &&& out.authors@.map_values(|a: AuthorOutput| author_view(a)) == authors_spec(v@)
            &&& attribution_is(out.attribution, precise_confidence(), Seq::empty())
        },
        _ => {
            &&& out.related_commits == block.related_commits
            &&& out.authors == block.authors
            &&& attribution_is(
                out.attribution,
                inferred_confidence(),
                seq![(blame_unavailable_code(), blame_unavailable_message())],
            )
        },
    }
}

/// Applies blame's answer for a block with final lines.
pub fn apply_blame_resolution(block: DiffBlockOutput, resolution: BlameResolution) -> (out:
    DiffBlockOutput)
    ensures
        blame_applied(block, resolution, out),
{
    let mut block = block;
    match resolution {
        BlameResolution::Resolved(related) => {
            if related.len() == 0 {
                block.attribution = Some(
                    inferred_attribution("BLAME_UNAVAILABLE", "无法使用 blame 结果，已根据提交差异推断"),
                );
            } else {
                let authors = authors_from_related_commits(related.as_slice());
                block.related_commits = related;
                block.authors = authors;
                block.attribution = Some(precise_attribution());
            }
        },
        BlameResolution::Unavailable => {
            block.attribution = Some(
                inferred_attribution("BLAME_UNAVAILABLE", "无法使用 blame 结果，已根据提交差异推断"),
            );
        },
    }
    block
}

/// `out` is a deleted block with its earlier commits and authors and an inferred attribution
/// that warns that deletions are not traced by blame.
pub open spec fn deletion_applied(block: DiffBlockOutput, out: DiffBlockOutput) -> bool {
    &&& same_block(out, block)
    &&& out.related_commits == block.related_commits
    &&& out.authors == block.authors
    &&& attribution_is(
        out.attribution,
        inferred_confidence(),
        seq![(deletion_incomplete_code(), deletion_incomplete_message())],
    )
}

/// Attaches blame's attribution to a block: a deleted block gets the deletion warning without
/// asking `resolve_blame`; any other block gets what `resolve_blame` answers for it, and its
/// failure is returned as it is.
pub fn attach_block_blame_attribution_with_resolver<F>(block: DiffBlockOutput, resolve_blame: F) -> (r:
    Result<DiffBlockOutput, AppError>)
    where
        F: FnOnce(&DiffBlockOutput) -> Result<BlameResolution, AppError>,
    requires
        !is_deletion(block) ==> call_requires(resolve_blame, (&block,)),
    ensures
        is_deletion(block) ==> (r matches Ok(out) && deletion_applied(block, out)),
        !is_deletion(block) ==> exists|res: Result<BlameResolution, AppError>|
            call_ensures(resolve_blame, (&block,), res) && match res {
                Ok(resolution) => (r matches Ok(out) && blame_applied(block, resolution, out)),
                Err(e) => r == Err::<DiffBlockOutput, AppError>(e),
            },
        !is_deletion(block) ==> (r matches Ok(out) ==> exists|resolution: BlameResolution|
            blame_applied(block, resolution, out)),
{
    let mut block = block;
    if block.new_start == 0 || block.new_end == 0 {
        block.attribution = Some(
            inferred_attribution(
                "DELETION_TRACE_INCOMPLETE",
                "删除块无法通过最终内容 blame，已根据提交差异推断",
            ),
        );
        return Ok(block);
    }
    let res = resolve_blame(&block);
    match res {
        Ok(resolution) => {
            let ghost given = resolution;
            let out = apply_blame_resolution(block, resolution);
            assert(blame_applied(block, given, out));
            Ok(out)
        },
        Err(e) => Err(e),
    }
}

/// `v` reports `commits` in order as blamed for `block`.
pub open spec fn blamed_all(
    v: Seq<RelatedCommitOutput>,
    commits: Seq<IndexedCommit>,
    block: DiffBlockOutput,
    filter: FilterMatcher,
) -> bool {
    &&& commits.len() == v.len()
    &&& forall|k: int|
        0 <= k < v.len() ==> blamed_commit(
            #[trigger] v[k],
            last_with_hash(block.related_commits@, commits[k].hash@),
            commits[k],
            filter,
        )
}

/// `c` is a commit that `lookup` may give back for `hash`.
pub open spec fn looked_up<F: Fn(&str) -> Result<IndexedCommit, AppError>>(
    lookup: F,
    hash: Seq<char>,
    c: IndexedCommit,
) -> bool {
    exists|h: &str| h@ == hash && #[trigger] lookup.ensures((h,), Ok::<IndexedCommit, AppError>(c))
}

/// `v` reports as blamed, in order, commits that `lookup` gave back for `hashes`, one for each.
pub open spec fn blamed_lookups<F: Fn(&str) -> Result<IndexedCommit, AppError>>(
    v: Seq<RelatedCommitOutput>,
    hashes: Seq<Seq<char>>,
    block: DiffBlockOutput,
    filter: FilterMatcher,
    lookup: F,
) -> bool {
    exists|commits: Seq<IndexedCommit>|
        #[trigger] blamed_all(v, commits, block, filter) && commits.len() == hashes.len() && forall|k: int|
            0 <= k < commits.len() ==> #[trigger] looked_up(lookup, hashes[k], commits[k])
}

/// The related commits of a block from its blamed lines: unavailable without a line; else
/// each commit of the lines, once and in order of first appearance, is looked up with
/// `lookup_commit` and reported as blamed, and a failed lookup is returned as it is.
pub fn resolve_related_commits_from_blame_lines<F>(
    block: &DiffBlockOutput,
    blame_lines: Vec<BlameLine>,
    filter: &FilterMatcher,
    lookup_commit: F,
) -> (r: Result<BlameResolution, AppError>)
    where
        F: Fn(&str) -> Result<IndexedCommit, AppError>,
    requires
        forall|h: &str| #[trigger] lookup_commit.requires((h,)),
    ensures
        blame_lines@.len() == 0 ==> (r matches Ok(res) && res is Unavailable),
        blame_lines@.len() > 0 ==> (r matches Ok(res) ==> res is Resolved),
        r matches Ok(BlameResolution::Resolved(v)) ==> (v@.len() == unique_hashes_spec(blame_lines@).len()
            && blamed_lookups(v@, unique_hashes_spec(blame_lines@), *block, *filter, lookup_commit)),
        commits_read_fully(lookup_commit) ==> r is Ok,
{
    if blame_lines.len() == 0 {
        return Ok(BlameResolution::Unavailable);
    }
    let hashes = unique_blame_hashes(blame_lines.as_slice());
    proof {
        lemma_unique_hashes_nonempty(blame_lines@);
    }
    let mut commits: Vec<IndexedCommit> = Vec::new();
    let mut i: usize = 0;
    while i < hashes.len()
        invariant
            forall|h: &str| #[trigger] lookup_commit.requires((h,)),
            blame_lines@.len() > 0,
            i <= hashes@.len(),
            commits@.len() == i,
            forall|k: int| 0 <= k < i ==> #[trigger] looked_up(lookup_commit, hashes@[k]@, commits@[k]),
        decreases hashes.len() - i,
    {
        let h = hashes[i].as_str();
        match lookup_commit(h) {
            Ok(c) => {
                proof {
                    assert(looked_up(lookup_commit, hashes@[i as int]@, c));
                }
                commits.push(c);
            },
            Err(e) => {
                return Err(e);
            },
        }
        i += 1;
    }
    let ghost found = commits@;
    let res = resolve_related_commits(block, commits, filter);
    proof {
        if res is Resolved {
            assert(blamed_all(res->Resolved_0@, found, *block, *filter));
            assert forall|k: int| 0 <= k < found.len() implies #[trigger] looked_up(
                lookup_commit,
                unique_hashes_spec(blame_lines@)[k],
                found[k],
            ) by {
                assert(texts(hashes@)[k] == hashes@[k]@);
            }
            assert(blamed_lookups(res->Resolved_0@, unique_hashes_spec(blame_lines@), *block, *filter, lookup_commit));
        }
    }
    Ok(res)
}

proof fn lemma_unique_hashes_nonempty(lines: Seq<BlameLine>)
    ensures
        lines.len() > 0 ==> unique_hashes_spec(lines).len() > 0,
    decreases lines.len(),
{
    if lines.len() > 0 {
        lemma_unique_hashes_nonempty(lines.drop_last());
    }
}

/// The related commits of a block from blame's answer: a failed blame is returned as it is,
/// without looking any commit up; else as from its lines.
pub fn resolve_blame_range_result<F>(
    block: &DiffBlockOutput,
    blame_lines: Result<Vec<BlameLine>, AppError>,
    filter: &FilterMatcher,
    lookup_commit: F,
) -> (r: Result<BlameResolution, AppError>)
    where
        F: Fn(&str) -> Result<IndexedCommit, AppError>,
    requires
        forall|h: &str| #[trigger] lookup_commit.requires((h,)),
    ensures
        blame_lines matches Err(e) ==> r == Err::<BlameResolution, AppError>(e),
        blame_lines matches Ok(lines) ==> (lines@.len() == 0 ==> (r matches Ok(res) && res is Unavailable)),
        blame_lines matches Ok(lines) ==> (lines@.len() > 0 ==> (r matches Ok(res) ==> res is Resolved)),
        blame_lines matches Ok(lines) ==> (r matches Ok(BlameResolution::Resolved(v)) ==> blamed_lookups(
            v@,
            unique_hashes_spec(lines@),
            *block,
            *filter,
            lookup_commit,
        )),
        blame_lines is Ok && commits_read_fully(lookup_commit) ==> r is Ok,
{
    match blame_lines {
        Err(e) => Err(e),
        Ok(lines) => resolve_related_commits_from_blame_lines(block, lines, filter, lookup_commit),
    }
}

/// `res` is what blame says of `block`: the commits that `lookup` gave back for the commits
/// of lines that `blame_range` gave for the block's new lines, or unavailable where it gave
/// no line.
pub open spec fn blame_answered<FB, FC>(
    blame_range: FB,
    lookup: FC,
    block: DiffBlockOutput,
    filter: FilterMatcher,
    res: BlameResolution,
) -> bool where
    FB: Fn(usize, usize) -> Result<Vec<BlameLine>, AppError>,
    FC: Fn(&str) -> Result<IndexedCommit, AppError>,
 {
    exists|lines: Vec<BlameLine>|
        #[trigger] blame_range.ensures((block.new_start, block.new_end), Ok::<Vec<BlameLine>, AppError>(lines))
            && match res {
            BlameResolution::Resolved(v) => blamed_lookups(v@, unique_hashes_spec(lines@), block, filter, lookup),
            BlameResolution::Unavailable => lines@.len() == 0,
        }
}

/// Every call of `blame_range` succeeds.
pub open spec fn blames_read_fully<FB: Fn(usize, usize) -> Result<Vec<BlameLine>, AppError>>(blame_range: FB) -> bool {
    forall|s: usize, e: usize, res: Result<Vec<BlameLine>, AppError>|
        #[trigger] blame_range.ensures((s, e), res) ==> res is Ok
}

/// `out` is `blocks` after blame attribution: each block with no final lines with the
/// deletion warning, each other block with blame's answer for it applied.
pub open spec fn blame_attributed<FB, FC>(
    blame_range: FB,
    lookup: FC,
    filter: FilterMatcher,
    blocks: Seq<DiffBlockOutput>,
    out: Seq<DiffBlockOutput>,
) -> bool where
    FB: Fn(usize, usize) -> Result<Vec<BlameLine>, AppError>,
    FC: Fn(&str) -> Result<IndexedCommit, AppError>,
 {
    &&& out.len() == blocks.len()
    &&& forall|i: int|
        0 <= i < blocks.len() ==> (is_deletion(#[trigger] blocks[i]) ==> deletion_applied(
            blocks[i],
            out[i],
        ))
    &&& forall|i: int|
        0 <= i < blocks.len() ==> (!is_deletion(#[trigger] blocks[i]) ==> exists|res: BlameResolution|
            #[trigger] blame_applied(blocks[i], res, out[i]) && blame_answered(
                blame_range,
                lookup,
                blocks[i],
                filter,
                res,
            ))
}

/// Blame attribution for each block: a block with no final lines keeps its commits with the
/// deletion warning; any other block is blamed over its new lines with `blame_range`, its
/// commits looked up with `lookup_commit`, and gets blame's answer. The first failure is
/// returned as it is.
pub fn attach_blame_attribution_with<FB, FC>(
    blame_range: FB,
    lookup_commit: FC,
    blocks: Vec<DiffBlockOutput>,
    filter: &FilterMatcher,
) -> (r: Result<Vec<DiffBlockOutput>, AppError>)
    where
        FB: Fn(usize, usize) -> Result<Vec<BlameLine>, AppError> + Copy,
        FC: Fn(&str) -> Result<IndexedCommit, AppError> + Copy,
    requires
        forall|s: usize, e: usize| #[trigger] blame_range.requires((s, e)),
        forall|h: &str| #[trigger] lookup_commit.requires((h,)),
    ensures
        r matches Ok(out) ==> blame_attributed(blame_range, lookup_commit, *filter, blocks@, out@),
        blames_read_fully(blame_range) && commits_read_fully(lookup_commit) ==> r is Ok,
{
    let ghost original = blocks@;
    let mut remaining = blocks;
    let mut out: Vec<DiffBlockOutput> = Vec::new();
    let mut i: usize = 0;
    let total = remaining.len();
    while remaining.len() > 0
        invariant
            forall|s: usize, e: usize| #[trigger] blame_range.requires((s, e)),
            forall|h: &str| #[trigger] lookup_commit.requires((h,)),
            total == original.len(),
            i + remaining@.len() == original.len(),
            remaining@ == original.skip(i as int),
            out@.len() == i,
            forall|k: int|
                0 <= k < i ==> (is_deletion(#[trigger] original[k]) ==> deletion_applied(
                    original[k],
                    out@[k],
                )),
            forall|k: int|
                0 <= k < i ==> (!is_deletion(#[trigger] original[k]) ==> exists|res: BlameResolution|
                    #[trigger] blame_applied(original[k], res, out@[k]) && blame_answered(
                        blame_range,
                        lookup_commit,
                        original[k],
                        *filter,
                        res,
                    )),
        decreases remaining@.len(),
    {
        let block = remaining.remove(0);
        assert(block == original[i as int]);
        let resolver = |b: &DiffBlockOutput| -> (res: Result<BlameResolution, AppError>)
            requires
                forall|s: usize, e: usize| #[trigger] blame_range.requires((s, e)),
                forall|h: &str| #[trigger] lookup_commit.requires((h,)),
            ensures
                res matches Ok(resolution) ==> blame_answered(blame_range, lookup_commit, *b, *filter, resolution),
                blames_read_fully(blame_range) && commits_read_fully(lookup_commit) ==> res is Ok,
            {
                let lines = blame_range(b.new_start, b.new_end);
                let ghost given_lines = lines;
                let res = resolve_blame_range_result(b, lines, filter, lookup_commit);
                proof {
                    if res is Ok {
                        let resolution = res->Ok_0;
                        let l = given_lines->Ok_0;
                        assert(blame_range.ensures((b.new_start, b.new_end), Ok::<Vec<BlameLine>, AppError>(l)));
                        if resolution is Unavailable {
                            assert(l@.len() == 0);
                        }
                        assert(blame_answered(blame_range, lookup_commit, *b, *filter, resolution));
                    }
                }
                res
            };
        let ghost before = out@;
        let ghost given = block;
        match attach_block_blame_attribution_with_resolver(block, resolver) {
            Ok(traced) => {
                proof {
                    if !is_deletion(given) {
                        let wr = choose|res: Result<BlameResolution, AppError>|
                            call_ensures(resolver, (&given,), res) && match res {
                                Ok(resolution) => (Ok::<DiffBlockOutput, AppError>(traced) matches Ok(out)
                                    && blame_applied(given, resolution, out)),
                                Err(e) => Ok::<DiffBlockOutput, AppError>(traced) == Err::<DiffBlockOutput, AppError>(e),
                            };
                        let w = wr->Ok_0;
                        assert(blame_applied(given, w, traced));
                        assert(blame_answered(blame_range, lookup_commit, given, *filter, w));
                        assert(blame_applied(original[i as int], w, traced));
                    }
                }
                out.push(traced);
            },
            Err(e) => {
                proof {
                    if blames_read_fully(blame_range) && commits_read_fully(lookup_commit) {
                        let wr = choose|res: Result<BlameResolution, AppError>|
                            call_ensures(resolver, (&given,), res) && match res {
                                Ok(resolution) => (Err::<DiffBlockOutput, AppError>(e) matches Ok(out)
                                    && blame_applied(given, resolution, out)),
                                Err(e2) => Err::<DiffBlockOutput, AppError>(e) == Err::<DiffBlockOutput, AppError>(e2),
                            };
                        assert(wr is Ok);
                    }
                }
                return Err(e);
            },
        }
        proof {
            assert forall|k: int| 0 <= k < i + 1 implies (is_deletion(#[trigger] original[k]) ==> deletion_applied(
                original[k],
                out@[k],
            )) by {
                if k < i {
                    assert(out@[k] == before[k]);
                }
            }
            assert forall|k: int| 0 <= k < i + 1 implies (!is_deletion(#[trigger] original[k]) ==> exists|
                res: BlameResolution,
            | #[trigger] blame_applied(original[k], res, out@[k]) && blame_answered(
                blame_range,
                lookup_commit,
                original[k],
                *filter,
                res,
            )) by {
                if k < i {
                    assert(out@[k] == before[k]);
                } else if !is_deletion(original[k]) {
                    let w = choose|res: BlameResolution|
                        blame_applied(given, res, out@[k]) && blame_answered(
                            blame_range,
                            lookup_commit,
                            given,
                            *filter,
                            res,
                        );
                    assert(blame_applied(original[k], w, out@[k]));
                }
            }
        }
        i += 1;
    }
    assert(blame_attributed(blame_range, lookup_commit, *filter, original, out@));
    Ok(out)
}

} // verus!
