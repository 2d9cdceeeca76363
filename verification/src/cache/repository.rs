//! The cache's own decisions: whether a branch snapshot can be reused.
use crate::attribution::patch_inference::texts;
use crate::cache::models::{CachedBlockCommit, CachedFileBlock, CachedTouchedRange};
use crate::contracts::CacheState;
use crate::error::AppError;
use crate::index::writer::{as_i64, out_of_range_message};
use crate::text::str_eq;
use vstd::prelude::*;

verus! {

/// The state of a branch's cached snapshot: a hit when it was made at the current head by the
/// current analysis version, stale when it exists otherwise, a miss when there is none.
pub open spec fn cache_state_spec(
    cached: Option<(Seq<char>, u32)>,
    current_head: Seq<char>,
    analysis_version: u32,
) -> CacheState {
    match cached {
        Some((head, version)) => if head == current_head && version == analysis_version {
            CacheState::Hit
        } else {
            CacheState::Stale
        },
        None => CacheState::Miss,
    }
}

/// The state of a branch's cached snapshot from its recorded head and analysis version.
pub fn cache_state_from(cached: Option<(&str, u32)>, current_head: &str, analysis_version: u32) -> (s:
    CacheState)
    ensures
        s == cache_state_spec(
            match cached {
                Some((h, v)) => Some((h@, v)),
                None => None,
            },
            current_head@,
            analysis_version,
        ),
{
    match cached {
        Some((head, version)) => {
            if str_eq(head, current_head) && version == analysis_version {
                CacheState::Hit
            } else {
                CacheState::Stale
            }
        },
        None => CacheState::Miss,
    }
}

/// An optional value as the database's signed 64-bit integer.
pub fn optional_i64(value: Option<u64>, field: &str) -> (r: Result<Option<i64>, AppError>)
    ensures
        match value {
            None => r == Ok::<Option<i64>, AppError>(None),
            Some(v) => if v <= i64::MAX {
                r == Ok::<Option<i64>, AppError>(Some(v as i64))
            } else {
                r matches Err(AppError::InvalidArgument(m)) && m@ == out_of_range_message(field@)
            },
        },
{
    match value {
        Some(v) => match as_i64(v, field) {
            Ok(x) => Ok(Some(x)),
            Err(e) => Err(e),
        },
        None => Ok(None),
    }
}

/// A cached touched-range row: the block ordinal, the commit hash and the range.
pub type RangeRow = (u32, String, CachedTouchedRange);

/// A cached merge-source row: the block ordinal, the commit hash and a merge's hash.
pub type MergeRow = (u32, String, String);

/// A cached block-commit row: the block ordinal, the commit hash, whether the commit matched
/// the filter, and how it was attributed.
pub type BlockCommitRow = (u32, String, bool, Option<i16>);

/// The ranges of the rows keyed by block `o` and commit `h`, in row order.
pub open spec fn ranges_for(rows: Seq<RangeRow>, o: u32, h: Seq<char>) -> Seq<CachedTouchedRange>
    decreases rows.len(),
{
    if rows.len() == 0 {
        Seq::empty()
    } else {
        let prev = ranges_for(rows.drop_last(), o, h);
        if rows.last().0 == o && rows.last().1@ == h {
            prev.push(rows.last().2)
        } else {
            prev
        }
    }
}

/// The merge hashes of the rows keyed by block `o` and commit `h`, in row order.
pub open spec fn merges_for(rows: Seq<MergeRow>, o: u32, h: Seq<char>) -> Seq<Seq<char>>
    decreases rows.len(),
{
    if rows.len() == 0 {
        Seq::empty()
    } else {
        let prev = merges_for(rows.drop_last(), o, h);
        if rows.last().0 == o && rows.last().1@ == h {
            prev.push(rows.last().2@)
        } else {
            prev
        }
    }
}

/// Whether a commit row before row `j` has the same block and commit.
pub open spec fn earlier_commit_key(rows: Seq<BlockCommitRow>, j: int) -> bool {
    exists|k: int| 0 <= k < j && #[trigger] rows[k].0 == rows[j].0 && rows[k].1@ == rows[j].1@
}

/// A cached block commit as plain values.
pub open spec fn block_commit_view(c: CachedBlockCommit) -> (
    Seq<char>,
    bool,
    Option<i16>,
    Seq<CachedTouchedRange>,
    Seq<Seq<char>>,
) {
    (c.commit_hash@, c.matched_by_filter, c.attribution_method, c.touched_ranges@, texts(c.merge_hashes@))
}

/// The block commit that commit row `j` stands for: its ranges and merge hashes go to the
/// first row with its block and commit.
pub open spec fn expected_commit(
    commits: Seq<BlockCommitRow>,
    ranges: Seq<RangeRow>,
    merges: Seq<MergeRow>,
    j: int,
) -> (Seq<char>, bool, Option<i16>, Seq<CachedTouchedRange>, Seq<Seq<char>>) {
    let r = commits[j];
    if earlier_commit_key(commits, j) {
        (r.1@, r.2, r.3, Seq::empty(), Seq::empty())
    } else {
        (r.1@, r.2, r.3, ranges_for(ranges, r.0, r.1@), merges_for(merges, r.0, r.1@))
    }
}

/// The commits of block `o` among the first `n` commit rows, in row order.
pub open spec fn commits_for(
    commits: Seq<BlockCommitRow>,
    ranges: Seq<RangeRow>,
    merges: Seq<MergeRow>,
    o: u32,
    n: int,
) -> Seq<(Seq<char>, bool, Option<i16>, Seq<CachedTouchedRange>, Seq<Seq<char>>)>
    decreases n,
{
    if n <= 0 {
        Seq::empty()
    } else {
        let prev = commits_for(commits, ranges, merges, o, n - 1);
        if commits[n - 1].0 == o {
            prev.push(expected_commit(commits, ranges, merges, n - 1))
        } else {
            prev
        }
    }
}

/// Whether a block row before row `i` has the same ordinal.
pub open spec fn earlier_block(blocks: Seq<CachedFileBlock>, i: int) -> bool {
    exists|k: int| 0 <= k < i && #[trigger] blocks[k].ordinal == blocks[i].ordinal
}

fn ranges_for_key(ranges: &[RangeRow], o: u32, h: &str) -> (v: Vec<CachedTouchedRange>)
    ensures
        v@ == ranges_for(ranges@, o, h@),
{
    let mut v: Vec<CachedTouchedRange> = Vec::new();
    let mut i: usize = 0;
    while i < ranges.len()
        invariant
            i <= ranges@.len(),
            v@ == ranges_for(ranges@.take(i as int), o, h@),
        decreases ranges.len() - i,
    {
        assert(ranges@.take(i + 1).drop_last() =~= ranges@.take(i as int));
        assert(ranges@.take(i + 1).last() == ranges@[i as int]);
        if ranges[i].0 == o && str_eq(ranges[i].1.as_str(), h) {
            v.push(ranges[i].2);
        }
        i += 1;
    }
    assert(ranges@.take(ranges@.len() as int) =~= ranges@);
    v
}

fn merges_for_key(merges: &[MergeRow], o: u32, h: &str) -> (v: Vec<String>)
    ensures
        texts(v@) == merges_for(merges@, o, h@),
{
    let mut v: Vec<String> = Vec::new();
    let mut i: usize = 0;
    while i < merges.len()
        invariant
            i <= merges@.len(),
            texts(v@) == merges_for(merges@.take(i as int), o, h@),
        decreases merges.len() - i,
    {
        assert(merges@.take(i + 1).drop_last() =~= merges@.take(i as int));
        assert(merges@.take(i + 1).last() == merges@[i as int]);
        if merges[i].0 == o && str_eq(merges[i].1.as_str(), h) {
            let ghost before = v@;
            let m = merges[i].2.clone();
            v.push(m);
            assert(texts(v@) =~= texts(before).push(m@));
        }
        i += 1;
    }
    assert(merges@.take(merges@.len() as int) =~= merges@);
    v
}

fn has_earlier_commit_key(commits: &[BlockCommitRow], j: usize) -> (r: bool)
    requires
        j < commits@.len(),
    ensures
        r == earlier_commit_key(commits@, j as int),
{
    let mut k: usize = 0;
    while k < j
        invariant
            k <= j < commits@.len(),
            forall|m: int| 0 <= m < k ==> !(#[trigger] commits@[m].0 == commits@[j as int].0 && commits@[m].1@
                == commits@[j as int].1@),
        decreases j - k,
    {
        if commits[k].0 == commits[j].0 && str_eq(commits[k].1.as_str(), commits[j].1.as_str()) {
            return true;
        }
        k += 1;
    }
    false
}

fn block_commits(commits: &[BlockCommitRow], ranges: &[RangeRow], merges: &[MergeRow], o: u32) -> (v: Vec<
    CachedBlockCommit,
>)
    ensures
        v@.map_values(|c: CachedBlockCommit| block_commit_view(c)) == commits_for(
            commits@,
            ranges@,
            merges@,
            o,
            commits@.len() as int,
        ),
{
    let mut v: Vec<CachedBlockCommit> = Vec::new();
    let mut j: usize = 0;
    while j < commits.len()
        invariant
            j <= commits@.len(),
            v@.map_values(|c: CachedBlockCommit| block_commit_view(c)) == commits_for(
                commits@,
                ranges@,
                merges@,
                o,
                j as int,
            ),
        decreases commits.len() - j,
    {
        if commits[j].0 == o {
            let earlier = has_earlier_commit_key(commits, j);
            let hash = commits[j].1.as_str();
            let (touched_ranges, merge_hashes) = if earlier {
                (Vec::new(), Vec::new())
            } else {
                (ranges_for_key(ranges, o, hash), merges_for_key(merges, o, hash))
            };
            proof {
                if earlier {
                    assert(touched_ranges@ =~= Seq::<CachedTouchedRange>::empty());
                    assert(texts(merge_hashes@) =~= Seq::<Seq<char>>::empty());
                }
            }
            let c = CachedBlockCommit {
                commit_hash: commits[j].1.clone(),
                matched_by_filter: commits[j].2,
                attribution_method: commits[j].3,
                touched_ranges,
                merge_hashes,
            };
            let ghost before = v@;
            v.push(c);
            assert(block_commit_view(c) == expected_commit(commits@, ranges@, merges@, j as int));
            assert(v@.map_values(|c: CachedBlockCommit| block_commit_view(c)) =~= before.map_values(
                |c: CachedBlockCommit| block_commit_view(c),
            ).push(block_commit_view(c)));
        }
        j += 1;
    }
    v
}

fn has_earlier_block(blocks: &[CachedFileBlock], i: usize) -> (r: bool)
    requires
        i < blocks@.len(),
    ensures
        r == earlier_block(blocks@, i as int),
{
    let mut k: usize = 0;
    while k < i
        invariant
            k <= i < blocks@.len(),
            forall|m: int| 0 <= m < k ==> #[trigger] blocks@[m].ordinal != blocks@[i as int].ordinal,
        decreases i - k,
    {
        if blocks[k].ordinal == blocks[i].ordinal {
            return true;
        }
        k += 1;
    }
    false
}

/// The cached blocks of a file analysis from the rows of its tables: each block row with the
/// commit rows of its ordinal, in row order (all of them go to the first block row with that
/// ordinal), and each commit with the touched ranges and merge hashes of its block and commit
/// (all of them go to the first commit row with that block and commit).
pub fn assemble_file_blocks(
    blocks: &[CachedFileBlock],
    commits: &[BlockCommitRow],
    ranges: &[RangeRow],
    merges: &[MergeRow],
) -> (out: Vec<CachedFileBlock>)
    ensures
        out@.len() == blocks@.len(),
        forall|i: int|
            0 <= i < blocks@.len() ==> {
                let b = #[trigger] out@[i];
                let src = blocks@[i];
                &&& b.ordinal == src.ordinal
                &&& b.old_start == src.old_start
                &&& b.old_end == src.old_end
                &&& b.new_start == src.new_start
                &&& b.new_end == src.new_end
                &&& b.change_type == src.change_type
                &&& b.confidence == src.confidence
                &&& b.warning_flags == src.warning_flags
                &&& b.commits@.map_values(|c: CachedBlockCommit| block_commit_view(c)) == if earlier_block(
                    blocks@,
                    i,
                ) {
                    Seq::empty()
                } else {
                    commits_for(commits@, ranges@, merges@, src.ordinal, commits@.len() as int)
                }
            },
{
    let mut out: Vec<CachedFileBlock> = Vec::new();
    let mut i: usize = 0;
    while i < blocks.len()
        invariant
            i <= blocks@.len(),
            out@.len() == i,
            forall|k: int|
                0 <= k < i ==> {
                    let b = #[trigger] out@[k];
                    let src = blocks@[k];
                    &&& b.ordinal == src.ordinal
                    &&& b.old_start == src.old_start
                    &&& b.old_end == src.old_end
                    &&& b.new_start == src.new_start
                    &&& b.new_end == src.new_end
                    &&& b.change_type == src.change_type
                    &&& b.confidence == src.confidence
                    &&& b.warning_flags == src.warning_flags
                    &&& b.commits@.map_values(|c: CachedBlockCommit| block_commit_view(c)) == if earlier_block(
                        blocks@,
                        k,
                    ) {
                        Seq::empty()
                    } else {
                        commits_for(commits@, ranges@, merges@, src.ordinal, commits@.len() as int)
                    }
                },
        decreases blocks.len() - i,
    {
        let src = &blocks[i];
        let block_commit_list = if has_earlier_block(blocks, i) {
            let empty: Vec<CachedBlockCommit> = Vec::new();
            assert(empty@.map_values(|c: CachedBlockCommit| block_commit_view(c)) =~= Seq::empty());
            empty
        } else {
            block_commits(commits, ranges, merges, src.ordinal)
        };
        out.push(
            CachedFileBlock {
                ordinal: src.ordinal,
                old_start: src.old_start,
                old_end: src.old_end,
                new_start: src.new_start,
                new_end: src.new_end,
                change_type: src.change_type,
                confidence: src.confidence,
                warning_flags: src.warning_flags,
                commits: block_commit_list,
            },
        );
        i += 1;
    }
    out
}

} // verus!
