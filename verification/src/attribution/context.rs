//! Whether an attribution can use the commit index, and what it says when it cannot.
use crate::attribution::patch_inference::texts;
use crate::error::AppError;
use crate::git::diff::contains_path;
use vstd::prelude::*;

verus! {

/// The warning an attribution carries when it was computed without the index.
pub open spec fn index_unavailable_warning() -> Seq<char> {
    "索引不可用，已即时计算 overlay 结果"@
}

/// Why the index cannot serve a range: the database file is missing, the range's head is not
/// indexed, or a commit of the range is not; nothing when it can.
pub open spec fn index_gap_spec(
    db_path: Seq<char>,
    head: Seq<char>,
    db_exists: bool,
    head_indexed: bool,
    first_missing: Option<Seq<char>>,
) -> Option<Seq<char>> {
    if !db_exists {
        Some("索引文件不存在："@ + db_path)
    } else if !head_indexed {
        Some("查询范围 head "@ + head + " 未被索引，请先执行 index build"@)
    } else {
        match first_missing {
            Some(h) => Some("查询范围提交 "@ + h + " 未被索引，请先执行 index build"@),
            None => None,
        }
    }
}

/// Why the index cannot serve a range, checked in order: the database file, the head, then
/// the first commit of the range that is not indexed.
pub fn index_gap_message(
    db_path: &str,
    head: &str,
    db_exists: bool,
    head_indexed: bool,
    first_missing: Option<&str>,
) -> (r: Option<String>)
    ensures
        match r {
            Some(m) => index_gap_spec(
                db_path@,
                head@,
                db_exists,
                head_indexed,
                match first_missing {
                    Some(h) => Some(h@),
                    None => None,
                },
            ) == Some(m@),
            None => index_gap_spec(
                db_path@,
                head@,
                db_exists,
                head_indexed,
                match first_missing {
                    Some(h) => Some(h@),
                    None => None,
                },
            ) is None,
        },
{
    if !db_exists {
        let mut m = String::from_str("索引文件不存在：");
        m.append(db_path);
        Some(m)
    } else if !head_indexed {
        let mut m = String::from_str("查询范围 head ");
        m.append(head);
        m.append(" 未被索引，请先执行 index build");
        Some(m)
    } else {
        match first_missing {
            Some(h) => {
                let mut m = String::from_str("查询范围提交 ");
                m.append(h);
                m.append(" 未被索引，请先执行 index build");
                Some(m)
            },
            None => None,
        }
    }
}

/// The first hash of the range that the index does not hold.
pub fn first_unindexed(range_hashes: &[String], indexed: &Vec<String>) -> (r: Option<String>)
    ensures
        match r {
            Some(h) => exists|i: int|
                #![trigger range_hashes@[i]]
                0 <= i < range_hashes@.len() && range_hashes@[i]@ == h@ && !texts(indexed@).contains(h@)
                    && forall|j: int|
                    0 <= j < i ==> texts(indexed@).contains(#[trigger] range_hashes@[j]@),
            None => forall|j: int|
                0 <= j < range_hashes@.len() ==> texts(indexed@).contains(#[trigger] range_hashes@[j]@),
        },
{
    let mut i: usize = 0;
    while i < range_hashes.len()
        invariant
            i <= range_hashes@.len(),
            forall|j: int| 0 <= j < i ==> texts(indexed@).contains(#[trigger] range_hashes@[j]@),
        decreases range_hashes.len() - i,
    {
        if !contains_path(indexed, range_hashes[i].as_str()) {
            let h = range_hashes[i].clone();
            assert(range_hashes@[i as int]@ == h@);
            return Some(h);
        }
        i += 1;
    }
    None
}

/// The warnings of an attribution whose index has the gap `gap`: none without a gap; with
/// one, the warning that the index was not used, or the gap as an error when the index is
/// required.
pub fn attribution_index_warnings(require_index: bool, gap: Option<String>) -> (r: Result<
    Vec<String>,
    AppError,
>)
    ensures
        match gap {
            None => r matches Ok(w) && w@.len() == 0,
            Some(m) => if require_index {
                r == Err::<Vec<String>, AppError>(AppError::RequiredIndexUnavailable(m))
            } else {
                r matches Ok(w) && texts(w@) == seq![index_unavailable_warning()]
            },
        },
{
    match gap {
        None => Ok(Vec::new()),
        Some(m) => {
            if require_index {
                Err(AppError::RequiredIndexUnavailable(m))
            } else {
                let mut w: Vec<String> = Vec::new();
                w.push(String::from_str("索引不可用，已即时计算 overlay 结果"));
                proof {
                    reveal_strlit("索引不可用，已即时计算 overlay 结果");
                }
                assert(texts(w@) =~= seq![index_unavailable_warning()]);
                Ok(w)
            }
        },
    }
}

} // verus!
