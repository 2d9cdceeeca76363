//! The report of `index status`.
use crate::attribution::patch_inference::texts;
use crate::index::migrations::CURRENT_SCHEMA_VERSION;
use crate::index::queries::IndexStatusRecord;
use crate::json::{IndexStatusKind, IndexStatusOutput};
use vstd::prelude::*;

verus! {

/// The status of a repository whose index file does not exist.
pub fn missing_index_status(repo_id: String) -> (out: IndexStatusOutput)
    ensures
        out.version == 1,
        out.repo_id == repo_id,
        out.schema_version == 0,
        out.status == IndexStatusKind::Missing,
        out.indexed_commit_count == 0,
        out.indexed_file_count == 0,
        out.updated_at is None,
        texts(out.warnings@) == seq!["索引文件不存在"@],
{
    let mut warnings: Vec<String> = Vec::new();
    warnings.push(String::from_str("索引文件不存在"));
    assert(texts(warnings@) =~= seq!["索引文件不存在"@]);
    IndexStatusOutput {
        version: 1,
        repo_id,
        schema_version: 0,
        status: IndexStatusKind::Missing,
        indexed_commit_count: 0,
        indexed_file_count: 0,
        updated_at: None,
        warnings,
    }
}

/// The status of a repository whose index is current: its counts and last update.
pub fn ready_index_status(repo_id: String, record: IndexStatusRecord) -> (out: IndexStatusOutput)
    ensures
        out.version == 1,
        out.repo_id == repo_id,
        out.schema_version == CURRENT_SCHEMA_VERSION,
        out.status == IndexStatusKind::Ready,
        out.indexed_commit_count == record.indexed_commit_count,
        out.indexed_file_count == record.indexed_file_count,
        out.updated_at == record.updated_at,
        out.warnings@.len() == 0,
{
    IndexStatusOutput {
        version: 1,
        repo_id,
        schema_version: CURRENT_SCHEMA_VERSION,
        status: IndexStatusKind::Ready,
        indexed_commit_count: record.indexed_commit_count,
        indexed_file_count: record.indexed_file_count,
        updated_at: record.updated_at,
        warnings: Vec::new(),
    }
}

} // verus!
