//! The pieces of a file's range overlay that do not read the repository.
use crate::error::AppError;
use crate::git::diff::CommitFileChange;
use crate::json::{opt_text, ChangedFileOutput};
use crate::text::str_eq;
use vstd::prelude::*;

verus! {

/// The path of a change's old content: none for an added file, the path of a deleted or
/// modified file, else the old path when there is one.
pub open spec fn old_text_path_spec(c: CommitFileChange) -> Option<Seq<char>> {
    if c.status@ == "added"@ {
        None
    } else if c.status@ == "deleted"@ || c.status@ == "modified"@ {
        Some(c.path@)
    } else {
        Some(
            match c.old_path {
                Some(o) => o@,
                None => c.path@,
            },
        )
    }
}

/// The path of a change's new content: none for a deleted file, else its path.
pub open spec fn new_text_path_spec(c: CommitFileChange) -> Option<Seq<char>> {
    if c.status@ == "deleted"@ {
        None
    } else {
        Some(c.path@)
    }
}

/// The path of a change's old content.
pub fn old_text_path(change: &CommitFileChange) -> (r: Option<&str>)
    ensures
        match r {
            Some(p) => old_text_path_spec(*change) == Some(p@),
            None => old_text_path_spec(*change) is None,
        },
{
    if str_eq(change.status.as_str(), "added") {
        None
    } else if str_eq(change.status.as_str(), "deleted") || str_eq(change.status.as_str(), "modified") {
        Some(change.path.as_str())
    } else {
        match &change.old_path {
            Some(o) => Some(o.as_str()),
            None => Some(change.path.as_str()),
        }
    }
}

/// The path of a change's new content.
pub fn new_text_path(change: &CommitFileChange) -> (r: Option<&str>)
    ensures
        match r {
            Some(p) => new_text_path_spec(*change) == Some(p@),
            None => new_text_path_spec(*change) is None,
        },
{
    if str_eq(change.status.as_str(), "deleted") {
        None
    } else {
        Some(change.path.as_str())
    }
}

/// The listed form of the change an overlay shows.
pub fn changed_file_output(change: &CommitFileChange) -> (f: ChangedFileOutput)
    ensures
        f.path@ == change.path@,
        opt_text(f.old_path) == opt_text(change.old_path),
        f.old_blob_id is None,
        f.new_blob_id is None,
        f.status@ == change.status@,
        f.additions == change.additions,
        f.deletions == change.deletions,
        f.is_binary == change.is_binary,
        f.is_previewable == change.is_previewable,
{
    ChangedFileOutput {
        path: change.path.clone(),
        old_path: match &change.old_path {
            Some(o) => Some(o.clone()),
            None => None,
        },
        old_blob_id: None,
        new_blob_id: None,
        status: change.status.clone(),
        additions: change.additions,
        deletions: change.deletions,
        is_binary: change.is_binary,
        is_previewable: change.is_previewable,
    }
}

/// Whether a file can be overlaid: it must have changed in the range and hold no binary
/// content.
pub fn check_overlay_change(change: Option<&CommitFileChange>, file: &str) -> (r: Result<(), AppError>)
    ensures
        change is None ==> (r matches Err(AppError::FileNotAnalyzable(m)) && m@ == "文件在范围内未变更："@
            + file@),
        change matches Some(c) && c.is_binary ==> (r matches Err(AppError::FileNotAnalyzable(m)) && m@
            == "文件包含二进制内容："@ + file@),
        change matches Some(c) && !c.is_binary ==> r == Ok::<(), AppError>(()),
{
    match change {
        None => {
            let mut m = String::from_str("文件在范围内未变更：");
            m.append(file);
            Err(AppError::FileNotAnalyzable(m))
        },
        Some(c) => {
            if c.is_binary {
                let mut m = String::from_str("文件包含二进制内容：");
                m.append(file);
                Err(AppError::FileNotAnalyzable(m))
            } else {
                Ok(())
            }
        },
    }
}

} // verus!
