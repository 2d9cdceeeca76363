//! What the analysis decides from a blob's bytes.
use crate::error::AppError;
use vstd::prelude::*;

verus! {

/// The number of leading bytes searched for a NUL.
pub const BINARY_SCAN_LIMIT: usize = 8000;

/// Bytes are binary when they do not start with a UTF-16 byte order mark and a NUL occurs
/// among the first 8000 of them.
pub open spec fn is_binary_spec(bytes: Seq<u8>) -> bool {
    let utf16_bom = bytes.len() >= 2 && ((bytes[0] == 0xff && bytes[1] == 0xfe) || (bytes[0]
        == 0xfe && bytes[1] == 0xff));
    !utf16_bom && exists|k: int| 0 <= k < bytes.len() && k < 8000 && bytes[k] == 0
}

/// Whether bytes look binary.
pub fn is_binary_bytes(bytes: &[u8]) -> (r: bool)
    ensures
        r == is_binary_spec(bytes@),
{
    if bytes.len() >= 2 && ((bytes[0] == 0xff && bytes[1] == 0xfe) || (bytes[0] == 0xfe
        && bytes[1] == 0xff)) {
        return false;
    }
    let mut i: usize = 0;
    while i < bytes.len() && i < BINARY_SCAN_LIMIT
        invariant
            i <= bytes@.len(),
            i <= 8000,
            forall|k: int| 0 <= k < i ==> bytes@[k] != 0,
            !(bytes@.len() >= 2 && ((bytes@[0] == 0xff && bytes@[1] == 0xfe) || (bytes@[0] == 0xfe
                && bytes@[1] == 0xff))),
        decreases bytes.len() - i,
    {
        if bytes[i] == 0 {
            return true;
        }
        i += 1;
    }
    false
}

/// A failure to decode a file's text names the file: `FileNotAnalyzable` gets the path and a
/// full-width colon in front of its message; other failures stay as they are.
pub fn with_path_context(error: AppError, path: &str) -> (e: AppError)
    ensures
        match error {
            AppError::FileNotAnalyzable(m) => e matches AppError::FileNotAnalyzable(n) && n@
                == path@ + "："@ + m@,
            _ => e == error,
        },
{
    match error {
        AppError::FileNotAnalyzable(m) => {
            let mut n = String::from_str(path);
            n.append("：");
            n.append(m.as_str());
            AppError::FileNotAnalyzable(n)
        },
        other => other,
    }
}

} // verus!
