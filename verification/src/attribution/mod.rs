pub mod patch_inference;
pub mod blame;
pub mod merge_trace;
pub mod source_validation;
pub mod deletion_trace;
pub mod path_history;
pub mod context;
