//! The errors of the analysis library and the process exit codes they map to.
use vstd::prelude::*;

verus! {

/// An analysis failure. Failures of the database, JSON and file layers carry their message.
#[derive(Debug, Clone, PartialEq, Eq)]
pub enum AppError {
    InvalidArgument(String),
    Repository(String),
    FileNotAnalyzable(String),
    IndexUnavailable(String),
    RequiredIndexUnavailable(String),
    SchemaIncompatible(String),
    CacheInvalid(String),
    DuckDb(String),
    Spike(String),
    Analysis(String),
    Cancelled,
    Json(String),
    Io(String),
}

/// The exit code of each kind of failure: 2 for bad arguments, 3 for repository failures,
/// 4 for unanalyzable files or a missing index, 5 for an index or cache that cannot be used,
/// 6 for database failures, 130 for cancellation and 10 for everything else.
pub open spec fn exit_code_spec(e: AppError) -> i32 {
    match e {
        AppError::InvalidArgument(_) => 2,
        AppError::Repository(_) => 3,
        AppError::FileNotAnalyzable(_) | AppError::IndexUnavailable(_) => 4,
        AppError::RequiredIndexUnavailable(_)
        | AppError::SchemaIncompatible(_)
        | AppError::CacheInvalid(_) => 5,
        AppError::DuckDb(_) => 6,
        AppError::Cancelled => 130,
        AppError::Spike(_) | AppError::Analysis(_) | AppError::Json(_) | AppError::Io(_) => 10,
    }
}

impl AppError {
    /// The process exit code for this failure.
    pub fn exit_code(&self) -> (code: i32)
        ensures
            code == exit_code_spec(*self),
    {
        match self {
            AppError::InvalidArgument(_) => 2,
            AppError::Repository(_) => 3,
            AppError::FileNotAnalyzable(_) | AppError::IndexUnavailable(_) => 4,
            AppError::RequiredIndexUnavailable(_)
            | AppError::SchemaIncompatible(_)
            | AppError::CacheInvalid(_) => 5,
            AppError::DuckDb(_) => 6,
            AppError::Cancelled => 130,
            AppError::Spike(_) | AppError::Analysis(_) | AppError::Json(_) | AppError::Io(_) => 10,
        }
    }
}

} // verus!
