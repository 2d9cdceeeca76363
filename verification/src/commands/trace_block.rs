//! The `trace-block` command, whose contract is registered but not yet served.
use crate::cli::TraceBlockArgs;
use crate::error::AppError;
use vstd::prelude::*;

verus! {

/// The message `trace-block` answers with.
pub open spec fn trace_block_message() -> Seq<char> {
    "trace-block 命令契约已注册，单块追踪尚未接入"@
}

/// Runs `trace-block`: it always fails with an analysis error, since single-block tracing is
/// not wired in yet.
pub fn run(args: TraceBlockArgs) -> (r: Result<String, AppError>)
    ensures
        r matches Err(AppError::Analysis(m)) && m@ == trace_block_message(),
{
    Err(AppError::Analysis(String::from_str("trace-block 命令契约已注册，单块追踪尚未接入")))
}

} // verus!
