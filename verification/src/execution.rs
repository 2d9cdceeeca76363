//! Cancellation and progress reporting for long analyses.
use crate::contracts::OperationStage;
use crate::error::AppError;
use std::sync::Arc;
use vstd::prelude::*;

verus! {

/// One report of how far an operation has come.
#[derive(Debug, Clone, PartialEq, Eq)]
pub struct OperationProgressUpdate {
    pub stage: OperationStage,
    pub message: String,
    pub completed_units: Option<u64>,
    pub total_units: Option<u64>,
}

/// Receives progress reports; callers implement it.
pub trait OperationProgressReporter: Send + Sync {
    /// Takes one progress report.
    fn report(&self, update: OperationProgressUpdate);
}

/// Tells whether an operation should stop; callers implement it.
pub trait CancellationSignal: Send + Sync {
    /// Whether the operation should stop now.
    fn is_cancelled(&self) -> bool;
}

/// How an analysis learns that it should stop and where it reports progress.
#[derive(Clone)]
pub struct AnalysisExecutionContext {
    cancel: Option<Arc<dyn CancellationSignal>>,
    progress: Option<Arc<dyn OperationProgressReporter>>,
}

impl AnalysisExecutionContext {
    /// Whether a cancellation signal is installed.
    pub closed spec fn can_cancel(&self) -> bool {
        self.cancel is Some
    }

    /// Whether a progress reporter is installed.
    pub closed spec fn reports_progress(&self) -> bool {
        self.progress is Some
    }

    /// A context that is never cancelled and reports nowhere.
    pub fn none() -> (c: Self)
        ensures
            !c.can_cancel(),
            !c.reports_progress(),
    {
        AnalysisExecutionContext { cancel: None, progress: None }
    }

    /// A context that asks `cancel`, when given, whether to stop and reports nowhere.
    pub fn with_cancel(cancel: Option<Arc<dyn CancellationSignal>>) -> (c: Self)
        ensures
            c.can_cancel() == cancel is Some,
            !c.reports_progress(),
    {
        AnalysisExecutionContext { cancel, progress: None }
    }

    /// A context that is never cancelled and reports to `progress`, when given.
    pub fn with_progress(progress: Option<Arc<dyn OperationProgressReporter>>) -> (c: Self)
        ensures
            !c.can_cancel(),
            c.reports_progress() == progress is Some,
    {
        AnalysisExecutionContext { cancel: None, progress }
    }

    /// A context that asks `cancel` whether to stop and reports to `progress`, each when given.
    pub fn with_cancel_and_progress(
        cancel: Option<Arc<dyn CancellationSignal>>,
        progress: Option<Arc<dyn OperationProgressReporter>>,
    ) -> (c: Self)
        ensures
            c.can_cancel() == cancel is Some,
            c.reports_progress() == progress is Some,
    {
        AnalysisExecutionContext { cancel, progress }
    }

    /// Whether the operation should stop: never without a signal, else what the signal says.
    pub fn is_cancelled(&self) -> (r: bool)
        ensures
            !self.can_cancel() ==> !r,
    {
        match &self.cancel {
            Some(signal) => signal.is_cancelled(),
            None => false,
        }
    }

    /// Fails as cancelled when the operation should stop.
    pub fn check_cancelled(&self) -> (r: Result<(), AppError>)
        ensures
            !self.can_cancel() ==> r == Ok::<(), AppError>(()),
            r is Ok || r == Err::<(), AppError>(AppError::Cancelled),
    {
        cancellation_outcome(self.is_cancelled())
    }

    /// Hands a progress report to the reporter, if one is installed.
    pub fn report_progress(&self, update: OperationProgressUpdate) {
        match &self.progress {
            Some(progress) => progress.report(update),
            None => {},
        }
    }
}

impl Default for AnalysisExecutionContext {
    fn default() -> (c: Self)
        ensures
            !c.can_cancel(),
            !c.reports_progress(),
    {
        Self::none()
    }
}

/// The outcome of a cancellation check: an operation that was asked to stop fails as
/// cancelled, any other goes on.
pub fn cancellation_outcome(cancelled: bool) -> (r: Result<(), AppError>)
    ensures
        cancelled ==> r == Err::<(), AppError>(AppError::Cancelled),
        !cancelled ==> r == Ok::<(), AppError>(()),
{
    if cancelled {
        Err(AppError::Cancelled)
    } else {
        Ok(())
    }
}

} // verus!
