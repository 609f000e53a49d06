//! Tasks in the background, and what is reported of them.

use vstd::prelude::*;

verus! {

/// How a background task ended: by itself with a result, because it was told to
/// stop, or because it panicked.
#[derive(Debug)]
pub enum TaskOutcome<E> {
    Finished(Result<(), E>),
    Cancelled,
    Panicked(E),
}

/// The error to report of a task that ended. A task that was told to stop has
/// none, and neither has one that succeeded.
pub fn background_error<E>(outcome: TaskOutcome<E>) -> (r: Option<E>)
    ensures
        r == match outcome {
            TaskOutcome::Finished(Ok(_)) => None,
            TaskOutcome::Finished(Err(e)) => Some(e),
            TaskOutcome::Cancelled => None,
            TaskOutcome::Panicked(e) => Some(e),
        },
{
    match outcome {
        TaskOutcome::Finished(Ok(_)) => None,
        TaskOutcome::Finished(Err(e)) => Some(e),
        TaskOutcome::Cancelled => None,
        TaskOutcome::Panicked(e) => Some(e),
    }
}

/// What a monitor does about the first report of its tasks, or about the end of
/// all of them: whether the others are told to stop, and what it returns.
pub fn monitor_outcome<E>(report: Option<E>) -> (r: (bool, Result<(), E>))
    ensures
        r == match report {
            Some(e) => (true, Err(e)),
            None => (false, Ok(())),
        },
{
    match report {
        Some(e) => (true, Err(e)),
        None => (false, Ok(())),
    }
}

} // verus!
