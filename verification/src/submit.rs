//! Submission of operations to a service that answers each of them.

use vstd::prelude::*;

use crate::error::Error;
use crate::model::{
    is_promise, is_resolve_outcome, is_send_outcome, reported, EventSender, EventSource,
    PromiseSender,
};

verus! {

/// The end of a promise that resolves it.
#[derive(Debug)]
#[verifier::reject_recursive_types(T)]
pub struct Promise<T>(pub tokio::sync::oneshot::Sender<T>);

/// The end of a promise that waits for it.
pub type PromiseSource<T> = tokio::sync::oneshot::Receiver<T>;

/// A promise.
pub fn promise_channel<T>() -> (r: (Promise<T>, PromiseSource<T>))
    ensures
        is_promise(r.0.0, r.1),
{
    let (PromiseSender(sender), receiver) = crate::model::promise_channel();
    (Promise(sender), receiver)
}

impl<T> Promise<T> {
    /// Resolves the promise, unless nobody waits for it any more.
    pub fn resolve(self, value: T) -> (r: Result<(), Error>)
        ensures
            exists|outcome: Result<(), T>| #[trigger]
                is_resolve_outcome(self.0, value, outcome) && r == reported(
                    outcome,
                    Error::ReturnClosed,
                ),
    {
        PromiseSender(self.0).resolve(value)
    }
}

/// Where operations are submitted, each with a promise of its result.
pub type Handle<T, U> = EventSender<(T, Promise<U>)>;

/// Where submitted operations come in.
pub type OpSource<T, U> = EventSource<(T, Promise<U>)>;

/// Submits an operation: makes a promise, sends the operation together with one
/// end of it, and returns the other end, unless nothing takes operations in any
/// more.
pub fn submit<T, U>(handle: &Handle<T, U>, op: T) -> (r: Result<PromiseSource<U>, Error>)
    ensures
        exists|promise: Promise<U>, source: PromiseSource<U>, outcome: Result<(), (T, Promise<U>)>|
            {
                &&& #[trigger] is_promise(promise.0, source)
                &&& #[trigger] is_send_outcome(handle.0, (op, promise), outcome)
                &&& r == match outcome {
                    Ok(_) => Ok(source),
                    Err(_) => Err(Error::ChannelClosed),
                }
            },
{
    let (sender, source) = promise_channel();
    let ghost promise = sender;
    assert(is_promise(promise.0, source));
    match handle.send((op, sender)) {
        Ok(_) => Ok(source),
        Err(e) => Err(e),
    }
}

} // verus!
