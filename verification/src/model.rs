//! Channels between sessions.
//!
//! An event channel carries any number of events from any number of senders. A
//! promise carries one value. Whether the other end of a channel is still there
//! when something is sent depends on the task that holds it.

use vstd::prelude::*;

use crate::error::Error;

verus! {

#[verifier::external_type_specification]
#[verifier::external_body]
#[verifier::reject_recursive_types(T)]
pub struct ExUnboundedSender<T>(tokio::sync::mpsc::UnboundedSender<T>);

#[verifier::external_type_specification]
#[verifier::external_body]
#[verifier::reject_recursive_types(T)]
pub struct ExUnboundedReceiver<T>(tokio::sync::mpsc::UnboundedReceiver<T>);

#[verifier::external_type_specification]
#[verifier::external_body]
#[verifier::reject_recursive_types(T)]
pub struct ExOneshotSender<T>(tokio::sync::oneshot::Sender<T>);

#[verifier::external_type_specification]
#[verifier::external_body]
#[verifier::reject_recursive_types(T)]
pub struct ExOneshotReceiver<T>(tokio::sync::oneshot::Receiver<T>);

#[verifier::external_type_specification]
#[verifier::external_body]
pub struct ExOneshotRecvError(tokio::sync::oneshot::error::RecvError);

/// Calls `tokio::sync::mpsc::unbounded_channel`. Nothing is claimed of the two
/// ends but that they come from one call.
#[verifier::external_body]
fn tokio_unbounded<M>() -> (r: (
    tokio::sync::mpsc::UnboundedSender<M>,
    tokio::sync::mpsc::UnboundedReceiver<M>,
)) {
    tokio::sync::mpsc::unbounded_channel()
}

/// Calls `tokio::sync::mpsc::UnboundedSender::send`. It fails when the receiver
/// is closed or gone, and hands the message back then. Which of the two happens
/// depends on other tasks and is left open.
#[verifier::external_body]
fn tokio_send<M>(sender: &tokio::sync::mpsc::UnboundedSender<M>, message: M) -> (r: Result<(), M>)
    ensures
        r matches Err(returned) ==> returned == message,
{
    match sender.send(message) {
        Ok(()) => Ok(()),
        Err(tokio::sync::mpsc::error::SendError(message)) => Err(message),
    }
}

/// Calls `clone` of `tokio::sync::mpsc::UnboundedSender`, which gives another
/// sender of the same channel. Nothing is claimed of it but that it comes from
/// this call.
#[verifier::external_body]
fn tokio_clone<M>(sender: &tokio::sync::mpsc::UnboundedSender<M>) -> (r:
    tokio::sync::mpsc::UnboundedSender<M>) {
    sender.clone()
}

/// Calls `tokio::sync::oneshot::channel`. Nothing is claimed of the two ends but
/// that they come from one call.
#[verifier::external_body]
fn tokio_oneshot<T>() -> (r: (
    tokio::sync::oneshot::Sender<T>,
    tokio::sync::oneshot::Receiver<T>,
)) {
    tokio::sync::oneshot::channel()
}

/// Calls `tokio::sync::oneshot::Sender::send`. It fails when the receiver is
/// closed or gone, and hands the value back then. Which of the two happens
/// depends on other tasks and is left open.
#[verifier::external_body]
fn tokio_resolve<T>(sender: tokio::sync::oneshot::Sender<T>, value: T) -> (r: Result<(), T>)
    ensures
        r matches Err(returned) ==> returned == value,
{
    sender.send(value)
}

/// Whether two ends are what one call of `tokio::sync::mpsc::unbounded_channel`
/// can give, and so are ends of one channel.
pub closed spec fn is_channel<M>(
    sender: tokio::sync::mpsc::UnboundedSender<M>,
    receiver: tokio::sync::mpsc::UnboundedReceiver<M>,
) -> bool {
    call_ensures(tokio_unbounded::<M>, (), (sender, receiver))
}

/// Whether sending a message on a sender can end in an outcome: that it is
/// taken, or that it comes back.
pub closed spec fn is_send_outcome<M>(
    sender: tokio::sync::mpsc::UnboundedSender<M>,
    message: M,
    outcome: Result<(), M>,
) -> bool {
    call_ensures(tokio_send::<M>, (&sender, message), outcome)
}

/// Whether a sender is a clone of another one, and so sends to the same channel.
pub closed spec fn is_sender_clone<M>(
    sender: tokio::sync::mpsc::UnboundedSender<M>,
    copy: tokio::sync::mpsc::UnboundedSender<M>,
) -> bool {
    call_ensures(tokio_clone::<M>, (&sender,), copy)
}

/// Whether two ends are what one call of `tokio::sync::oneshot::channel` can
/// give, and so are ends of one promise.
pub closed spec fn is_promise<T>(
    sender: tokio::sync::oneshot::Sender<T>,
    receiver: tokio::sync::oneshot::Receiver<T>,
) -> bool {
    call_ensures(tokio_oneshot::<T>, (), (sender, receiver))
}

/// Whether resolving a promise with a value can end in an outcome: that it is
/// taken, or that it comes back.
pub closed spec fn is_resolve_outcome<T>(
    sender: tokio::sync::oneshot::Sender<T>,
    value: T,
    outcome: Result<(), T>,
) -> bool {
    call_ensures(tokio_resolve::<T>, (sender, value), outcome)
}

/// What is reported of an attempt to send: a failure just when what was sent
/// came back.
pub open spec fn reported<M>(outcome: Result<(), M>, closed: Error) -> Result<(), Error> {
    match outcome {
        Ok(_) => Ok(()),
        Err(_) => Err(closed),
    }
}

/// The receiving end of an event channel.
#[derive(Debug)]
#[verifier::reject_recursive_types(M)]
pub struct EventSource<M>(pub tokio::sync::mpsc::UnboundedReceiver<M>);

impl<M> EventSource<M> {
    /// What the next event is taken for, given what was received. A session that
    /// expects one fails when the channel is closed.
    pub fn expect_next(received: Option<M>) -> (r: Result<M, Error>)
        ensures
            r == match received {
                Some(event) => Ok(event),
                None => Err(Error::SourceClosed),
            },
    {
        match received {
            Some(event) => Ok(event),
            None => Err(Error::SourceClosed),
        }
    }
}

/// A sending end of an event channel.
#[derive(Debug)]
#[verifier::reject_recursive_types(M)]
pub struct EventSender<M>(pub tokio::sync::mpsc::UnboundedSender<M>);

impl<M> Clone for EventSender<M> {
    fn clone(&self) -> (r: Self)
        ensures
            is_sender_clone(self.0, r.0),
    {
        EventSender(tokio_clone(&self.0))
    }
}

/// What a sender reports of an attempt: it fails just when what was sent came
/// back.
pub fn sent_outcome<M>(outcome: Result<(), M>, closed: Error) -> (r: Result<(), Error>)
    ensures
        r == reported(outcome, closed),
{
    match outcome {
        Ok(_) => Ok(()),
        Err(_) => Err(closed),
    }
}

impl<M> EventSender<M> {
    /// Hands an event over. It comes back if the source is gone.
    pub fn hand_over(&self, message: M) -> (r: Result<(), M>)
        ensures
            is_send_outcome(self.0, message, r),
            r matches Err(returned) ==> returned == message,
    {
        tokio_send(&self.0, message)
    }

    /// Sends an event, unless the source is gone.
    pub fn send(&self, message: M) -> (r: Result<(), Error>)
        ensures
            exists|outcome: Result<(), M>| #[trigger]
                is_send_outcome(self.0, message, outcome) && r == reported(
                    outcome,
                    Error::ChannelClosed,
                ),
    {
        sent_outcome(self.hand_over(message), Error::ChannelClosed)
    }
}

/// A channel for events.
pub fn event_channel<M>() -> (r: (EventSender<M>, EventSource<M>))
    ensures
        is_channel(r.0.0, r.1.0),
{
    let (sender, receiver) = tokio_unbounded();
    (EventSender(sender), EventSource(receiver))
}

/// The end of a promise that resolves it.
#[derive(Debug)]
#[verifier::reject_recursive_types(T)]
pub struct PromiseSender<T>(pub tokio::sync::oneshot::Sender<T>);

/// The end of a promise that waits for it.
pub type PromiseSource<T> = tokio::sync::oneshot::Receiver<T>;

/// A promise.
pub fn promise_channel<T>() -> (r: (PromiseSender<T>, PromiseSource<T>))
    ensures
        is_promise(r.0.0, r.1),
{
    let (sender, receiver) = tokio_oneshot();
    (PromiseSender(sender), receiver)
}

impl<T> PromiseSender<T> {
    /// Resolves the promise, unless nobody waits for it any more.
    pub fn resolve(self, value: T) -> (r: Result<(), Error>)
        ensures
            exists|outcome: Result<(), T>| #[trigger]
                is_resolve_outcome(self.0, value, outcome) && r == reported(
                    outcome,
                    Error::ReturnClosed,
                ),
    {
        let outcome = tokio_resolve(self.0, value);
        assert(is_resolve_outcome(self.0, value, outcome));
        sent_outcome(outcome, Error::ReturnClosed)
    }
}

/// Where operations are submitted, each with a promise of its result.
pub type SubmitHandle<T, U> = EventSender<(T, PromiseSender<U>)>;

/// Where submitted operations come in.
pub type SubmitSource<T, U> = EventSource<(T, PromiseSender<U>)>;

/// Submits an operation: makes a promise, sends the operation together with one
/// end of it, and returns the other end, unless nothing takes operations in any
/// more.
pub fn submit<T, U>(handle: &SubmitHandle<T, U>, op: T) -> (r: Result<PromiseSource<U>, Error>)
    ensures
        exists|promise: PromiseSender<U>, source: PromiseSource<U>, outcome: Result<(), (T, PromiseSender<U>)>|
            {
                &&& #[trigger] is_promise(promise.0, source)
                &&& #[trigger] is_send_outcome(handle.0, (op, promise), outcome)
                &&& r == match outcome {
                    Ok(_) => Ok(source),
                    Err(_) => Err(Error::ChannelClosed),
                }
            },
{
    let (sender, source) = promise_channel();
    let ghost promise = sender;
    assert(is_promise(promise.0, source));
    match handle.send((op, sender)) {
        Ok(_) => Ok(source),
        Err(e) => Err(e),
    }
}

} // verus!
