use helloween::error::Error;
use helloween::model::{
    event_channel, promise_channel, sent_outcome, submit, EventSource, PromiseSender,
};
use helloween::submit;
use helloween::task::{background_error, monitor_outcome, TaskOutcome};

#[test]
fn events_arrive_in_order() {
    let (sender, mut source) = event_channel();
    let other = sender.clone();
    assert_eq!(sender.send(1), Ok(()));
    assert_eq!(other.send(2), Ok(()));
    assert_eq!(source.0.try_recv(), Ok(1));
    assert_eq!(source.0.try_recv(), Ok(2));
    assert_eq!(sender.hand_over(4), Ok(()));
    assert_eq!(source.0.try_recv(), Ok(4));
    drop(source);
    assert_eq!(sender.hand_over(5), Err(5));
    assert_eq!(sender.send(3), Err(Error::ChannelClosed));
}

#[test]
fn promise_is_resolved_once() {
    let (sender, mut source) = promise_channel();
    assert_eq!(sender.resolve(7), Ok(()));
    assert_eq!(source.try_recv(), Ok(7));
    let (sender, source) = promise_channel();
    drop(source);
    assert_eq!(sender.resolve(7), Err(Error::ReturnClosed));
}

#[test]
fn submit_promise_is_resolved_once() {
    let (promise, mut source) = submit::promise_channel();
    assert_eq!(promise.resolve('x'), Ok(()));
    assert_eq!(source.try_recv(), Ok('x'));
    let (promise, source) = submit::promise_channel();
    drop(source);
    assert_eq!(promise.resolve('x'), Err(Error::ReturnClosed));
}

#[test]
fn operations_are_submitted_with_promises() {
    let (handle, mut source) = event_channel::<(u8, PromiseSender<u16>)>();
    let mut result = submit(&handle, 5).unwrap();
    let (op, promise) = source.0.try_recv().unwrap();
    promise.resolve(op as u16 * 2).unwrap();
    assert_eq!(result.try_recv(), Ok(10));
    drop(source);
    assert!(matches!(submit(&handle, 5), Err(Error::ChannelClosed)));
}

#[test]
fn service_operations_are_submitted_with_promises() {
    let (handle, mut source) = event_channel::<(u8, submit::Promise<u16>)>();
    let mut result = submit::submit(&handle, 5).unwrap();
    let (op, promise) = source.0.try_recv().unwrap();
    promise.resolve(op as u16 * 2).unwrap();
    assert_eq!(result.try_recv(), Ok(10));
    drop(source);
    assert!(matches!(submit::submit(&handle, 5), Err(Error::ChannelClosed)));
}

#[test]
fn outcomes_of_channels() {
    assert_eq!(sent_outcome::<u8>(Ok(()), Error::ChannelClosed), Ok(()));
    assert_eq!(sent_outcome(Err(1), Error::ReturnClosed), Err(Error::ReturnClosed));
    assert_eq!(EventSource::expect_next(Some(3)), Ok(3));
    assert_eq!(EventSource::<u8>::expect_next(None), Err(Error::SourceClosed));
}

#[test]
fn outcomes_of_tasks() {
    assert_eq!(background_error::<u8>(TaskOutcome::Finished(Ok(()))), None);
    assert_eq!(background_error(TaskOutcome::Finished(Err(1))), Some(1));
    assert_eq!(background_error::<u8>(TaskOutcome::Cancelled), None);
    assert_eq!(background_error(TaskOutcome::Panicked(2)), Some(2));
    assert_eq!(monitor_outcome(Some(3)), (true, Err(3)));
    assert_eq!(monitor_outcome::<u8>(None), (false, Ok(())));
}
