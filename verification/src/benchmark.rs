//! A closed loop of workloads: each one submits its next operation when the one
//! before is complete.

use vstd::prelude::*;

use crate::context::{Addr, Receivers, TimerId};

pub mod laws;

verus! {

/// Something that submits operations. Unless `submitted` is defined otherwise,
/// nothing is promised of what it becomes.
pub trait Workload: Sized {
    /// Whether `pre` can turn into `post` when it submits its next operation.
    open spec fn submitted(pre: Self, post: Self) -> bool {
        true
    }

    fn submit(&mut self)
        ensures
            Self::submitted(*old(self), *final(self)),
    ;
}

/// A message of a workload, or the news that its operation is complete after
/// some time.
#[derive(Debug, PartialEq, Eq, Hash)]
pub enum Message<M> {
    Workload(M),
    Complete(u128),
}

/// Workloads at their addresses, of which no two are the same, and the times
/// that operations took, in the order of completion.
#[derive(Debug)]
pub struct CloseLoop<W> {
    pub workloads: Vec<(Addr, W)>,
    pub latencies: Vec<u128>,
}

impl<W> CloseLoop<W> {
    pub open spec fn wf(&self) -> bool {
        forall|i: int, j: int|
            0 <= i < j < self.workloads@.len() ==> (#[trigger] self.workloads@[i]).0 != (
            #[trigger] self.workloads@[j]).0
    }

    /// Whether there is a workload at an address.
    pub open spec fn has(&self, addr: Addr) -> bool {
        exists|i: int| 0 <= i < self.workloads@.len() && (#[trigger] self.workloads@[i]).0 == addr
    }

    /// Whether only the workload at a position has changed, to `w`.
    pub open spec fn changed_at(&self, before: &Self, i: int, w: W) -> bool {
        self.workloads@ == before.workloads@.update(i, (before.workloads@[i].0, w))
    }

    /// Whether the workloads are at the same addresses as before.
    pub open spec fn same_addrs(&self, before: &Self) -> bool {
        &&& self.workloads@.len() == before.workloads@.len()
        &&& forall|i: int|
            0 <= i < self.workloads@.len() ==> (#[trigger] self.workloads@[i]).0
                == before.workloads@[i].0
    }

    fn find(&self, addr: Addr) -> (r: usize)
        requires
            self.has(addr),
        ensures
            r < self.workloads@.len(),
            self.workloads@[r as int].0 == addr,
    {
        let mut i: usize = 0;
        while i < self.workloads.len()
            invariant
                i <= self.workloads@.len(),
                self.has(addr),
                forall|j: int| 0 <= j < i ==> (#[trigger] self.workloads@[j]).0 != addr,
            decreases self.workloads@.len() - i,
        {
            if self.workloads[i].0 == addr {
                return i;
            }
            i += 1;
        }
        0
    }
}

impl<W: Workload> CloseLoop<W> {
    /// Lets every workload submit its first operation.
    pub fn bootstrap(&mut self)
        ensures
            final(self).same_addrs(old(self)),
            final(self).latencies == old(self).latencies,
            forall|i: int|
                0 <= i < old(self).workloads@.len() ==> W::submitted(
                    (#[trigger] old(self).workloads@[i]).1,
                    final(self).workloads@[i].1,
                ),
    {
        let mut i: usize = 0;
        while i < self.workloads.len()
            invariant
                i <= self.workloads@.len(),
                self.same_addrs(old(self)),
                self.latencies == old(self).latencies,
                forall|j: int|
                    0 <= j < i ==> W::submitted(
                        (#[trigger] old(self).workloads@[j]).1,
                        self.workloads@[j].1,
                    ),
                forall|j: int|
                    i <= j < self.workloads@.len() ==> #[trigger] self.workloads@[j] == old(
                        self,
                    ).workloads@[j],
            decreases self.workloads@.len() - i,
        {
            self.workloads[i].1.submit();
            i += 1;
        }
    }
}

impl<W: Receivers + Workload> CloseLoop<W> {
    /// Hands a message to the workload that it is for.
    pub fn handle(&mut self, receiver: Addr, remote: Addr, message: Message<W::Message>)
        requires
            old(self).wf(),
            old(self).has(receiver),
            message is Workload,
        ensures
            final(self).wf(),
            final(self).latencies == old(self).latencies,
            exists|i: int, w: W|
                {
                    &&& 0 <= i < old(self).workloads@.len()
                    &&& old(self).workloads@[i].0 == receiver
                    &&& #[trigger] final(self).changed_at(old(self), i, w)
                    &&& W::handled(
                        old(self).workloads@[i].1,
                        receiver,
                        remote,
                        message->Workload_0,
                        w,
                    )
                },
    {
        let i: usize = self.find(receiver);
        match message {
            Message::Workload(message) => {
                self.workloads[i].1.handle(receiver, remote, message);
            },
            Message::Complete(_) => {},
        }
        assert(self.changed_at(old(self), i as int, self.workloads@[i as int].1));
    }

    /// Hands a message of a workload to itself on, or notes that its operation
    /// is complete and lets it submit the next.
    pub fn handle_loopback(&mut self, receiver: Addr, message: Message<W::Message>)
        requires
            old(self).wf(),
            old(self).has(receiver),
        ensures
            final(self).wf(),
            final(self).latencies@ == match message {
                Message::Workload(_) => old(self).latencies@,
                Message::Complete(latency) => old(self).latencies@.push(latency),
            },
            exists|i: int, w: W|
                {
                    &&& 0 <= i < old(self).workloads@.len()
                    &&& old(self).workloads@[i].0 == receiver
                    &&& #[trigger] final(self).changed_at(old(self), i, w)
                    &&& match message {
                        Message::Workload(message) => W::handled_loopback(
                            old(self).workloads@[i].1,
                            receiver,
                            message,
                            w,
                        ),
                        Message::Complete(_) => W::submitted(old(self).workloads@[i].1, w),
                    }
                },
    {
        let i: usize = self.find(receiver);
        match message {
            Message::Workload(message) => {
                self.workloads[i].1.handle_loopback(receiver, message);
            },
            Message::Complete(latency) => {
                self.latencies.push(latency);
                self.workloads[i].1.submit();
            },
        }
        assert(self.changed_at(old(self), i as int, self.workloads@[i as int].1));
    }

    /// Tells a workload that its timer has fired.
    pub fn on_timer(&mut self, receiver: Addr, id: TimerId)
        requires
            old(self).wf(),
            old(self).has(receiver),
        ensures
            final(self).wf(),
            final(self).latencies == old(self).latencies,
            exists|i: int, w: W|
                {
                    &&& 0 <= i < old(self).workloads@.len()
                    &&& old(self).workloads@[i].0 == receiver
                    &&& #[trigger] final(self).changed_at(old(self), i, w)
                    &&& W::timed(old(self).workloads@[i].1, receiver, id, w)
                },
    {
        let i: usize = self.find(receiver);
        self.workloads[i].1.on_timer(receiver, id);
        assert(self.changed_at(old(self), i as int, self.workloads@[i as int].1));
    }

    /// Gives every workload a pace.
    pub fn on_pace(&mut self)
        ensures
            final(self).same_addrs(old(self)),
            final(self).latencies == old(self).latencies,
            forall|i: int|
                0 <= i < old(self).workloads@.len() ==> W::paced(
                    (#[trigger] old(self).workloads@[i]).1,
                    final(self).workloads@[i].1,
                ),
    {
        let mut i: usize = 0;
        while i < self.workloads.len()
            invariant
                i <= self.workloads@.len(),
                self.same_addrs(old(self)),
                self.latencies == old(self).latencies,
                forall|j: int|
                    0 <= j < i ==> W::paced(
                        (#[trigger] old(self).workloads@[j]).1,
                        self.workloads@[j].1,
                    ),
                forall|j: int|
                    i <= j < self.workloads@.len() ==> #[trigger] self.workloads@[j] == old(
                        self,
                    ).workloads@[j],
            decreases self.workloads@.len() - i,
        {
            self.workloads[i].1.on_pace();
            i += 1;
        }
    }
}

} // verus!
