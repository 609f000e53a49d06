//! A context in simulated time: messages and timers are events on a timeline
//! that are delivered one by one.
//!
//! Times are counted in nanoseconds.

use std::collections::HashMap;

use vstd::prelude::*;

use crate::context::crypto::{Sign, Signer};
use crate::context::{Addr, ClientIndex, Receivers, ReplicaIndex};

verus! {

/// The latest time there is: as many seconds as 64 bits can say, and just short
/// of one more.
pub const MAX_TIME: u128 = 18446744073709551615999999999;

/// A simulated party.
#[derive(Debug, Clone, Copy, PartialEq, Eq, PartialOrd, Ord, Hash, Structural)]
pub enum Host {
    Client(ClientIndex),
    Replica(ReplicaIndex),
}

/// Where a message goes.
#[derive(Debug, PartialEq, Eq)]
pub enum To {
    Host(Host),
    Hosts(Vec<Host>),
    AllReplica,
    Loopback,
    AllReplicaWithLoopback,
}

/// What can happen: a message for a host from another one, a message of a host
/// to itself, or a timer of a host.
#[derive(Debug)]
pub enum Event<M> {
    Message(Host, Host, M),
    LoopbackMessage(Host, M),
    Timer(Host),
}

pub type TimerId = u32;

/// An event with its place on the timeline: first by time, then by number.
#[derive(Debug)]
pub struct Entry<M> {
    pub time: u128,
    pub id: u32,
    pub event: Event<M>,
}

/// A timer that repeats, and the place of its next event.
#[derive(Debug, Clone, Copy, PartialEq, Eq, Structural)]
pub struct Timer {
    pub duration: u128,
    pub time: u128,
    pub id: u32,
}

/// The events to come, in the order of their places.
#[derive(Debug)]
pub struct Timeline<M> {
    pub now: u128,
    pub id: u32,
    pub events: Vec<Entry<M>>,
    pub timers: HashMap<TimerId, Timer>,
}

/// What a delivered event asks of its receiver.
#[derive(Debug)]
pub enum Delivery<M> {
    Message(Host, Host, M),
    LoopbackMessage(Host, M),
    Timer(Host, TimerId),
}

/// Whether one place comes before another.
pub open spec fn before<M>(a: Entry<M>, b: Entry<M>) -> bool {
    a.time < b.time || (a.time == b.time && a.id < b.id)
}

/// How many events are not later than a time.
pub open spec fn slot<M>(events: Seq<Entry<M>>, time: u128) -> nat
    decreases events.len(),
{
    if events.len() == 0 {
        0
    } else {
        slot(events.drop_last(), time) + if events.last().time <= time {
            1nat
        } else {
            0nat
        }
    }
}

proof fn lemma_slot<M>(events: Seq<Entry<M>>, time: u128, n: int)
    requires
        0 <= n <= events.len(),
        forall|i: int| 0 <= i < n ==> (#[trigger] events[i]).time <= time,
        forall|i: int| n <= i < events.len() ==> (#[trigger] events[i]).time > time,
    ensures
        slot(events, time) == n,
    decreases events.len(),
{
    if events.len() > 0 {
        let shorter = events.drop_last();
        assert(events.last() == events[events.len() - 1]);
        lemma_slot(
            shorter,
            time,
            if n == events.len() {
                n - 1
            } else {
                n
            },
        );
    }
}

/// Events with more of them at one time, behind those that are there already.
pub open spec fn posted<M>(events: Seq<Entry<M>>, time: u128, added: Seq<Entry<M>>) -> Seq<
    Entry<M>,
> {
    let n = slot(events, time) as int;
    events.take(n) + added + events.skip(n)
}

/// Who gets a message: its sender, or another host.
pub ghost enum Recipient {
    Sender,
    Host(Host),
}

/// All replicas but one host, in their order. Indexes count modulo the number
/// of indexes that there are.
pub open spec fn other_replicas(num_replica: nat, source: Host) -> Seq<Recipient>
    decreases num_replica,
{
    if num_replica == 0 {
        Seq::empty()
    } else {
        let host = Host::Replica(((num_replica - 1) % 256) as u8);
        let others = other_replicas((num_replica - 1) as nat, source);
        if host == source {
            others
        } else {
            others.push(Recipient::Host(host))
        }
    }
}

/// The recipients of a message, in the order in which it is posted to them.
pub open spec fn recipients(to: To, source: Host, num_replica: nat) -> Seq<Recipient> {
    match to {
        To::Host(host) => seq![Recipient::Host(host)],
        To::Hosts(hosts) => hosts@.map_values(|host: Host| Recipient::Host(host)),
        To::AllReplica => other_replicas(num_replica, source),
        To::Loopback => seq![Recipient::Sender],
        To::AllReplicaWithLoopback => seq![Recipient::Sender] + other_replicas(num_replica, source),
    }
}

/// Whether a message is another one or a clone of it.
pub open spec fn carries<M: Clone>(copy: M, message: M) -> bool {
    copy == message || cloned(message, copy)
}

/// Whether an event brings a message of a host to a recipient.
pub open spec fn brings<M: Clone>(
    event: Event<M>,
    source: Host,
    recipient: Recipient,
    message: M,
) -> bool {
    match recipient {
        Recipient::Sender => event matches Event::LoopbackMessage(host, copy) && host == source
            && carries(copy, message),
        Recipient::Host(host) => event matches Event::Message(receiver, remote, copy) && receiver
            == host && remote == source && carries(copy, message),
    }
}

/// Whether entries at one time and numbered from `id` on bring a message to each
/// recipient.
pub open spec fn bring_all<M: Clone>(
    added: Seq<Entry<M>>,
    time: u128,
    id: int,
    source: Host,
    to: Seq<Recipient>,
    message: M,
) -> bool {
    &&& added.len() == to.len()
    &&& forall|i: int|
        0 <= i < added.len() ==> {
            &&& (#[trigger] added[i]).time == time
            &&& added[i].id == id + i
            &&& brings(added[i].event, source, to[i], message)
        }
}

impl<M> Timeline<M> {
    /// Events are in order, none is past, and numbers are given out once. Every
    /// timer event has its timer.
    pub open spec fn wf(&self) -> bool {
        &&& forall|i: int, j: int|
            0 <= i < j < self.events@.len() ==> before(
                #[trigger] self.events@[i],
                #[trigger] self.events@[j],
            )
        &&& forall|i: int, j: int|
            0 <= i < j < self.events@.len() ==> (#[trigger] self.events@[i]).id != (
            #[trigger] self.events@[j]).id
        &&& self.now <= MAX_TIME
        &&& forall|i: int|
            0 <= i < self.events@.len() ==> {
                &&& self.now <= (#[trigger] self.events@[i]).time <= MAX_TIME
                &&& self.events@[i].id <= self.id
                &&& self.events@[i].event is Timer ==> self.timers@.contains_key(
                    self.events@[i].id,
                ) && self.timers@[self.events@[i].id].time == self.events@[i].time
                    && self.timers@[self.events@[i].id].id == self.events@[i].id
            }
        &&& forall|id: u32| #[trigger]
            self.timers@.contains_key(id) ==> id <= self.id && self.timers@[id].id == id
    }

    pub fn new() -> (r: Self)
        ensures
            r.wf(),
            r.now == 0,
            r.id == 0,
            r.events@ == Seq::<Entry<M>>::empty(),
            r.timers@ == Map::<TimerId, Timer>::empty(),
    {
        Timeline { now: 0, id: 0, events: Vec::new(), timers: HashMap::new() }
    }

    /// Puts an event in its place, under the number and the time that were given
    /// out for it.
    fn post(&mut self, time: u128, event: Event<M>)
        requires
            old(self).now <= time,
            forall|i: int, j: int|
                0 <= i < j < old(self).events@.len() ==> before(
                    #[trigger] old(self).events@[i],
                    #[trigger] old(self).events@[j],
                ),
            forall|i: int|
                0 <= i < old(self).events@.len() ==> (#[trigger] old(self).events@[i]).id < old(
                    self,
                ).id,
        ensures
            *final(self) == (Timeline { events: final(self).events, ..*old(self) }),
            ({
                let entry = Entry { time, id: old(self).id, event };
                final(self).events@ == posted(old(self).events@, time, seq![entry])
            }),
    {
        let mut n: usize = self.events.len();
        let ghost events = self.events@;
        while n > 0 && self.events[n - 1].time > time
            invariant
                n <= self.events@.len(),
                forall|i: int| n <= i < self.events@.len() ==> (#[trigger] self.events@[i]).time > time,
            decreases n,
        {
            n -= 1;
        }
        let id: u32 = self.id;
        let ghost entry = Entry { time, id, event };
        proof {
            assert forall|i: int| 0 <= i < n implies (#[trigger] events[i]).time <= time by {
                if i < n - 1 {
                    assert(before(events[i], events[n - 1]));
                }
            }
            lemma_slot(events, time, n as int);
        }
        self.events.insert(n, Entry { time, id, event });
        assert(self.events@ =~= posted(events, time, seq![entry]));
    }

    /// Adds an event some time from now.
    pub fn add_event(&mut self, offset: u128, event: Event<M>)
        requires
            old(self).wf(),
            old(self).id < u32::MAX,
            old(self).now + offset <= MAX_TIME,
            !(event is Timer),
        ensures
            final(self).wf(),
            final(self).now == old(self).now,
            final(self).id == old(self).id + 1,
            final(self).timers == old(self).timers,
            ({
                let time = (old(self).now + offset) as u128;
                let entry = Entry { time, id: final(self).id, event };
                final(self).events@ == posted(old(self).events@, time, seq![entry])
            }),
    {
        let time: u128 = self.now + offset;
        self.id += 1;
        self.post(time, event);
        proof {
            let entry = Entry { time, id: self.id, event };
            lemma_posted_in_order(old(self).events@, time, seq![entry]);
            lemma_posted_members(old(self).events@, time, entry);
        }
    }

    /// Adds the first event of a timer, some time from now.
    pub fn add_timer_event(&mut self, offset: u128, receiver: Host)
        requires
            old(self).wf(),
            old(self).id < u32::MAX,
            old(self).now + offset <= MAX_TIME,
        ensures
            final(self).wf(),
            final(self).now == old(self).now,
            final(self).id == old(self).id + 1,
            ({
                let time = (old(self).now + offset) as u128;
                let entry = Entry { time, id: final(self).id, event: Event::Timer(receiver) };
                &&& final(self).events@ == posted(old(self).events@, time, seq![entry])
                &&& final(self).timers@ == old(self).timers@.insert(
                    final(self).id,
                    Timer { duration: offset, time, id: final(self).id },
                )
            }),
    {
        let time: u128 = self.now + offset;
        self.id += 1;
        self.post(time, Event::Timer(receiver));
        self.timers.insert(self.id, Timer { duration: offset, time, id: self.id });
        proof {
            let entry = Entry { time, id: self.id, event: Event::Timer(receiver) };
            lemma_posted_in_order(old(self).events@, time, seq![entry]);
            lemma_posted_members(old(self).events@, time, entry);
        }
    }

    /// Takes an event off the timeline.
    fn remove_event(&mut self, time: u128, id: u32) -> (r: bool)
        ensures
            final(self).now == old(self).now,
            final(self).id == old(self).id,
            final(self).timers == old(self).timers,
            r <==> is_planned(old(self).events@, time, id),
            !r ==> final(self).events@ == old(self).events@,
            r ==> exists|i: int|
                0 <= i < old(self).events@.len() && (#[trigger] old(self).events@[i]).time == time
                    && old(self).events@[i].id == id && final(self).events@ == old(
                    self,
                ).events@.remove(i),
    {
        let mut i: usize = 0;
        while i < self.events.len()
            invariant
                i <= self.events@.len(),
                *self == *old(self),
                forall|j: int|
                    0 <= j < i ==> !((#[trigger] self.events@[j]).time == time && self.events@[j].id
                        == id),
            decreases self.events@.len() - i,
        {
            if self.events[i].time == time && self.events[i].id == id {
                self.events.remove(i);
                return true;
            }
            i += 1;
        }
        false
    }

    /// Takes the next event off the timeline, whose time it is then. A timer
    /// starts again under a new number. Returns what is to be done, or nothing
    /// when there are no more events.
    pub fn deliver_event(&mut self) -> (r: Option<Delivery<M>>)
        requires
            old(self).wf(),
            old(self).events@.len() > 0 && old(self).events@[0].event is Timer ==> {
                &&& old(self).id < u32::MAX
                &&& old(self).events@[0].time + old(self).timers@[old(self).events@[0].id].duration
                    <= MAX_TIME
            },
        ensures
            final(self).wf(),
            old(self).now <= final(self).now,
            match r {
                Some(delivery) => is_delivered(*old(self), *final(self), delivery),
                None => old(self).events@.len() == 0 && *final(self) == *old(self),
            },
    {
        if self.events.len() == 0 {
            return None;
        }
        let ghost events = self.events@;
        let first = self.events.remove(0);
        proof {
            assert(self.events@ =~= events.drop_first());
            assert forall|i: int| 0 <= i < self.events@.len() implies before(
                events[0],
                #[trigger] self.events@[i],
            ) by {
                assert(self.events@[i] == events[i + 1]);
            }
        }
        self.now = first.time;
        match first.event {
            Event::Message(receiver, remote, message) => Some(
                Delivery::Message(receiver, remote, message),
            ),
            Event::LoopbackMessage(receiver, message) => Some(
                Delivery::LoopbackMessage(receiver, message),
            ),
            Event::Timer(receiver) => {
                let offset: u128 = self.timers.get(&first.id).unwrap().duration;
                self.add_timer_event(offset, receiver);
                Some(Delivery::Timer(receiver, first.id))
            },
        }
    }
}

/// Whether the first event of a timeline was delivered, which leaves another
/// timeline behind.
pub open spec fn is_delivered<M>(
    before: Timeline<M>,
    after: Timeline<M>,
    delivery: Delivery<M>,
) -> bool {
    let first = before.events@[0];
    let rest = before.events@.drop_first();
    &&& before.events@.len() > 0
    &&& after.now == first.time
    &&& match first.event {
        Event::Message(receiver, remote, message) => {
            &&& delivery == Delivery::Message(receiver, remote, message)
            &&& after.events@ == rest
            &&& after.id == before.id
            &&& after.timers == before.timers
        },
        Event::LoopbackMessage(receiver, message) => {
            &&& delivery == Delivery::LoopbackMessage(receiver, message)
            &&& after.events@ == rest
            &&& after.id == before.id
            &&& after.timers == before.timers
        },
        Event::Timer(receiver) => {
            let duration = before.timers@[first.id].duration;
            let time = (first.time + duration) as u128;
            let id = after.id;
            &&& delivery == Delivery::<M>::Timer(receiver, first.id)
            &&& id == before.id + 1
            &&& after.events@ == posted(
                rest,
                time,
                seq![Entry { time, id, event: Event::Timer(receiver) }],
            )
            &&& after.timers@ == before.timers@.insert(id, Timer { duration, time, id })
        },
    }
}

/// Whether receivers were handed a delivery.
pub open spec fn is_handed<R: Receivers>(
    before: R,
    delivery: Delivery<R::Message>,
    after: R,
) -> bool {
    match delivery {
        Delivery::Message(receiver, remote, message) => R::handled(
            before,
            Addr::Simulated(receiver),
            Addr::Simulated(remote),
            message,
            after,
        ),
        Delivery::LoopbackMessage(receiver, message) => R::handled_loopback(
            before,
            Addr::Simulated(receiver),
            message,
            after,
        ),
        Delivery::Timer(receiver, id) => R::timed(
            before,
            Addr::Simulated(receiver),
            crate::context::TimerId::Simulated(id),
            after,
        ),
    }
}

/// Whether there is an event at a place.
pub open spec fn is_planned<M>(events: Seq<Entry<M>>, time: u128, id: u32) -> bool {
    exists|i: int| 0 <= i < events.len() && (#[trigger] events[i]).time == time && events[i].id == id
}

proof fn lemma_posted_in_order<M>(events: Seq<Entry<M>>, time: u128, added: Seq<Entry<M>>)
    requires
        forall|i: int, j: int|
            0 <= i < j < events.len() ==> before(#[trigger] events[i], #[trigger] events[j]),
        forall|i: int, j: int|
            0 <= i < events.len() && 0 <= j < added.len() ==> (#[trigger] events[i]).id < (
            #[trigger] added[j]).id,
        forall|i: int| 0 <= i < added.len() ==> (#[trigger] added[i]).time == time,
        forall|i: int, j: int|
            0 <= i < j < added.len() ==> (#[trigger] added[i]).id < (#[trigger] added[j]).id,
    ensures
        slot(events, time) <= events.len(),
        forall|i: int| 0 <= i < slot(events, time) ==> (#[trigger] events[i]).time <= time,
        forall|i: int|
            slot(events, time) <= i < events.len() ==> (#[trigger] events[i]).time > time,
        forall|i: int, j: int|
            0 <= i < j < posted(events, time, added).len() ==> before(
                #[trigger] posted(events, time, added)[i],
                #[trigger] posted(events, time, added)[j],
            ),
{
    lemma_slot_splits(events, time);
}

pub(crate) proof fn lemma_slot_splits<M>(events: Seq<Entry<M>>, time: u128)
    requires
        forall|i: int, j: int|
            0 <= i < j < events.len() ==> before(#[trigger] events[i], #[trigger] events[j]),
    ensures
        slot(events, time) <= events.len(),
        forall|i: int| 0 <= i < slot(events, time) ==> (#[trigger] events[i]).time <= time,
        forall|i: int|
            slot(events, time) <= i < events.len() ==> (#[trigger] events[i]).time > time,
    decreases events.len(),
{
    if events.len() > 0 {
        let shorter = events.drop_last();
        let last = events.len() - 1;
        lemma_slot_splits(shorter, time);
        if events[last].time <= time {
            assert forall|i: int| 0 <= i < events.len() implies (#[trigger] events[i]).time
                <= time by {
                if i < last {
                    assert(before(events[i], events[last]));
                }
            }
            lemma_slot(events, time, events.len() as int);
        } else {
            assert forall|i: int| 0 <= i < slot(events, time) implies (#[trigger] events[i]).time
                <= time by {
                assert(shorter[i] == events[i]);
            }
            assert forall|i: int| slot(events, time) <= i < events.len() implies (
            #[trigger] events[i]).time > time by {
                if i < last {
                    assert(shorter[i] == events[i]);
                }
            }
        }
    }
}

proof fn lemma_posted_members<M>(events: Seq<Entry<M>>, time: u128, entry: Entry<M>)
    requires
        slot(events, time) <= events.len(),
    ensures
        forall|i: int|
            0 <= i < posted(events, time, seq![entry]).len() ==> #[trigger] posted(
                events,
                time,
                seq![entry],
            )[i] == entry || events.contains(posted(events, time, seq![entry])[i]),
{
    let n = slot(events, time) as int;
    let all = posted(events, time, seq![entry]);
    assert forall|i: int| 0 <= i < all.len() implies #[trigger] all[i] == entry || events.contains(
        all[i],
    ) by {
        if i < n {
            assert(all[i] == events[i]);
        } else if i > n {
            assert(all[i] == events[i - 1]);
        }
    }
}

proof fn lemma_post_again<M>(
    events: Seq<Entry<M>>,
    time: u128,
    added: Seq<Entry<M>>,
    entry: Entry<M>,
)
    requires
        forall|i: int, j: int|
            0 <= i < j < events.len() ==> before(#[trigger] events[i], #[trigger] events[j]),
        forall|i: int| 0 <= i < added.len() ==> (#[trigger] added[i]).time == time,
    ensures
        posted(posted(events, time, added), time, seq![entry]) == posted(
            events,
            time,
            added.push(entry),
        ),
{
    lemma_slot_splits(events, time);
    let n = slot(events, time) as int;
    let all = posted(events, time, added);
    let m = n + added.len();
    assert forall|i: int| 0 <= i < m implies (#[trigger] all[i]).time <= time by {
        if i < n {
            assert(all[i] == events[i]);
        } else {
            assert(all[i] == added[i - n]);
        }
    }
    assert forall|i: int| m <= i < all.len() implies (#[trigger] all[i]).time > time by {
        assert(all[i] == events[i - added.len()]);
    }
    lemma_slot(all, time, m);
    assert(posted(all, time, seq![entry]) =~= posted(events, time, added.push(entry)));
}

/// The view of one host on the simulation.
#[derive(Debug, Clone, Copy, PartialEq, Eq, Structural)]
pub struct Context {
    pub num_faulty: usize,
    pub num_replica: usize,
    pub source: Host,
}

impl Context {
    /// Whether a message was posted from a timeline to recipients, all at the
    /// present time and in their order.
    pub open spec fn is_sent<M: Clone>(
        &self,
        before: Timeline<M>,
        after: Timeline<M>,
        to: Seq<Recipient>,
        message: M,
    ) -> bool {
        &&& after.now == before.now
        &&& after.id == before.id + to.len()
        &&& after.timers == before.timers
        &&& exists|added: Seq<Entry<M>>|
            {
                &&& #[trigger] bring_all(
                    added,
                    before.now,
                    before.id + 1,
                    self.source,
                    to,
                    message,
                )
                &&& after.events@ == posted(before.events@, before.now, added)
            }
    }

    proof fn lemma_sent_nothing<M: Clone>(&self, timeline: Timeline<M>, message: M)
        requires
            timeline.wf(),
        ensures
            self.is_sent(timeline, timeline, Seq::empty(), message),
    {
        let added = Seq::<Entry<M>>::empty();
        lemma_slot_splits(timeline.events@, timeline.now);
        assert(posted(timeline.events@, timeline.now, added) =~= timeline.events@);
        assert(bring_all(
            added,
            timeline.now,
            timeline.id + 1,
            self.source,
            Seq::empty(),
            message,
        ));
    }

    proof fn lemma_sent_another<M: Clone>(
        &self,
        before: Timeline<M>,
        middle: Timeline<M>,
        after: Timeline<M>,
        to: Seq<Recipient>,
        recipient: Recipient,
        message: M,
        entry: Entry<M>,
    )
        requires
            before.wf(),
            self.is_sent(before, middle, to, message),
            after.now == middle.now,
            after.id == middle.id + 1,
            after.timers == middle.timers,
            entry.time == middle.now,
            entry.id == after.id,
            brings(entry.event, self.source, recipient, message),
            after.events@ == posted(middle.events@, middle.now, seq![entry]),
        ensures
            self.is_sent(before, after, to.push(recipient), message),
    {
        let added = choose|added: Seq<Entry<M>>|
            {
                &&& #[trigger] bring_all(
                    added,
                    before.now,
                    before.id + 1,
                    self.source,
                    to,
                    message,
                )
                &&& middle.events@ == posted(before.events@, before.now, added)
            };
        lemma_post_again(before.events@, before.now, added, entry);
        assert(bring_all(
            added.push(entry),
            before.now,
            before.id + 1,
            self.source,
            to.push(recipient),
            message,
        ));
    }

    /// Posts a copy of a message to another host.
    fn post_to<M: Clone>(&self, timeline: &mut Timeline<M>, host: Host, message: &M, Ghost(
        start,
    ): Ghost<Timeline<M>>, Ghost(to): Ghost<Seq<Recipient>>)
        requires
            old(timeline).wf(),
            old(timeline).id < u32::MAX,
            start.wf(),
            self.is_sent(start, *old(timeline), to, *message),
        ensures
            final(timeline).wf(),
            self.is_sent(start, *final(timeline), to.push(Recipient::Host(host)), *message),
    {
        let ghost middle = *timeline;
        let copy = message.clone();
        let ghost event = Event::Message(host, self.source, copy);
        timeline.add_event(0, Event::Message(host, self.source, copy));
        proof {
            let entry = Entry { time: middle.now, id: timeline.id, event };
            self.lemma_sent_another(
                start,
                middle,
                *timeline,
                to,
                Recipient::Host(host),
                *message,
                entry,
            );
        }
    }

    /// Sends a signed message: it is delivered to its recipients at the present
    /// time, after all that was sent before.
    pub fn send_signed<M: Clone>(&self, timeline: &mut Timeline<M>, to: To, message: M)
        requires
            old(timeline).wf(),
            old(timeline).id + recipients(to, self.source, self.num_replica as nat).len()
                <= u32::MAX,
            to matches To::Hosts(hosts) ==> !hosts@.contains(self.source),
        ensures
            final(timeline).wf(),
            self.is_sent(
                *old(timeline),
                *final(timeline),
                recipients(to, self.source, self.num_replica as nat),
                message,
            ),
    {
        let ghost start = *timeline;
        let ghost mut sent: Seq<Recipient> = Seq::empty();
        let loopback = match &to {
            To::Loopback => true,
            To::AllReplicaWithLoopback => true,
            _ => false,
        };
        proof {
            self.lemma_sent_nothing(start, message);
        }
        if loopback {
            let copy = message.clone();
            let ghost event = Event::LoopbackMessage(self.source, copy);
            timeline.add_event(0, Event::LoopbackMessage(self.source, copy));
            proof {
                let entry = Entry { time: start.now, id: timeline.id, event };
                self.lemma_sent_another(
                    start,
                    start,
                    *timeline,
                    sent,
                    Recipient::Sender,
                    message,
                    entry,
                );
                sent = sent.push(Recipient::Sender);
            }
        }
        let ghost first = sent;
        let ghost all = recipients(to, self.source, self.num_replica as nat);
        match to {
            To::Host(host) => {
                self.post_to(timeline, host, &message, Ghost(start), Ghost(sent));
                proof {
                    sent = sent.push(Recipient::Host(host));
                }
            },
            To::Hosts(hosts) => {
                let mut i: usize = 0;
                assert(all.take(0) =~= sent);
                while i < hosts.len()
                    invariant
                        i <= hosts@.len(),
                        all == hosts@.map_values(|host: Host| Recipient::Host(host)),
                        start.wf(),
                        start.id + all.len() <= u32::MAX,
                        timeline.wf(),
                        sent == all.take(i as int),
                        self.is_sent(start, *timeline, sent, message),
                    decreases hosts@.len() - i,
                {
                    self.post_to(timeline, hosts[i], &message, Ghost(start), Ghost(sent));
                    proof {
                        sent = sent.push(Recipient::Host(hosts@[i as int]));
                        assert(sent =~= all.take(i + 1));
                    }
                    i += 1;
                }
                assert(all.take(i as int) =~= all);
            },
            To::AllReplica | To::AllReplicaWithLoopback => {
                let mut index: usize = 0;
                let ghost total = other_replicas(self.num_replica as nat, self.source);
                assert(first + other_replicas(0, self.source) =~= first);
                assert(all =~= first + total);
                while index < self.num_replica
                    invariant
                        index <= self.num_replica,
                        total == other_replicas(self.num_replica as nat, self.source),
                        start.wf(),
                        start.id + first.len() + total.len() <= u32::MAX,
                        timeline.wf(),
                        sent == first + other_replicas(index as nat, self.source),
                        self.is_sent(start, *timeline, sent, message),
                    decreases self.num_replica - index,
                {
                    let host = Host::Replica((index % 256) as u8);
                    proof {
                        lemma_other_replicas_grow(
                            (index + 1) as nat,
                            self.num_replica as nat,
                            self.source,
                        );
                    }
                    if host != self.source {
                        self.post_to(timeline, host, &message, Ghost(start), Ghost(sent));
                        proof {
                            sent = sent.push(Recipient::Host(host));
                        }
                    }
                    assert(sent =~= first + other_replicas((index + 1) as nat, self.source));
                    index += 1;
                }
            },
            To::Loopback => {},
        }
        assert(sent =~= all);
    }

    /// Signs a message in the simulated way and sends it.
    pub fn send<M: Sign<N> + Clone, N>(&self, timeline: &mut Timeline<M>, to: To, message: N)
        requires
            old(timeline).wf(),
            old(timeline).id + recipients(to, self.source, self.num_replica as nat).len()
                <= u32::MAX,
            to matches To::Hosts(hosts) ==> !hosts@.contains(self.source),
        ensures
            final(timeline).wf(),
            exists|signed: M|
                {
                    &&& call_ensures(
                        <M as Sign<N>>::sign,
                        (message, &Signer::Simulated),
                        signed,
                    )
                    &&& #[trigger] self.is_sent(
                        *old(timeline),
                        *final(timeline),
                        recipients(to, self.source, self.num_replica as nat),
                        signed,
                    )
                },
    {
        let signed = M::sign(message, &Signer::Simulated);
        self.send_signed(timeline, to, signed);
    }

    /// Sets a timer that fires after each `duration`. Returns its number.
    pub fn set<M>(&self, timeline: &mut Timeline<M>, duration: u128) -> (r: TimerId)
        requires
            old(timeline).wf(),
            old(timeline).id < u32::MAX,
            old(timeline).now + duration <= MAX_TIME,
        ensures
            final(timeline).wf(),
            r == old(timeline).id + 1,
            final(timeline).now == old(timeline).now,
            final(timeline).id == r,
            ({
                let time = (old(timeline).now + duration) as u128;
                let entry = Entry { time, id: r, event: Event::Timer(self.source) };
                &&& final(timeline).events@ == posted(old(timeline).events@, time, seq![entry])
                &&& final(timeline).timers@ == old(timeline).timers@.insert(
                    r,
                    Timer { duration, time, id: r },
                )
            }),
    {
        timeline.add_timer_event(duration, self.source);
        timeline.id
    }

    /// Takes back a timer that has not fired yet. Its event will not come.
    pub fn unset<M>(&self, timeline: &mut Timeline<M>, id: TimerId)
        requires
            old(timeline).wf(),
            old(timeline).timers@.contains_key(id),
            is_planned(old(timeline).events@, old(timeline).timers@[id].time, id),
        ensures
            final(timeline).wf(),
            final(timeline).now == old(timeline).now,
            final(timeline).id == old(timeline).id,
            final(timeline).timers@ == old(timeline).timers@.remove(id),
            exists|i: int|
                0 <= i < old(timeline).events@.len() && (#[trigger] old(timeline).events@[i]).id
                    == id && final(timeline).events@ == old(timeline).events@.remove(i),
            forall|i: int|
                0 <= i < final(timeline).events@.len() ==> (
                #[trigger] final(timeline).events@[i]).id != id,
    {
        let timer = timeline.timers.remove(&id).unwrap();
        let ghost events = timeline.events@;
        timeline.remove_event(timer.time, timer.id);
        proof {
            let n = choose|i: int|
                0 <= i < events.len() && (#[trigger] events[i]).time == timer.time && events[i].id
                    == id && timeline.events@ == events.remove(i);
            assert forall|i: int| 0 <= i < timeline.events@.len() implies #[trigger] timeline.events@[i]
                == events[if i < n {
                i
            } else {
                i + 1
            }] by {}
            assert forall|i: int| 0 <= i < timeline.events@.len() implies (
            #[trigger] timeline.events@[i]).id != id by {
                let m = if i < n {
                    i
                } else {
                    i + 1
                };
                assert(timeline.events@[i] == events[m]);
                assert(events[m].id != events[n].id);
            }
        }
    }
}

proof fn lemma_other_replicas_grow(a: nat, b: nat, source: Host)
    requires
        a <= b,
    ensures
        other_replicas(a, source).len() <= other_replicas(b, source).len(),
    decreases b - a,
{
    if a < b {
        lemma_other_replicas_grow(a, (b - 1) as nat, source);
    }
}

/// The simulation as a whole: what its hosts have in common.
#[derive(Debug, Clone, Copy, PartialEq, Eq, Structural)]
pub struct Dispatch {
    pub num_faulty: usize,
    pub num_replica: usize,
}

impl Dispatch {
    /// The view of a host on the simulation.
    pub fn register(&self, receiver: Host) -> (r: Context)
        ensures
            r.num_faulty == self.num_faulty,
            r.num_replica == self.num_replica,
            r.source == receiver,
    {
        Context {
            num_faulty: self.num_faulty,
            num_replica: self.num_replica,
            source: receiver,
        }
    }

    /// Takes the next event off the timeline and hands it to the receivers.
    /// Returns whether there was one.
    pub fn deliver_event<R: Receivers>(
        &self,
        timeline: &mut Timeline<R::Message>,
        receivers: &mut R,
    ) -> (r: bool)
        requires
            old(timeline).wf(),
            old(timeline).events@.len() > 0 && old(timeline).events@[0].event is Timer ==> {
                &&& old(timeline).id < u32::MAX
                &&& old(timeline).events@[0].time + old(timeline).timers@[old(
                    timeline,
                ).events@[0].id].duration <= MAX_TIME
            },
        ensures
            final(timeline).wf(),
            if r {
                exists|delivery: Delivery<R::Message>| #[trigger]
                    is_delivered(*old(timeline), *final(timeline), delivery) && is_handed(
                        *old(receivers),
                        delivery,
                        *final(receivers),
                    )
            } else {
                &&& old(timeline).events@.len() == 0
                &&& *final(timeline) == *old(timeline)
                &&& *final(receivers) == *old(receivers)
            },
    {
        match timeline.deliver_event() {
            None => false,
            Some(Delivery::Message(receiver, remote, message)) => {
                receivers.handle(Addr::Simulated(receiver), Addr::Simulated(remote), message);
                true
            },
            Some(Delivery::LoopbackMessage(receiver, message)) => {
                receivers.handle_loopback(Addr::Simulated(receiver), message);
                true
            },
            Some(Delivery::Timer(receiver, id)) => {
                receivers.on_timer(Addr::Simulated(receiver), crate::context::TimerId::Simulated(id));
                true
            },
        }
    }
}

/// Events are delivered in the order of their places: the one that is delivered
/// first comes before all that are left.
pub proof fn law_first_event_is_least<M>(timeline: Timeline<M>, i: int)
    requires
        timeline.wf(),
        0 < i < timeline.events@.len(),
    ensures
        before(timeline.events@[0], timeline.events@[i]),
        timeline.now <= timeline.events@[0].time,
{
}

/// What is sent at one time arrives in the order of sending: a message that is
/// posted behind others at the present time comes after each of them.
pub proof fn law_messages_stay_in_order<M>(timeline: Timeline<M>, entry: Entry<M>, i: int)
    requires
        timeline.wf(),
        entry.time == timeline.now,
        0 <= i < timeline.events@.len(),
        timeline.events@[i].time == timeline.now,
        entry.id > timeline.id,
    ensures
        before(timeline.events@[i], entry),
        i < slot(timeline.events@, timeline.now),
        posted(timeline.events@, timeline.now, seq![entry])[i] == timeline.events@[i],
        posted(timeline.events@, timeline.now, seq![entry])[slot(
            timeline.events@,
            timeline.now,
        ) as int] == entry,
{
    lemma_slot_splits(timeline.events@, timeline.now);
}

/// No message of a replica to all replicas comes to itself but by loopback.
pub proof fn law_broadcast_excludes_sender(num_replica: nat, source: Host, i: int)
    requires
        0 <= i < other_replicas(num_replica, source).len(),
    ensures
        other_replicas(num_replica, source)[i] != Recipient::Host(source),
    decreases num_replica,
{
    if num_replica > 0 {
        let others = other_replicas((num_replica - 1) as nat, source);
        if i < others.len() {
            law_broadcast_excludes_sender((num_replica - 1) as nat, source, i);
        }
    }
}

} // verus!
