//! What holds of contexts: who gets a message, when events come, and what a
//! signature is worth.

use vstd::prelude::*;

use crate::context::simulated::{
    lemma_slot_splits, other_replicas, posted, recipients, slot, Context, Delivery, Dispatch, Entry,
    Event, Host, Recipient, Timeline, To,
};
use crate::context::{Addr, Receivers};

verus! {

/// A broadcast reaches every replica but its sender, and each one once where there
/// are as many indexes.
pub proof fn law_broadcast_reaches_every_other_replica(num_replica: nat, source: Host, i: u8)
    ensures
        other_replicas(num_replica, source).contains(Recipient::Host(Host::Replica(i))) <==> i
            < num_replica && Host::Replica(i) != source,
        num_replica <= 256 ==> other_replicas(num_replica, source).no_duplicates(),
        forall|k: int|
            0 <= k < other_replicas(num_replica, source).len() ==> (#[trigger] other_replicas(
                num_replica,
                source,
            )[k] matches Recipient::Host(Host::Replica(_))),
    decreases num_replica,
{
    let all = other_replicas(num_replica, source);
    if num_replica > 0 {
        let n = (num_replica - 1) as nat;
        let index = (n % 256) as u8;
        let shorter = other_replicas(n, source);
        let last = Recipient::Host(Host::Replica(index));
        law_broadcast_reaches_every_other_replica(n, source, i);
        law_broadcast_reaches_every_other_replica(n, source, index);
        let wanted = Recipient::Host(Host::Replica(i));
        if Host::Replica(index) == source {
            assert(all == shorter);
        } else {
            assert(all == shorter.push(last));
            assert(all.last() == last);
            if shorter.contains(wanted) {
                let k = shorter.index_of(wanted);
                assert(all[k] == wanted);
            }
            if all.contains(wanted) && wanted != last {
                let k = all.index_of(wanted);
                assert(shorter[k] == wanted);
            }
            if num_replica <= 256 {
                assert forall|a: int, b: int| 0 <= a < b < all.len() implies all[a] != all[b] by {
                    assert(shorter[a] == all[a]);
                    if b == shorter.len() {
                        assert(shorter.contains(shorter[a]));
                    } else {
                        assert(shorter[b] == all[b]);
                    }
                }
            }
            assert forall|k: int| 0 <= k < all.len() implies (#[trigger] all[k] matches
            Recipient::Host(Host::Replica(_))) by {
                if k < shorter.len() {
                    assert(shorter[k] == all[k]);
                }
            }
        }
    }
}

/// Every index is counted once: one more replica is one more message, unless it is
/// the sender.
pub proof fn law_broadcast_counts_replicas(num_replica: nat, source: Host)
    requires
        num_replica <= 256,
    ensures
        other_replicas(num_replica, source).len() == num_replica - if source matches Host::Replica(
            i,
        ) && i < num_replica {
            1int
        } else {
            0int
        },
    decreases num_replica,
{
    if num_replica > 0 {
        law_broadcast_counts_replicas((num_replica - 1) as nat, source);
    }
}

/// Whether a host other than the sender is one that a message goes to.
pub open spec fn is_addressed(to: To, source: Host, num_replica: usize, host: Host) -> bool {
    match to {
        To::Host(wanted) => host == wanted,
        To::Hosts(hosts) => hosts@.contains(host),
        To::Loopback => false,
        _ => host != source && (host matches Host::Replica(i) && i < num_replica),
    }
}

/// Whether an event brings a message of one host to another.
pub open spec fn comes_to<M: Clone>(
    event: Event<M>,
    source: Host,
    host: Host,
    message: M,
) -> bool {
    event matches Event::Message(receiver, remote, copy) && receiver == host && remote == source && (
    copy == message || cloned(message, copy))
}

/// Whether an event brings a message of a host to itself.
pub open spec fn comes_back<M: Clone>(event: Event<M>, source: Host, message: M) -> bool {
    event matches Event::LoopbackMessage(receiver, copy) && receiver == source && (copy == message
        || cloned(message, copy))
}

/// Whether events were put among others: behind all that are not later, and before
/// all that are.
pub open spec fn is_placed<M>(
    before: Seq<Entry<M>>,
    time: u128,
    added: Seq<Entry<M>>,
    after: Seq<Entry<M>>,
    n: int,
) -> bool {
    &&& 0 <= n <= before.len()
    &&& after == before.take(n) + added + before.skip(n)
    &&& forall|i: int| 0 <= i < n ==> (#[trigger] before[i]).time <= time
    &&& forall|i: int| n <= i < before.len() ==> (#[trigger] before[i]).time > time
}

/// Events of a timeline are in the order of their times, those of one time in the
/// order of their numbers, and none is past.
pub proof fn law_timeline_is_in_order<M>(timeline: Timeline<M>, i: int, j: int)
    requires
        timeline.wf(),
        0 <= i < j < timeline.events@.len(),
    ensures
        timeline.now <= timeline.events@[i].time <= timeline.events@[j].time,
        timeline.events@[i].time == timeline.events@[j].time ==> timeline.events@[i].id
            < timeline.events@[j].id,
{
    let (a, b) = (timeline.events@[i], timeline.events@[j]);
    assert(crate::context::simulated::before(a, b));
}

proof fn lemma_placed<M>(timeline: Timeline<M>, time: u128, added: Seq<Entry<M>>)
    requires
        timeline.wf(),
    ensures
        is_placed(
            timeline.events@,
            time,
            added,
            posted(timeline.events@, time, added),
            slot(timeline.events@, time) as int,
        ),
{
    lemma_slot_splits(timeline.events@, time);
}

/// What was posted when a message was sent: events at the present time, numbered
/// on, one to each host that the message goes to, and one to the sender if it goes
/// there as well.
pub open spec fn is_posted_to_all<M: Clone>(
    context: Context,
    before: Timeline<M>,
    after: Timeline<M>,
    to: To,
    message: M,
    added: Seq<Entry<M>>,
    n: int,
) -> bool {
    &&& is_placed(before.events@, before.now, added, after.events@, n)
    &&& after.id == before.id + added.len()
    &&& forall|i: int|
        0 <= i < added.len() ==> (#[trigger] added[i]).time == before.now && added[i].id
            == before.id + 1 + i
    &&& forall|host: Host| #[trigger]
        is_addressed(to, context.source, context.num_replica, host) ==> exists|i: int|
            0 <= i < added.len() && comes_to(
                (#[trigger] added[i]).event,
                context.source,
                host,
                message,
            )
    &&& forall|i: int|
        0 <= i < added.len() ==> {
            ||| (to is Loopback || to is AllReplicaWithLoopback) && i == 0 && comes_back(
                (#[trigger] added[i]).event,
                context.source,
                message,
            )
            ||| exists|host: Host| #[trigger]
                is_addressed(to, context.source, context.num_replica, host) && comes_to(
                    added[i].event,
                    context.source,
                    host,
                    message,
                )
        }
    &&& to is Loopback ==> added.len() == 1
    &&& to is Loopback || to is AllReplicaWithLoopback ==> added.len() > 0 && comes_back(
        added[0].event,
        context.source,
        message,
    )
    &&& to is Host ==> added.len() == 1
    &&& to matches To::Hosts(hosts) ==> added.len() == hosts@.len() && forall|i: int|
        0 <= i < added.len() ==> comes_to(
            (#[trigger] added[i]).event,
            context.source,
            hosts@[i],
            message,
        )
    &&& context.num_replica <= 256 && (to is AllReplica || to is AllReplicaWithLoopback)
        ==> forall|i: int, j: int|
        0 <= i < j < added.len() && (#[trigger] added[i]).event is Message && (
        #[trigger] added[j]).event is Message ==> added[i].event->Message_0
            != added[j].event->Message_0
}

/// A message is posted to just those hosts that it goes to: to all replicas but
/// the sender for a broadcast, whoever the sender is, and to each of them once. What
/// was posted before comes before it at the same time.
pub proof fn law_message_is_posted_to_all_recipients<M: Clone>(
    context: &Context,
    timeline: &mut Timeline<M>,
    to: To,
    message: M,
)
    requires
        old(timeline).wf(),
        call_ensures(Context::send_signed::<M>, (context, timeline, to, message), ()),
    ensures
        final(timeline).now == old(timeline).now,
        final(timeline).timers == old(timeline).timers,
        exists|added: Seq<Entry<M>>, n: int| #[trigger]
            is_posted_to_all(
                *context,
                *old(timeline),
                *final(timeline),
                to,
                message,
                added,
                n,
            ),
{
    lemma_sent(*context, *old(timeline), *final(timeline), to, message);
}

proof fn lemma_sent<M: Clone>(
    context: Context,
    before: Timeline<M>,
    after: Timeline<M>,
    to: To,
    message: M,
)
    requires
        before.wf(),
        context.is_sent(
            before,
            after,
            recipients(to, context.source, context.num_replica as nat),
            message,
        ),
    ensures
        after.now == before.now,
        after.timers == before.timers,
        exists|added: Seq<Entry<M>>, n: int| #[trigger]
            is_posted_to_all(context, before, after, to, message, added, n),
{
    let source = context.source;
    let num = context.num_replica as nat;
    let all = recipients(to, source, num);
    let added = choose|added: Seq<Entry<M>>|
        {
            &&& #[trigger] crate::context::simulated::bring_all(
                added,
                before.now,
                before.id + 1,
                source,
                all,
                message,
            )
            &&& after.events@ == posted(before.events@, before.now, added)
        };
    let n = slot(before.events@, before.now) as int;
    lemma_placed(before, before.now, added);
    let others = other_replicas(num, source);
    law_broadcast_reaches_every_other_replica(num, source, 0);
    assert forall|i: int| 0 <= i < added.len() implies (#[trigger] added[i]).time == before.now
        && added[i].id == before.id + 1 + i && crate::context::simulated::brings(
        added[i].event,
        source,
        all[i],
        message,
    ) by {}
    assert forall|host: Host| #[trigger]
        is_addressed(to, source, context.num_replica, host) implies exists|i: int|
        0 <= i < added.len() && comes_to((#[trigger] added[i]).event, source, host, message) by {
        let wanted = Recipient::Host(host);
        lemma_addressed(to, source, context.num_replica, host);
        let i = all.index_of(wanted);
        assert(all[i] == wanted);
        assert(comes_to(added[i].event, source, host, message));
    }
    assert forall|i: int| 0 <= i < added.len() implies {
        ||| (to is Loopback || to is AllReplicaWithLoopback) && i == 0 && comes_back(
            (#[trigger] added[i]).event,
            source,
            message,
        )
        ||| exists|host: Host| #[trigger]
            is_addressed(to, source, context.num_replica, host) && comes_to(
                added[i].event,
                source,
                host,
                message,
            )
    } by {
        match all[i] {
            Recipient::Sender => {
                lemma_addressed_at(to, source, context.num_replica, i);
            },
            Recipient::Host(host) => {
                lemma_addressed_at(to, source, context.num_replica, i);
                assert(is_addressed(to, source, context.num_replica, host));
                assert(comes_to(added[i].event, source, host, message));
            },
        }
    }
    if let To::Hosts(hosts) = to {
        assert forall|i: int| 0 <= i < added.len() implies comes_to(
            (#[trigger] added[i]).event,
            source,
            hosts@[i],
            message,
        ) by {
            assert(all[i] == Recipient::Host(hosts@[i]));
        }
    }
    if context.num_replica <= 256 && (to is AllReplica || to is AllReplicaWithLoopback) {
        let shift = if to is AllReplica {
            0int
        } else {
            1int
        };
        assert forall|i: int, j: int|
            0 <= i < j < added.len() && (#[trigger] added[i]).event is Message && (
            #[trigger] added[j]).event is Message implies added[i].event->Message_0
            != added[j].event->Message_0 by {
            assert(all[j] == others[j - shift]);
            if i >= shift {
                assert(all[i] == others[i - shift]);
            }
        }
    }
    assert(is_posted_to_all(context, before, after, to, message, added, n));
}

proof fn lemma_addressed(to: To, source: Host, num_replica: usize, host: Host)
    requires
        is_addressed(to, source, num_replica, host),
    ensures
        recipients(to, source, num_replica as nat).contains(Recipient::Host(host)),
{
    let all = recipients(to, source, num_replica as nat);
    let others = other_replicas(num_replica as nat, source);
    let wanted = Recipient::Host(host);
    match to {
        To::Host(_) => {
            assert(all[0] == wanted);
        },
        To::Hosts(hosts) => {
            let i = hosts@.index_of(host);
            assert(all[i] == wanted);
        },
        To::AllReplica => {
            law_broadcast_reaches_every_other_replica(
                num_replica as nat,
                source,
                host->Replica_0,
            );
        },
        To::Loopback => {},
        To::AllReplicaWithLoopback => {
            law_broadcast_reaches_every_other_replica(
                num_replica as nat,
                source,
                host->Replica_0,
            );
            let i = others.index_of(wanted);
            assert(all[i + 1] == wanted);
        },
    }
}

proof fn lemma_addressed_at(to: To, source: Host, num_replica: usize, i: int)
    requires
        0 <= i < recipients(to, source, num_replica as nat).len(),
    ensures
        match recipients(to, source, num_replica as nat)[i] {
            Recipient::Sender => i == 0 && (to is Loopback || to is AllReplicaWithLoopback),
            Recipient::Host(host) => is_addressed(to, source, num_replica, host),
        },
{
    let all = recipients(to, source, num_replica as nat);
    let others = other_replicas(num_replica as nat, source);
    law_broadcast_reaches_every_other_replica(num_replica as nat, source, 0);
    match to {
        To::Hosts(hosts) => {
            assert(all[i] == Recipient::Host(hosts@[i]));
            assert(hosts@.contains(hosts@[i]));
        },
        To::AllReplica => {
            assert(others.contains(others[i]));
            let id = others[i]->Host_0->Replica_0;
            law_broadcast_reaches_every_other_replica(num_replica as nat, source, id);
        },
        To::AllReplicaWithLoopback => {
            if i > 0 {
                assert(all[i] == others[i - 1]);
                assert(others.contains(others[i - 1]));
                let id = others[i - 1]->Host_0->Replica_0;
                law_broadcast_reaches_every_other_replica(num_replica as nat, source, id);
            }
        },
        _ => {},
    }
}

/// An event that is added comes its offset from now, under a new number, behind
/// all that are not later.
pub proof fn law_event_is_added_in_its_place<M>(
    timeline: &mut Timeline<M>,
    offset: u128,
    event: Event<M>,
)
    requires
        old(timeline).wf(),
        old(timeline).id < u32::MAX,
        old(timeline).now + offset <= u128::MAX,
        call_ensures(Timeline::<M>::add_event, (timeline, offset, event), ()),
    ensures
        final(timeline).now == old(timeline).now,
        final(timeline).id == old(timeline).id + 1,
        final(timeline).timers == old(timeline).timers,
        exists|entry: Entry<M>, n: int|
            {
                &&& entry.time == old(timeline).now + offset
                &&& entry.id == old(timeline).id + 1
                &&& entry.event == event
                &&& #[trigger] is_placed(
                    old(timeline).events@,
                    entry.time,
                    seq![entry],
                    final(timeline).events@,
                    n,
                )
            },
{
    let time = (old(timeline).now + offset) as u128;
    let entry = Entry { time, id: final(timeline).id, event };
    lemma_placed(*old(timeline), time, seq![entry]);
    let n = slot(old(timeline).events@, time) as int;
    assert(is_placed(
        old(timeline).events@,
        entry.time,
        seq![entry],
        final(timeline).events@,
        n,
    ));
}

/// Whether a timer of a host was set: its event comes its duration after a time,
/// and the timer is remembered under the number of the event. Other timers stay.
pub open spec fn is_set<M>(
    before: Timeline<M>,
    rest: Seq<Entry<M>>,
    from: u128,
    after: Timeline<M>,
    host: Host,
    duration: u128,
    n: int,
) -> bool {
    let id = after.id;
    &&& id == before.id + 1
    &&& after.timers@.contains_key(id)
    &&& after.timers@[id].duration == duration
    &&& after.timers@[id].time == from + duration
    &&& after.timers@[id].id == id
    &&& forall|other: u32|
        other != id ==> (#[trigger] after.timers@.contains_key(other)
            <==> before.timers@.contains_key(other)) && after.timers@[other]
            == before.timers@[other]
    &&& is_placed(
        rest,
        (from + duration) as u128,
        seq![Entry { time: (from + duration) as u128, id, event: Event::Timer(host) }],
        after.events@,
        n,
    )
}

/// A timer that is set fires for the host that set it, its duration from now.
pub proof fn law_timer_is_set<M>(
    context: &Context,
    timeline: &mut Timeline<M>,
    duration: u128,
    r: u32,
)
    requires
        old(timeline).wf(),
        old(timeline).id < u32::MAX,
        old(timeline).now + duration <= u128::MAX,
        call_ensures(Context::set::<M>, (context, timeline, duration), r),
    ensures
        final(timeline).now == old(timeline).now,
        r == old(timeline).id + 1,
        exists|n: int| #[trigger]
            is_set(
                *old(timeline),
                old(timeline).events@,
                old(timeline).now,
                *final(timeline),
                context.source,
                duration,
                n,
            ),
{
    let time = (old(timeline).now + duration) as u128;
    let entry = Entry::<M> { time, id: r, event: Event::Timer(context.source) };
    lemma_placed(*old(timeline), time, seq![entry]);
    let n = slot(old(timeline).events@, time) as int;
    assert(is_set(
        *old(timeline),
        old(timeline).events@,
        old(timeline).now,
        *final(timeline),
        context.source,
        duration,
        n,
    ));
}

/// The event that is delivered comes before all others, and it is its time then.
/// It is gone afterwards and the others stay in their order. A timer of which the
/// event was delivered is set again from that time on.
pub proof fn law_next_event_is_delivered<M>(timeline: &mut Timeline<M>, r: Option<Delivery<M>>)
    requires
        old(timeline).wf(),
        call_ensures(Timeline::<M>::deliver_event, (timeline,), r),
        old(timeline).events@.len() > 0 && old(timeline).events@[0].event is Timer ==> {
            &&& old(timeline).id < u32::MAX
            &&& old(timeline).events@[0].time + old(timeline).timers@[old(timeline).events@[0].id].duration <= u128::MAX
        },
    ensures
        r is None <==> old(timeline).events@.len() == 0,
        r is None ==> *final(timeline) == *old(timeline),
        r matches Some(delivery) ==> is_next_delivered(
            *old(timeline),
            *final(timeline),
            delivery,
        ),
{
    if let Some(delivery) = r {
        lemma_delivered(*old(timeline), *final(timeline), delivery);
    }
}

/// Whether the least event of a timeline was delivered.
pub open spec fn is_next_delivered<M>(
    before: Timeline<M>,
    after: Timeline<M>,
    delivery: Delivery<M>,
) -> bool {
    let first = before.events@[0];
    let rest = before.events@.skip(1);
    &&& before.events@.len() > 0
    &&& after.now == first.time
    &&& forall|i: int|
        0 < i < before.events@.len() ==> first.time < (#[trigger] before.events@[i]).time || (
        first.time == before.events@[i].time && first.id < before.events@[i].id)
    &&& match delivery {
        Delivery::Message(receiver, remote, message) => {
            &&& first.event == Event::Message(receiver, remote, message)
            &&& after.events@ == rest
            &&& after.id == before.id
            &&& after.timers == before.timers
        },
        Delivery::LoopbackMessage(receiver, message) => {
            &&& first.event == Event::LoopbackMessage(receiver, message)
            &&& after.events@ == rest
            &&& after.id == before.id
            &&& after.timers == before.timers
        },
        Delivery::Timer(receiver, id) => {
            &&& first.event == Event::<M>::Timer(receiver)
            &&& id == first.id
            &&& exists|n: int| #[trigger]
                is_set(
                    before,
                    rest,
                    first.time,
                    after,
                    receiver,
                    before.timers@[first.id].duration,
                    n,
                )
        },
    }
}

proof fn lemma_delivered<M>(before: Timeline<M>, after: Timeline<M>, delivery: Delivery<M>)
    requires
        before.wf(),
        crate::context::simulated::is_delivered(before, after, delivery),
        before.events@[0].event is Timer ==> {
            &&& before.id < u32::MAX
            &&& before.events@[0].time + before.timers@[before.events@[0].id].duration <= u128::MAX
        },
    ensures
        is_next_delivered(before, after, delivery),
{
    let first = before.events@[0];
    let rest = before.events@.skip(1);
    assert(rest =~= before.events@.drop_first());
    assert forall|i: int| 0 < i < before.events@.len() implies first.time < (
    #[trigger] before.events@[i]).time || (first.time == before.events@[i].time && first.id
        < before.events@[i].id) by {
        law_timeline_is_in_order(before, 0, i);
    }
    if let Event::Timer(receiver) = first.event {
        let duration = before.timers@[first.id].duration;
        let time = (first.time + duration) as u128;
        assert forall|i: int, j: int| 0 <= i < j < rest.len() implies
            crate::context::simulated::before(#[trigger] rest[i], #[trigger] rest[j]) by {
            assert(crate::context::simulated::before(before.events@[i + 1], before.events@[j + 1]));
        }
        lemma_slot_splits(rest, time);
        let n = slot(rest, time) as int;
        assert(is_set(before, rest, first.time, after, receiver, duration, n));
    }
}

/// What is taken off a timeline is handed to the receivers as what it is: a
/// message from its sender, a message of a host to itself, or a timer under its
/// number. Without an event nothing is handed over.
pub proof fn law_delivered_event_is_handed_over<R: Receivers>(
    dispatch: &Dispatch,
    timeline: &mut Timeline<R::Message>,
    receivers: &mut R,
    r: bool,
)
    requires
        old(timeline).wf(),
        call_ensures(Dispatch::deliver_event::<R>, (dispatch, timeline, receivers), r),
    ensures
        r <==> old(timeline).events@.len() > 0,
        !r ==> *final(timeline) == *old(timeline) && *final(receivers) == *old(receivers),
        r ==> match old(timeline).events@[0].event {
            Event::Message(receiver, remote, message) => R::handled(
                *old(receivers),
                Addr::Simulated(receiver),
                Addr::Simulated(remote),
                message,
                *final(receivers),
            ),
            Event::LoopbackMessage(receiver, message) => R::handled_loopback(
                *old(receivers),
                Addr::Simulated(receiver),
                message,
                *final(receivers),
            ),
            Event::Timer(receiver) => R::timed(
                *old(receivers),
                Addr::Simulated(receiver),
                crate::context::TimerId::Simulated(old(timeline).events@[0].id),
                *final(receivers),
            ),
        },
        r ==> final(timeline).now == old(timeline).events@[0].time,
{
    if r {
        let delivery = choose|delivery: Delivery<R::Message>| #[trigger]
            crate::context::simulated::is_delivered(*old(timeline), *final(timeline), delivery)
                && crate::context::simulated::is_handed(
                *old(receivers),
                delivery,
                *final(receivers),
            );
    }
}

} // verus!
