//! A context on sockets: who is where, which addresses a message goes to, and
//! the order in which queued events are worked off.

use std::collections::HashSet;
use std::sync::Arc;

use vstd::prelude::*;

use crate::addr::{decimal, SocketAddr};
use crate::context::crypto::{
    hardcoded_hmac, named_key, padded, shared_key, Hmac, Invalid, Sign, Signer, SigningKey,
    Verifier, Verify,
};
use crate::context::{Addr, Receivers, To};

verus! {

/// The parties and their keys.
#[derive(Debug)]
pub struct Config {
    pub num_faulty: usize,
    pub client_addrs: Vec<SocketAddr>,
    pub replica_addrs: Vec<SocketAddr>,
    /// The keys of replicas. Of several under one address the last one counts.
    pub signing_keys: Vec<(SocketAddr, SigningKey)>,
    pub multicast_addr: Option<SocketAddr>,
    pub hmac: Hmac,
}

/// The secret that is derived for the replica at a position. Positions count
/// modulo the number of indexes that there are.
pub open spec fn replica_secret(i: int) -> Seq<u8> {
    padded("replica-"@ + decimal((i % 256) as nat))
}

impl Config {
    /// A setup with keys that are derived from the positions of the replicas,
    /// and one symmetric key that all share. Fewer than a third of the replicas
    /// may be faulty.
    pub fn new(
        client_addrs: Vec<SocketAddr>,
        replica_addrs: Vec<SocketAddr>,
        num_faulty: usize,
    ) -> (r: Self)
        requires
            num_faulty * 3 < replica_addrs@.len(),
        ensures
            r.num_faulty == num_faulty,
            r.client_addrs == client_addrs,
            r.replica_addrs == replica_addrs,
            r.signing_keys@.len() == replica_addrs@.len(),
            forall|i: int|
                0 <= i < replica_addrs@.len() ==> {
                    &&& (#[trigger] r.signing_keys@[i]).0 == replica_addrs@[i]
                    &&& r.signing_keys@[i].1.secret() == replica_secret(i)
                },
            r.multicast_addr is None,
            r.hmac.key@ == shared_key(),
            r.hmac.data@ == Seq::<u8>::empty(),
    {
        let mut signing_keys: Vec<(SocketAddr, SigningKey)> = Vec::new();
        let mut i: usize = 0;
        while i < replica_addrs.len()
            invariant
                i <= replica_addrs@.len(),
                signing_keys@.len() == i,
                forall|j: int|
                    0 <= j < i ==> {
                        &&& (#[trigger] signing_keys@[j]).0 == replica_addrs@[j]
                        &&& signing_keys@[j].1.secret() == replica_secret(j)
                    },
            decreases replica_addrs@.len() - i,
        {
            signing_keys.push((replica_addrs[i], Self::k256((i % 256) as u8)));
            i += 1;
        }
        Config {
            num_faulty,
            client_addrs,
            replica_addrs,
            signing_keys,
            multicast_addr: None,
            hmac: hardcoded_hmac(),
        }
    }

    fn k256(index: u8) -> (r: SigningKey)
        ensures
            r.secret() == padded("replica-"@ + decimal(index as nat)),
    {
        proof {
            reveal_strlit("replica-");
        }
        named_key("replica-", index)
    }

    /// The key of the replica at an address.
    pub fn signing_key(&self, addr: SocketAddr) -> (r: Option<SigningKey>)
        ensures
            match r {
                Some(key) => exists|i: int|
                    {
                        &&& 0 <= i < self.signing_keys@.len()
                        &&& #[trigger] self.signing_keys@[i] == (addr, key)
                        &&& forall|j: int|
                            i < j < self.signing_keys@.len() ==> (
                            #[trigger] self.signing_keys@[j]).0 != addr
                    },
                None => forall|j: int|
                    0 <= j < self.signing_keys@.len() ==> (#[trigger] self.signing_keys@[j]).0
                        != addr,
            },
    {
        let mut i: usize = self.signing_keys.len();
        while i > 0
            invariant
                i <= self.signing_keys@.len(),
                forall|j: int|
                    i <= j < self.signing_keys@.len() ==> (#[trigger] self.signing_keys@[j]).0
                        != addr,
            decreases i,
        {
            i -= 1;
            if self.signing_keys[i].0 == addr {
                assert(self.signing_keys@[i as int] == (addr, self.signing_keys@[i as int].1));
                return Some(self.signing_keys[i].1);
            }
        }
        None
    }
}

pub type TimerId = u32;

/// The view of one party on the sockets.
#[derive(Debug)]
pub struct Context {
    pub config: Arc<Config>,
    pub source: SocketAddr,
    pub signer: Signer,
    pub timer_id: TimerId,
    pub timer_tasks: HashSet<TimerId>,
}

/// Whether a message also goes to its sender.
pub open spec fn loops_back(to: To) -> bool {
    to is Loopback || to is AllReplicaWithLoopback
}

/// All addresses but one, in their order.
pub open spec fn all_but(addrs: Seq<SocketAddr>, source: SocketAddr) -> Seq<SocketAddr>
    decreases addrs.len(),
{
    if addrs.len() == 0 {
        Seq::empty()
    } else if addrs.last() == source {
        all_but(addrs.drop_last(), source)
    } else {
        all_but(addrs.drop_last(), source).push(addrs.last())
    }
}

/// Whether a destination is one that sockets reach.
pub open spec fn is_reachable(config: &Config, to: To) -> bool {
    match to {
        To::Addr(addr) => addr is Socket,
        To::Addrs(addrs) => forall|i: int| 0 <= i < addrs@.len() ==> (#[trigger] addrs@[i]) is Socket,
        To::Client(index) => index < config.client_addrs@.len(),
        To::Clients(indexes) => forall|i: int|
            0 <= i < indexes@.len() ==> (#[trigger] indexes@[i]) < config.client_addrs@.len(),
        To::Replica(index) => index < config.replica_addrs@.len(),
        _ => true,
    }
}

/// The sockets that a message goes to, in the order of sending.
pub open spec fn sockets(config: &Config, source: SocketAddr, to: To) -> Seq<SocketAddr> {
    match to {
        To::Addr(addr) => seq![addr->Socket_0],
        To::Addrs(addrs) => addrs@.map_values(|addr: Addr| addr->Socket_0),
        To::Client(index) => seq![config.client_addrs@[index as int]],
        To::Clients(indexes) => indexes@.map_values(
            |index: u16| config.client_addrs@[index as int],
        ),
        To::Replica(index) => seq![config.replica_addrs@[index as int]],
        To::AllReplica => all_but(config.replica_addrs@, source),
        To::AllReplicaWithLoopback => all_but(config.replica_addrs@, source),
        To::Loopback => Seq::empty(),
    }
}

/// A signed message that is on its way: whether it is handed back to the party
/// itself, and the sockets that it is sent to.
#[derive(Debug)]
pub struct Outgoing<M> {
    pub message: M,
    pub loopback: bool,
    pub sockets: Vec<SocketAddr>,
}

impl Context {
    pub fn new(config: Arc<Config>, source: SocketAddr, signer: Signer) -> (r: Self)
        ensures
            r.config == config,
            r.source == source,
            r.signer == signer,
            r.timer_id == 0,
            r.timer_tasks@ == Set::<TimerId>::empty(),
    {
        Context { config, source, signer, timer_id: 0, timer_tasks: HashSet::new() }
    }

    /// Whether a message is handed back to the party itself, and the sockets
    /// that it is sent to.
    pub fn destinations(&self, to: To) -> (r: (bool, Vec<SocketAddr>))
        requires
            is_reachable(&self.config, to),
        ensures
            r.0 == loops_back(to),
            r.1@ == sockets(&self.config, self.source, to),
    {
        let ghost all = sockets(&self.config, self.source, to);
        let loopback = match &to {
            To::Loopback => true,
            To::AllReplicaWithLoopback => true,
            _ => false,
        };
        let mut r: Vec<SocketAddr> = Vec::new();
        match to {
            To::Addr(addr) => {
                if let Addr::Socket(addr) = addr {
                    r.push(addr);
                }
            },
            To::Addrs(addrs) => {
                let mut i: usize = 0;
                while i < addrs.len()
                    invariant
                        i <= addrs@.len(),
                        is_reachable(&self.config, To::Addrs(addrs)),
                        all == addrs@.map_values(|addr: Addr| addr->Socket_0),
                        r@ == all.take(i as int),
                    decreases addrs@.len() - i,
                {
                    assert(addrs@[i as int] is Socket);
                    if let Addr::Socket(addr) = addrs[i] {
                        r.push(addr);
                        assert(r@ =~= all.take(i + 1));
                    }
                    i += 1;
                }
                assert(all.take(i as int) =~= all);
            },
            To::Client(index) => r.push(self.config.client_addrs[index as usize]),
            To::Clients(indexes) => {
                let mut i: usize = 0;
                assert(is_reachable(&self.config, To::Clients(indexes)));
                while i < indexes.len()
                    invariant
                        i <= indexes@.len(),
                        forall|j: int|
                            0 <= j < indexes@.len() ==> (#[trigger] indexes@[j])
                                < self.config.client_addrs@.len(),
                        all == indexes@.map_values(
                            |index: u16| self.config.client_addrs@[index as int],
                        ),
                        r@ == all.take(i as int),
                    decreases indexes@.len() - i,
                {
                    let index: u16 = indexes[i];
                    assert(indexes@[i as int] < self.config.client_addrs@.len());
                    r.push(self.config.client_addrs[index as usize]);
                    assert(r@ =~= all.take(i + 1));
                    i += 1;
                }
                assert(all.take(i as int) =~= all);
            },
            To::Replica(index) => r.push(self.config.replica_addrs[index as usize]),
            To::AllReplica | To::AllReplicaWithLoopback => {
                let mut i: usize = 0;
                let ghost addrs = self.config.replica_addrs@;
                assert(addrs.take(0) =~= Seq::<SocketAddr>::empty());
                while i < self.config.replica_addrs.len()
                    invariant
                        i <= addrs.len(),
                        addrs == self.config.replica_addrs@,
                        r@ == all_but(addrs.take(i as int), self.source),
                    decreases addrs.len() - i,
                {
                    let addr = self.config.replica_addrs[i];
                    assert(addrs.take(i + 1).drop_last() =~= addrs.take(i as int));
                    if addr != self.source {
                        r.push(addr);
                    }
                    i += 1;
                }
                assert(addrs.take(i as int) =~= addrs);
            },
            To::Loopback => {},
        }
        assert(r@ =~= all);
        (loopback, r)
    }

    /// Signs a message and says where it goes.
    pub fn send<M: Sign<N>, N>(&self, to: To, message: N) -> (r: Outgoing<M>)
        requires
            is_reachable(&self.config, to),
        ensures
            call_ensures(<M as Sign<N>>::sign, (message, &self.signer), r.message),
            r.loopback == loops_back(to),
            r.sockets@ == sockets(&self.config, self.source, to),
    {
        let message = M::sign(message, &self.signer);
        let (loopback, sockets) = self.destinations(to);
        Outgoing { message, loopback, sockets }
    }

    /// The socket of the sequencer that orders multicast messages.
    pub fn multicast_destination(&self) -> (r: SocketAddr)
        requires
            self.config.multicast_addr is Some,
        ensures
            Some(r) == self.config.multicast_addr,
    {
        self.config.multicast_addr.unwrap()
    }

    /// Numbers a new timer. Its task is to be started.
    pub fn set(&mut self) -> (r: TimerId)
        requires
            old(self).timer_id < u32::MAX,
        ensures
            r == old(self).timer_id + 1,
            final(self).timer_id == r,
            final(self).timer_tasks@ == old(self).timer_tasks@.insert(r),
            final(self).config == old(self).config,
            final(self).source == old(self).source,
            final(self).signer == old(self).signer,
    {
        self.timer_id += 1;
        self.timer_tasks.insert(self.timer_id);
        self.timer_id
    }

    /// Forgets a timer that is set. Its task is to be aborted.
    pub fn unset(&mut self, id: TimerId)
        requires
            old(self).timer_tasks@.contains(id),
        ensures
            final(self).timer_id == old(self).timer_id,
            final(self).timer_tasks@ == old(self).timer_tasks@.remove(id),
            final(self).config == old(self).config,
            final(self).source == old(self).source,
            final(self).signer == old(self).signer,
    {
        self.timer_tasks.remove(&id);
    }
}

/// What is queued for the receivers, with messages in serialized form or as they
/// are deserialized.
#[derive(Debug, PartialEq, Eq)]
pub enum Event<P> {
    Message(SocketAddr, SocketAddr, P),
    LoopbackMessage(SocketAddr, P),
    OrderedMulticastMessage(SocketAddr, P),
    Timer(SocketAddr, TimerId),
    Stop,
}

/// The most events that may be queued.
pub const MAX_QUEUED: usize = 4096;

/// What is to be done about an event: nothing more at all, nothing about a
/// dropped message, or to hand it to the receivers.
#[derive(Debug, PartialEq, Eq)]
pub enum Step<P> {
    Stop,
    Skip,
    Deliver(Event<P>),
}

/// How queued events are worked off. Receivers are given a pace after each round
/// of as many messages as were queued at the pace before, or one.
#[derive(Debug, Clone, Copy, PartialEq, Eq, Structural)]
pub struct DispatchState {
    pub pace_count: usize,
}

impl DispatchState {
    /// The first round has one message.
    pub fn new() -> (r: Self)
        ensures
            r.pace_count == 1,
    {
        DispatchState { pace_count: 1 }
    }

    /// Gives the receivers a pace when the round is over. Then the next round is
    /// to begin.
    pub fn on_pace<R: Receivers>(&self, receivers: &mut R) -> (r: bool)
        ensures
            r <==> self.pace_count == 0,
            if r {
                R::paced(*old(receivers), *final(receivers))
            } else {
                *final(receivers) == *old(receivers)
            },
    {
        if self.pace_count == 0 {
            receivers.on_pace();
            true
        } else {
            false
        }
    }

    /// Begins a round, given how many events are queued after the pace.
    pub fn next_round(&mut self, queued: usize)
        ensures
            final(self).pace_count == if queued == 0 {
                1
            } else {
                queued
            },
            final(self).pace_count > 0,
    {
        self.pace_count = if queued == 0 {
            1
        } else {
            queued
        };
    }

    /// Works off an event. Messages count toward the round, also those that are
    /// dropped; what parties send to themselves is never dropped.
    pub fn on_event<P>(&mut self, event: Event<P>, drop_message: bool) -> (r: Step<P>)
        requires
            old(self).pace_count > 0,
        ensures
            final(self).pace_count == old(self).pace_count - if event is Timer || event is Stop {
                0int
            } else {
                1int
            },
            r == if event is Stop {
                Step::Stop
            } else if drop_message && (event is Message || event is OrderedMulticastMessage) {
                Step::Skip
            } else {
                Step::Deliver(event)
            },
    {
        match event {
            Event::Stop => Step::Stop,
            Event::Message(receiver, remote, message) => {
                self.pace_count -= 1;
                if drop_message {
                    Step::Skip
                } else {
                    Step::Deliver(Event::Message(receiver, remote, message))
                }
            },
            Event::LoopbackMessage(receiver, message) => {
                self.pace_count -= 1;
                Step::Deliver(Event::LoopbackMessage(receiver, message))
            },
            Event::OrderedMulticastMessage(remote, message) => {
                self.pace_count -= 1;
                if drop_message {
                    Step::Skip
                } else {
                    Step::Deliver(Event::OrderedMulticastMessage(remote, message))
                }
            },
            Event::Timer(receiver, id) => Step::Deliver(Event::Timer(receiver, id)),
        }
    }
}

/// Whether receivers were handed an event.
pub open spec fn is_handed<R: Receivers>(before: R, event: Event<R::Message>, after: R) -> bool {
    match event {
        Event::Message(receiver, remote, message) => R::handled(
            before,
            Addr::Socket(receiver),
            Addr::Socket(remote),
            message,
            after,
        ),
        Event::LoopbackMessage(receiver, message) => R::handled_loopback(
            before,
            Addr::Socket(receiver),
            message,
            after,
        ),
        Event::Timer(receiver, id) => R::timed(
            before,
            Addr::Socket(receiver),
            crate::context::TimerId::Tokio(id),
            after,
        ),
        _ => false,
    }
}

/// Whether receivers were handed events, one after the other.
pub open spec fn are_handed<R: Receivers>(
    before: R,
    events: Seq<Event<R::Message>>,
    after: R,
) -> bool
    decreases events.len(),
{
    if events.len() == 0 {
        after == before
    } else {
        exists|middle: R|
            are_handed(before, events.drop_last(), middle) && #[trigger] is_handed(
                middle,
                events.last(),
                after,
            )
    }
}

/// Hands an event to the receivers. A message of another party is handed to them
/// only if it was verified; otherwise the verdict on it comes back. What a party
/// sends to itself needs no verdict, and what a sequencer sends goes another way.
pub fn deliver_verified<R: Receivers>(
    receivers: &mut R,
    event: Event<R::Message>,
    verdict: Result<(), Invalid>,
) -> (r: Result<(), Invalid>)
    requires
        event is Message || event is LoopbackMessage || event is Timer,
    ensures
        if event is Message && verdict is Err {
            r == verdict && *final(receivers) == *old(receivers)
        } else {
            r == Ok::<(), Invalid>(()) && is_handed(*old(receivers), event, *final(receivers))
        },
{
    match event {
        Event::Message(receiver, remote, message) => {
            if let Err(e) = verdict {
                return Err(e);
            }
            receivers.handle(Addr::Socket(receiver), Addr::Socket(remote), message);
        },
        Event::LoopbackMessage(receiver, message) => {
            receivers.handle_loopback(Addr::Socket(receiver), message);
        },
        Event::Timer(receiver, id) => {
            receivers.on_timer(Addr::Socket(receiver), crate::context::TimerId::Tokio(id));
        },
        _ => {},
    }
    Ok(())
}

/// Verifies an event if it is a message of another party, and hands it to the
/// receivers unless that fails.
pub fn deliver<M: Verify<I>, I, R: Receivers<Message = M>>(
    verifier: &Verifier<I>,
    receivers: &mut R,
    event: Event<M>,
) -> (r: Result<(), Invalid>)
    requires
        event is Message || event is LoopbackMessage || event is Timer,
    ensures
        match event {
            Event::Message(_, _, message) => {
                &&& call_ensures(<M as Verify<I>>::verify, (&message, verifier), r)
                &&& if r is Ok {
                    is_handed(*old(receivers), event, *final(receivers))
                } else {
                    *final(receivers) == *old(receivers)
                }
            },
            _ => r == Ok::<(), Invalid>(()) && is_handed(
                *old(receivers),
                event,
                *final(receivers),
            ),
        },
{
    let verdict = match &event {
        Event::Message(_, _, message) => message.verify(verifier),
        _ => Ok(()),
    };
    assert(verdict matches Ok(unit) ==> unit == ());
    deliver_verified(receivers, event, verdict)
}

/// What stops a dispatch from elsewhere.
#[derive(Debug, Clone, Copy, PartialEq, Eq, Structural)]
pub struct DispatchHandle;

impl DispatchHandle {
    /// The event that stops the dispatch once it is worked off.
    pub fn stop<P>(&self) -> (r: Event<P>)
        ensures
            r == Event::<P>::Stop,
    {
        Event::Stop
    }
}

/// No message of a replica to all replicas is sent to its own socket.
pub proof fn law_all_but_excludes_sender(addrs: Seq<SocketAddr>, source: SocketAddr)
    ensures
        !all_but(addrs, source).contains(source),
        forall|addr: SocketAddr|
            addr != source ==> (#[trigger] all_but(addrs, source).contains(addr)
                <==> addrs.contains(addr)),
    decreases addrs.len(),
{
    if addrs.len() > 0 {
        let shorter = addrs.drop_last();
        law_all_but_excludes_sender(shorter, source);
        let others = all_but(shorter, source);
        assert forall|addr: SocketAddr| addr != source implies (#[trigger] all_but(
            addrs,
            source,
        ).contains(addr) <==> addrs.contains(addr)) by {
            assert(others.contains(addr) <==> shorter.contains(addr));
            if addrs.contains(addr) && addr != addrs.last() {
                let i = choose|i: int| 0 <= i < addrs.len() && addrs[i] == addr;
                assert(shorter[i] == addr);
            }
            if shorter.contains(addr) {
                let i = choose|i: int| 0 <= i < shorter.len() && shorter[i] == addr;
                assert(addrs[i] == addr);
            }
            if addrs.last() != source {
                assert(all_but(addrs, source).last() == addrs.last());
                if others.contains(addr) {
                    let i = choose|i: int| 0 <= i < others.len() && others[i] == addr;
                    assert(all_but(addrs, source)[i] == addr);
                }
                if all_but(addrs, source).contains(addr) && addr != addrs.last() {
                    let i = choose|i: int|
                        0 <= i < all_but(addrs, source).len() && all_but(addrs, source)[i] == addr;
                    assert(others[i] == addr);
                }
            }
        }
        if all_but(addrs, source).contains(source) {
            let i = choose|i: int|
                0 <= i < all_but(addrs, source).len() && all_but(addrs, source)[i] == source;
            if addrs.last() != source && i < others.len() {
                assert(others[i] == source);
            }
        }
    }
}

/// The effect of working off events on the number of messages that are left in
/// a round.
pub open spec fn after_events<P>(pace_count: int, events: Seq<Event<P>>) -> int
    decreases events.len(),
{
    if events.len() == 0 {
        pace_count
    } else {
        after_events(pace_count, events.drop_last()) - if events.last() is Timer
            || events.last() is Stop {
            0int
        } else {
            1int
        }
    }
}

/// A round is over when as many messages were worked off as it began with, no
/// matter how many timers fired in between.
pub proof fn law_round_counts_messages<P>(pace_count: nat, events: Seq<Event<P>>)
    ensures
        after_events(pace_count as int, events) == pace_count - events.filter(
            |event: Event<P>| !(event is Timer || event is Stop),
        ).len(),
    decreases events.len(),
{
    reveal(Seq::filter);
    if events.len() > 0 {
        law_round_counts_messages(pace_count, events.drop_last());
    }
}

/// Events that are handed over in two parts are handed over in the order of
/// both: every one of them once, and none before an earlier one.
pub proof fn law_events_are_handed_in_order<R: Receivers>(
    before: R,
    first: Seq<Event<R::Message>>,
    middle: R,
    second: Seq<Event<R::Message>>,
    after: R,
)
    requires
        are_handed(before, first, middle),
        are_handed(middle, second, after),
    ensures
        are_handed(before, first + second, after),
    decreases second.len(),
{
    let both = first + second;
    if second.len() == 0 {
        assert(both =~= first);
    } else {
        let last = choose|last: R|
            are_handed(middle, second.drop_last(), last) && #[trigger] is_handed(
                last,
                second.last(),
                after,
            );
        law_events_are_handed_in_order(before, first, middle, second.drop_last(), last);
        assert(both.drop_last() =~= first + second.drop_last());
        assert(is_handed(last, both.last(), after));
    }
}

} // verus!
