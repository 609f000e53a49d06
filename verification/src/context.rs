//! What a protocol runs in: how messages are signed, where they go, and when
//! timers fire.

use vstd::prelude::*;

use crate::addr::SocketAddr;
use crate::context::crypto::{Sign, Signer};
use crate::context::simulated::{
    is_planned, other_replicas, posted, recipients, Entry, Host, Recipient, Timeline,
};

pub mod crypto;
pub mod laws;
pub mod simulated;
pub mod socket_laws;
pub mod tokio;

verus! {

pub type ReplicaIndex = u8;

pub type ClientIndex = u16;

/// Where a party is.
#[derive(Debug, Clone, Copy, PartialEq, Eq, PartialOrd, Ord, Hash, Structural)]
pub enum Addr {
    Socket(SocketAddr),
    Simulated(simulated::Host),
    Multicast,
}

/// Where a message goes.
#[derive(Debug, PartialEq, Eq, PartialOrd, Ord, Hash)]
pub enum To {
    Addr(Addr),
    Addrs(Vec<Addr>),
    Replica(ReplicaIndex),
    Client(ClientIndex),
    Clients(Vec<ClientIndex>),
    AllReplica,
    Loopback,
    AllReplicaWithLoopback,
}

/// A context of either kind.
#[derive(Debug)]
pub enum Context {
    Tokio(tokio::Context),
    Simulated(simulated::Context),
}

/// A timer of either kind of context.
#[derive(Debug, Clone, Copy, PartialEq, Eq, PartialOrd, Ord, Hash, Structural)]
pub enum TimerId {
    Tokio(tokio::TimerId),
    Simulated(simulated::TimerId),
}

impl Context {
    /// Where the party is.
    pub fn addr(&self) -> (r: Addr)
        ensures
            r == match self {
                Context::Tokio(context) => Addr::Socket(context.source),
                Context::Simulated(context) => Addr::Simulated(context.source),
            },
    {
        match self {
            Context::Tokio(context) => Addr::Socket(context.source),
            Context::Simulated(context) => Addr::Simulated(context.source),
        }
    }

    pub fn num_faulty(&self) -> (r: usize)
        ensures
            r == match self {
                Context::Tokio(context) => context.config.num_faulty,
                Context::Simulated(context) => context.num_faulty,
            },
    {
        match self {
            Context::Tokio(context) => context.config.num_faulty,
            Context::Simulated(context) => context.num_faulty,
        }
    }

    pub fn num_replica(&self) -> (r: usize)
        ensures
            r == match self {
                Context::Tokio(context) => context.config.replica_addrs@.len(),
                Context::Simulated(context) => context.num_replica as nat,
            },
    {
        match self {
            Context::Tokio(context) => context.config.replica_addrs.len(),
            Context::Simulated(context) => context.num_replica,
        }
    }
}

/// Whether a destination is one that a simulation reaches.
pub open spec fn is_simulated(to: To) -> bool {
    match to {
        To::Addr(addr) => addr is Simulated,
        To::Addrs(addrs) => forall|i: int|
            0 <= i < addrs@.len() ==> (#[trigger] addrs@[i]) is Simulated,
        To::AllReplica => true,
        To::Loopback => true,
        To::AllReplicaWithLoopback => true,
        _ => false,
    }
}

/// Who gets a message in a simulation, in the order in which it is posted.
pub open spec fn simulated_recipients(to: To, source: Host, num_replica: nat) -> Seq<Recipient> {
    match to {
        To::Addr(addr) => seq![Recipient::Host(addr->Simulated_0)],
        To::Addrs(addrs) => addrs@.map_values(|addr: Addr| Recipient::Host(addr->Simulated_0)),
        To::AllReplica => other_replicas(num_replica, source),
        To::Loopback => seq![Recipient::Sender],
        To::AllReplicaWithLoopback => seq![Recipient::Sender] + other_replicas(num_replica, source),
        _ => Seq::empty(),
    }
}

/// A destination as the simulation knows it.
fn to_simulated(to: To) -> (r: simulated::To)
    requires
        is_simulated(to),
    ensures
        forall|source: Host, num_replica: nat| #[trigger]
            recipients(r, source, num_replica) == simulated_recipients(to, source, num_replica),
        r matches simulated::To::Hosts(hosts) ==> {
            &&& to matches To::Addrs(addrs)
            &&& forall|host: Host| #[trigger]
                hosts@.contains(host) ==> addrs@.contains(Addr::Simulated(host))
        },
{
    match to {
        To::Addr(Addr::Simulated(host)) => simulated::To::Host(host),
        To::Addrs(addrs) => {
            let mut hosts: Vec<Host> = Vec::new();
            let mut i: usize = 0;
            while i < addrs.len()
                invariant
                    i <= addrs@.len(),
                    is_simulated(To::Addrs(addrs)),
                    hosts@.len() == i,
                    forall|j: int|
                        0 <= j < i ==> Addr::Simulated(#[trigger] hosts@[j]) == addrs@[j],
                decreases addrs@.len() - i,
            {
                assert(addrs@[i as int] is Simulated);
                if let Addr::Simulated(host) = addrs[i] {
                    hosts.push(host);
                }
                i += 1;
            }
            assert forall|host: Host| #[trigger] hosts@.contains(host) implies addrs@.contains(
                Addr::Simulated(host),
            ) by {
                let j = choose|j: int| 0 <= j < hosts@.len() && hosts@[j] == host;
                assert(addrs@[j] == Addr::Simulated(host));
            }
            assert(hosts@.map_values(|host: Host| Recipient::Host(host)) =~= addrs@.map_values(
                |addr: Addr| Recipient::Host(addr->Simulated_0),
            ));
            simulated::To::Hosts(hosts)
        },
        To::AllReplica => simulated::To::AllReplica,
        To::AllReplicaWithLoopback => simulated::To::AllReplicaWithLoopback,
        _ => simulated::To::Loopback,
    }
}

impl Context {
    /// Signs a message and sends it: posts it to its recipients on the timeline
    /// of the simulation, or says which sockets it goes to.
    pub fn send<M: Sign<N> + Clone, N>(
        &self,
        timeline: &mut Timeline<M>,
        to: To,
        message: N,
    ) -> (r: Option<tokio::Outgoing<M>>)
        requires
            match self {
                Context::Tokio(context) => tokio::is_reachable(&context.config, to),
                Context::Simulated(context) => {
                    &&& is_simulated(to)
                    &&& old(timeline).wf()
                    &&& old(timeline).id + simulated_recipients(
                        to,
                        context.source,
                        context.num_replica as nat,
                    ).len() <= u32::MAX
                    &&& to matches To::Addrs(addrs) ==> !addrs@.contains(
                        Addr::Simulated(context.source),
                    )
                },
            },
        ensures
            match self {
                Context::Tokio(context) => {
                    &&& *final(timeline) == *old(timeline)
                    &&& r matches Some(outgoing)
                    &&& call_ensures(
                        <M as Sign<N>>::sign,
                        (message, &context.signer),
                        outgoing.message,
                    )
                    &&& outgoing.loopback == tokio::loops_back(to)
                    &&& outgoing.sockets@ == tokio::sockets(&context.config, context.source, to)
                },
                Context::Simulated(context) => {
                    &&& r is None
                    &&& final(timeline).wf()
                    &&& exists|signed: M|
                        {
                            &&& call_ensures(
                                <M as Sign<N>>::sign,
                                (message, &Signer::Simulated),
                                signed,
                            )
                            &&& #[trigger] context.is_sent(
                                *old(timeline),
                                *final(timeline),
                                simulated_recipients(
                                    to,
                                    context.source,
                                    context.num_replica as nat,
                                ),
                                signed,
                            )
                        }
                },
            },
    {
        match self {
            Context::Tokio(context) => Some(context.send(to, message)),
            Context::Simulated(context) => {
                let ghost given = to;
                let to = to_simulated(to);
                assert(recipients(to, context.source, context.num_replica as nat)
                    == simulated_recipients(given, context.source, context.num_replica as nat));
                context.send(timeline, to, message);
                None
            },
        }
    }

    /// Sets a timer that fires after each `duration`. A simulated one is put on
    /// the timeline; the task of another one is to be started.
    pub fn set<M>(&mut self, timeline: &mut Timeline<M>, duration: u128) -> (r: TimerId)
        requires
            match *old(self) {
                Context::Tokio(context) => context.timer_id < u32::MAX,
                Context::Simulated(_) => {
                    &&& old(timeline).wf()
                    &&& old(timeline).id < u32::MAX
                    &&& old(timeline).now + duration <= simulated::MAX_TIME
                },
            },
        ensures
            match *old(self) {
                Context::Tokio(context) => {
                    &&& *final(timeline) == *old(timeline)
                    &&& *final(self) matches Context::Tokio(after)
                    &&& r == TimerId::Tokio(after.timer_id)
                    &&& after.timer_id == context.timer_id + 1
                    &&& after.timer_tasks@ == context.timer_tasks@.insert(after.timer_id)
                    &&& after.config == context.config
                    &&& after.source == context.source
                    &&& after.signer == context.signer
                },
                Context::Simulated(context) => {
                    let id = (old(timeline).id + 1) as u32;
                    let time = (old(timeline).now + duration) as u128;
                    &&& *final(self) == *old(self)
                    &&& final(timeline).wf()
                    &&& r == TimerId::Simulated(id)
                    &&& final(timeline).now == old(timeline).now
                    &&& final(timeline).id == id
                    &&& final(timeline).events@ == posted(
                        old(timeline).events@,
                        time,
                        seq![Entry { time, id, event: simulated::Event::Timer(context.source) }],
                    )
                    &&& final(timeline).timers@ == old(timeline).timers@.insert(
                        id,
                        simulated::Timer { duration, time, id },
                    )
                },
            },
    {
        match self {
            Context::Tokio(context) => TimerId::Tokio(context.set()),
            Context::Simulated(context) => TimerId::Simulated(context.set(timeline, duration)),
        }
    }

    /// Takes a timer of its own kind back. The task of one that is not simulated
    /// is to be aborted.
    pub fn unset<M>(&mut self, timeline: &mut Timeline<M>, id: TimerId)
        requires
            match (*old(self), id) {
                (Context::Tokio(context), TimerId::Tokio(id)) => context.timer_tasks@.contains(id),
                (Context::Simulated(_), TimerId::Simulated(id)) => {
                    &&& old(timeline).wf()
                    &&& old(timeline).timers@.contains_key(id)
                    &&& is_planned(
                        old(timeline).events@,
                        old(timeline).timers@[id].time,
                        id,
                    )
                },
                _ => false,
            },
        ensures
            match (*old(self), id) {
                (Context::Tokio(context), TimerId::Tokio(id)) => {
                    &&& *final(timeline) == *old(timeline)
                    &&& *final(self) matches Context::Tokio(after)
                    &&& after.timer_id == context.timer_id
                    &&& after.timer_tasks@ == context.timer_tasks@.remove(id)
                    &&& after.config == context.config
                    &&& after.source == context.source
                    &&& after.signer == context.signer
                },
                (Context::Simulated(_), TimerId::Simulated(id)) => {
                    &&& *final(self) == *old(self)
                    &&& final(timeline).wf()
                    &&& final(timeline).now == old(timeline).now
                    &&& final(timeline).id == old(timeline).id
                    &&& final(timeline).timers@ == old(timeline).timers@.remove(id)
                    &&& exists|i: int|
                        0 <= i < old(timeline).events@.len() && (#[trigger] old(
                            timeline,
                        ).events@[i]).id == id && final(timeline).events@ == old(
                            timeline,
                        ).events@.remove(i)
                    &&& forall|i: int|
                        0 <= i < final(timeline).events@.len() ==> (
                        #[trigger] final(timeline).events@[i]).id != id
                },
                _ => true,
            },
    {
        match (self, id) {
            (Context::Tokio(context), TimerId::Tokio(id)) => context.unset(id),
            (Context::Simulated(context), TimerId::Simulated(id)) => context.unset(timeline, id),
            _ => {},
        }
    }
}

/// What events are delivered to. Unless its relations are defined otherwise,
/// nothing is promised of what it becomes.
pub trait Receivers: Sized {
    type Message;

    /// Whether `pre` can turn into `post` when a message comes.
    open spec fn handled(
        pre: Self,
        receiver: Addr,
        remote: Addr,
        message: Self::Message,
        post: Self,
    ) -> bool {
        true
    }

    /// Whether `pre` can turn into `post` when a message to itself comes.
    open spec fn handled_loopback(
        pre: Self,
        receiver: Addr,
        message: Self::Message,
        post: Self,
    ) -> bool {
        true
    }

    /// Whether `pre` can turn into `post` when a timer fires.
    open spec fn timed(pre: Self, receiver: Addr, id: TimerId, post: Self) -> bool {
        true
    }

    /// Whether `pre` can turn into `post` at a pace.
    open spec fn paced(pre: Self, post: Self) -> bool {
        true
    }

    fn handle(&mut self, receiver: Addr, remote: Addr, message: Self::Message)
        ensures
            Self::handled(*old(self), receiver, remote, message, *final(self)),
    ;

    fn handle_loopback(&mut self, receiver: Addr, message: Self::Message)
        ensures
            Self::handled_loopback(*old(self), receiver, message, *final(self)),
    ;

    fn on_timer(&mut self, receiver: Addr, id: TimerId)
        ensures
            Self::timed(*old(self), receiver, id, *final(self)),
    ;

    fn on_pace(&mut self)
        ensures
            Self::paced(*old(self), *final(self)),
    ;
}

} // verus!
