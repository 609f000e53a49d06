//! Messages in frames on connections that are kept as long as they are in use.

use vstd::prelude::*;

use crate::addr::SocketAddr;
use crate::error::Error;
use crate::model::{
    event_channel, is_channel, is_send_outcome, is_sender_clone, EventSender, EventSource,
};
use crate::net::Timer;
use crate::wire::{be_bytes, big_endian, lemma_be_bytes, pow256, put_be, put_bytes, read_be};

verus! {

/// Messages must be shorter than this.
pub const MAX_TCP_BUF_LEN: usize = 1048576;

/// A kept connection: what queues the messages that are to be written to it,
/// whether it was used since it was last looked at, and the timer by which it is
/// looked at.
#[derive(Debug)]
pub struct Connection {
    pub sender: EventSender<Vec<u8>>,
    pub in_use: bool,
    pub timer: u32,
}

/// It is time to look at the connection to a socket.
#[derive(Debug, Clone, Copy, PartialEq, Eq, Structural)]
pub struct CheckIdleConnection(pub SocketAddr);

/// The seconds between two looks at a connection.
pub const IDLE_SECS: u64 = 10;

/// The kept connections. No socket has two.
#[derive(Debug)]
pub struct TcpControl {
    pub connections: Vec<(SocketAddr, Connection)>,
}

/// A table of connections as a map.
pub open spec fn table(connections: Seq<(SocketAddr, Connection)>) -> Map<SocketAddr, Connection>
    decreases connections.len(),
{
    if connections.len() == 0 {
        Map::empty()
    } else {
        table(connections.drop_last()).insert(connections.last().0, connections.last().1)
    }
}

/// Whether no socket is in a table twice.
pub open spec fn addrs_differ(connections: Seq<(SocketAddr, Connection)>) -> bool {
    forall|i: int, j: int|
        0 <= i < j < connections.len() ==> (#[trigger] connections[i]).0 != (
        #[trigger] connections[j]).0
}

proof fn lemma_table_at(connections: Seq<(SocketAddr, Connection)>, i: int)
    requires
        addrs_differ(connections),
        0 <= i < connections.len(),
    ensures
        table(connections).contains_key(connections[i].0),
        table(connections)[connections[i].0] == connections[i].1,
    decreases connections.len(),
{
    if i < connections.len() - 1 {
        lemma_table_at(connections.drop_last(), i);
        assert(connections[i].0 != connections[connections.len() - 1].0);
    }
}

proof fn lemma_table_lacks(connections: Seq<(SocketAddr, Connection)>, addr: SocketAddr)
    requires
        forall|i: int| 0 <= i < connections.len() ==> (#[trigger] connections[i]).0 != addr,
    ensures
        !table(connections).contains_key(addr),
    decreases connections.len(),
{
    if connections.len() > 0 {
        assert(connections.last() == connections[connections.len() - 1]);
        assert forall|i: int| 0 <= i < connections.drop_last().len() implies (
        #[trigger] connections.drop_last()[i]).0 != addr by {
            assert(connections.drop_last()[i] == connections[i]);
        }
        lemma_table_lacks(connections.drop_last(), addr);
    }
}

proof fn lemma_table_update(connections: Seq<(SocketAddr, Connection)>, i: int, c: Connection)
    requires
        addrs_differ(connections),
        0 <= i < connections.len(),
    ensures
        table(connections.update(i, (connections[i].0, c))) == table(connections).insert(
            connections[i].0,
            c,
        ),
        addrs_differ(connections.update(i, (connections[i].0, c))),
    decreases connections.len(),
{
    let addr = connections[i].0;
    let updated = connections.update(i, (addr, c));
    let last = connections.len() - 1;
    assert forall|p: int, q: int| 0 <= p < q < updated.len() implies (#[trigger] updated[p]).0 != (
    #[trigger] updated[q]).0 by {
        assert(connections[p].0 != connections[q].0);
    }
    if i < last {
        lemma_table_update(connections.drop_last(), i, c);
        assert(updated.drop_last() =~= connections.drop_last().update(i, (addr, c)));
        assert(connections[i].0 != connections[last].0);
        assert(table(updated) =~= table(connections).insert(addr, c));
    } else {
        assert(updated.drop_last() =~= connections.drop_last());
        assert(table(updated) =~= table(connections).insert(addr, c));
    }
}

proof fn lemma_table_remove(connections: Seq<(SocketAddr, Connection)>, i: int)
    requires
        addrs_differ(connections),
        0 <= i < connections.len(),
    ensures
        table(connections.remove(i)) == table(connections).remove(connections[i].0),
        addrs_differ(connections.remove(i)),
    decreases connections.len(),
{
    let addr = connections[i].0;
    let removed = connections.remove(i);
    let last = connections.len() - 1;
    assert forall|p: int, q: int| 0 <= p < q < removed.len() implies (#[trigger] removed[p]).0 != (
    #[trigger] removed[q]).0 by {
        let m = if p < i {
            p
        } else {
            p + 1
        };
        let n = if q < i {
            q
        } else {
            q + 1
        };
        assert(connections[m].0 != connections[n].0);
    }
    if i < last {
        lemma_table_remove(connections.drop_last(), i);
        assert(removed.drop_last() =~= connections.drop_last().remove(i));
        assert(removed.last() == connections.last());
        assert(connections[i].0 != connections[last].0);
        assert(table(removed) =~= table(connections).remove(addr));
    } else {
        assert(removed =~= connections.drop_last());
        assert forall|k: int| 0 <= k < removed.len() implies (#[trigger] removed[k]).0 != addr by {
            assert(connections[k].0 != connections[last].0);
        }
        lemma_table_lacks(removed, addr);
        assert(table(removed) =~= table(connections).remove(addr));
    }
}

/// Connections after the one to a socket was chosen again.
pub open spec fn used(connections: Map<SocketAddr, Connection>, dest: SocketAddr) -> Map<
    SocketAddr,
    Connection,
> {
    connections.insert(dest, Connection { in_use: true, ..connections[dest] })
}

/// Connections after a look at the one to a socket: it stays, as not in use,
/// only if it was in use.
pub open spec fn looked_at(connections: Map<SocketAddr, Connection>, dest: SocketAddr) -> Map<
    SocketAddr,
    Connection,
> {
    if connections[dest].in_use {
        connections.insert(dest, Connection { in_use: false, ..connections[dest] })
    } else {
        connections.remove(dest)
    }
}

impl View for TcpControl {
    type V = Map<SocketAddr, Connection>;

    open spec fn view(&self) -> Map<SocketAddr, Connection> {
        table(self.connections@)
    }
}

impl TcpControl {
    pub open spec fn wf(&self) -> bool {
        addrs_differ(self.connections@)
    }

    pub fn new() -> (r: Self)
        ensures
            r.wf(),
            r@ == Map::<SocketAddr, Connection>::empty(),
    {
        TcpControl { connections: Vec::new() }
    }

    fn find(&self, addr: SocketAddr) -> (r: Option<usize>)
        requires
            self.wf(),
        ensures
            match r {
                Some(i) => {
                    &&& i < self.connections@.len()
                    &&& self.connections@[i as int].0 == addr
                    &&& self@.contains_key(addr)
                    &&& self@[addr] == self.connections@[i as int].1
                },
                None => !self@.contains_key(addr),
            },
    {
        let mut i: usize = 0;
        while i < self.connections.len()
            invariant
                i <= self.connections@.len(),
                self.wf(),
                forall|j: int| 0 <= j < i ==> (#[trigger] self.connections@[j]).0 != addr,
            decreases self.connections@.len() - i,
        {
            if self.connections[i].0 == addr {
                proof {
                    lemma_table_at(self.connections@, i as int);
                }
                return Some(i);
            }
            i += 1;
        }
        proof {
            lemma_table_lacks(self.connections@, addr);
        }
        None
    }

    fn put(&mut self, addr: SocketAddr, connection: Connection)
        requires
            old(self).wf(),
        ensures
            final(self).wf(),
            final(self)@ == old(self)@.insert(addr, connection),
    {
        match self.find(addr) {
            Some(i) => {
                proof {
                    lemma_table_update(self.connections@, i as int, connection);
                }
                self.connections.set(i, (addr, connection));
            },
            None => {
                let ghost before = self.connections@;
                self.connections.push((addr, connection));
                assert(self.connections@.drop_last() =~= before);
                assert forall|p: int, q: int| 0 <= p < q < self.connections@.len() implies (
                #[trigger] self.connections@[p]).0 != (#[trigger] self.connections@[q]).0 by {
                    assert(before[p] == self.connections@[p]);
                    lemma_table_at(before, p);
                    if q < before.len() {
                        assert(before[q] == self.connections@[q]);
                    }
                }
            },
        }
    }

    /// Sets whether a connection is in use.
    fn mark(&mut self, i: usize, in_use: bool)
        requires
            old(self).wf(),
            i < old(self).connections@.len(),
        ensures
            final(self).wf(),
            ({
                let (addr, connection) = old(self).connections@[i as int];
                let marked = Connection { in_use, ..connection };
                &&& final(self).connections@ == old(self).connections@.update(
                    i as int,
                    (addr, marked),
                )
                &&& final(self)@ == old(self)@.insert(addr, marked)
            }),
    {
        proof {
            let connection = self.connections@[i as int].1;
            lemma_table_update(self.connections@, i as int, Connection { in_use, ..connection });
        }
        self.connections[i].1.in_use = in_use;
        assert(self.connections@ =~= old(self).connections@.update(
            i as int,
            (
                old(self).connections@[i as int].0,
                Connection { in_use, ..old(self).connections@[i as int].1 },
            ),
        ));
    }

    /// Whether a message led from one table to another by way of a new
    /// connection: it is the first in its queue, and the connection is kept with
    /// a timer of its own.
    pub open spec fn connects<T: Timer<CheckIdleConnection>>(
        before: Map<SocketAddr, Connection>,
        timer_before: T,
        dest: SocketAddr,
        buf: Vec<u8>,
        sender: EventSender<Vec<u8>>,
        r: Result<(), Error>,
        after: Map<SocketAddr, Connection>,
        timer_after: T,
    ) -> bool {
        let kept = if before.contains_key(dest) {
            used(before, dest)
        } else {
            before
        };
        ||| {
            &&& is_send_outcome(sender.0, buf, Err(buf))
            &&& r == Err::<(), Error>(Error::ConnectionClosed)
            &&& after == kept
            &&& timer_after == timer_before
        }
        ||| {
            &&& is_send_outcome(sender.0, buf, Ok(()))
            &&& exists|set: Result<u32, Error>| #[trigger]
                T::armed(timer_before, IDLE_SECS, CheckIdleConnection(dest), timer_after, set)
                    && match set {
                    Ok(timer) => r == Ok::<(), Error>(()) && after == before.insert(
                        dest,
                        Connection { sender, in_use: false, timer },
                    ),
                    Err(e) => r == Err::<(), Error>(e) && after == kept,
                }
        }
    }

    /// Whether a message led from one table to another by way of a new
    /// connection whose queue is read at `source`.
    pub open spec fn opens<T: Timer<CheckIdleConnection>>(
        before: Map<SocketAddr, Connection>,
        timer_before: T,
        dest: SocketAddr,
        buf: Vec<u8>,
        source: EventSource<Vec<u8>>,
        r: Result<(), Error>,
        after: Map<SocketAddr, Connection>,
        timer_after: T,
    ) -> bool {
        exists|sender: EventSender<Vec<u8>>| #[trigger]
            is_channel(sender.0, source.0) && Self::connects(
                before,
                timer_before,
                dest,
                buf,
                sender,
                r,
                after,
                timer_after,
            )
    }

    /// Sends a message to a socket: over the connection that is kept for it, or
    /// over a new one if there is none or its task has ended. What queues the
    /// messages of a new connection is returned, to be written to it.
    pub fn on_event<T: Timer<CheckIdleConnection>>(
        &mut self,
        dest: SocketAddr,
        buf: Vec<u8>,
        timer: &mut T,
    ) -> (r: (Option<EventSource<Vec<u8>>>, Result<(), Error>))
        requires
            old(self).wf(),
        ensures
            final(self).wf(),
            if buf@.len() >= MAX_TCP_BUF_LEN {
                &&& r.0 is None
                &&& r.1 == Err::<(), Error>(Error::TooLarge(buf.len()))
                &&& final(self)@ == old(self)@
                &&& *final(timer) == *old(timer)
            } else {
                match r.0 {
                    None => {
                        &&& old(self)@.contains_key(dest)
                        &&& is_send_outcome(old(self)@[dest].sender.0, buf, Ok(()))
                        &&& r.1 == Ok::<(), Error>(())
                        &&& final(self)@ == used(old(self)@, dest)
                        &&& *final(timer) == *old(timer)
                    },
                    Some(source) => {
                        &&& old(self)@.contains_key(dest) ==> is_send_outcome(
                            old(self)@[dest].sender.0,
                            buf,
                            Err(buf),
                        )
                        &&& Self::opens(
                            old(self)@,
                            *old(timer),
                            dest,
                            buf,
                            source,
                            r.1,
                            final(self)@,
                            *final(timer),
                        )
                    },
                }
            },
    {
        let len: usize = buf.len();
        if len >= MAX_TCP_BUF_LEN {
            return (None, Err(Error::TooLarge(len)));
        }
        let ghost given = buf;
        let buf = match self.find(dest) {
            Some(i) => {
                self.mark(i, true);
                proof {
                    lemma_table_at(old(self).connections@, i as int);
                }
                match self.connections[i].1.sender.hand_over(buf) {
                    Ok(unit) => {
                        assert(unit == ());
                        return (None, Ok(()));
                    },
                    Err(buf) => {
                        assert(is_send_outcome(old(self)@[dest].sender.0, given, Err(given)));
                        buf
                    },
                }
            },
            None => buf,
        };
        let (sender, source) = event_channel();
        let ghost fresh = sender;
        let ghost kept = self@;
        assert(buf == given);
        assert(is_channel(fresh.0, source.0));
        assert(old(self)@.contains_key(dest) ==> kept == used(old(self)@, dest));
        match sender.hand_over(buf) {
            Ok(unit) => {
                assert(unit == ());
            },
            Err(returned) => {
                assert(Self::connects(
                    old(self)@,
                    *old(timer),
                    dest,
                    given,
                    fresh,
                    Err(Error::ConnectionClosed),
                    kept,
                    *timer,
                ));
                return (Some(source), Err(Error::ConnectionClosed));
            },
        }
        let set = timer.set(IDLE_SECS, CheckIdleConnection(dest));
        let ghost after = *timer;
        assert(T::armed(*old(timer), IDLE_SECS, CheckIdleConnection(dest), after, set));
        match set {
            Ok(id) => {
                self.put(dest, Connection { sender, in_use: false, timer: id });
                assert(self@ =~= old(self)@.insert(
                    dest,
                    Connection { sender: fresh, in_use: false, timer: id },
                ));
                assert(Self::connects(
                    old(self)@,
                    *old(timer),
                    dest,
                    given,
                    fresh,
                    Ok(()),
                    self@,
                    after,
                ));
                (Some(source), Ok(()))
            },
            Err(e) => {
                assert(Self::connects(
                    old(self)@,
                    *old(timer),
                    dest,
                    given,
                    fresh,
                    Err(e),
                    kept,
                    after,
                ));
                (Some(source), Err(e))
            },
        }
    }

    /// Looks at a connection. It is dropped, and its timer is unset, if it was
    /// not used since the last look.
    pub fn on_check_idle<T: Timer<CheckIdleConnection>>(
        &mut self,
        dest: SocketAddr,
        timer: &mut T,
    ) -> (r: Result<(), Error>)
        requires
            old(self).wf(),
        ensures
            final(self).wf(),
            if !old(self)@.contains_key(dest) {
                &&& r == Err::<(), Error>(Error::ConnectionMissing)
                &&& final(self)@ == old(self)@
                &&& *final(timer) == *old(timer)
            } else {
                &&& final(self)@ == looked_at(old(self)@, dest)
                &&& if old(self)@[dest].in_use {
                    r == Ok::<(), Error>(()) && *final(timer) == *old(timer)
                } else {
                    T::disarmed(*old(timer), old(self)@[dest].timer, *final(timer), r)
                }
            },
    {
        match self.find(dest) {
            Some(i) => {
                if self.connections[i].1.in_use {
                    self.mark(i, false);
                    Ok(())
                } else {
                    proof {
                        lemma_table_remove(self.connections@, i as int);
                    }
                    let (_, connection) = self.connections.remove(i);
                    timer.unset(connection.timer)
                }
            },
            None => Err(Error::ConnectionMissing),
        }
    }
}

/// What can happen to a table between two looks at a connection.
pub ghost enum TableEvent {
    Used(SocketAddr),
    Connected(SocketAddr, Connection),
    LookedAt(SocketAddr),
}

impl TableEvent {
    /// The socket whose connection it is about.
    pub open spec fn dest(self) -> SocketAddr {
        match self {
            TableEvent::Used(dest) => dest,
            TableEvent::Connected(dest, _) => dest,
            TableEvent::LookedAt(dest) => dest,
        }
    }
}

/// A table after one thing has happened to it.
pub open spec fn after_event(
    connections: Map<SocketAddr, Connection>,
    event: TableEvent,
) -> Map<SocketAddr, Connection> {
    match event {
        TableEvent::Used(dest) => used(connections, dest),
        TableEvent::Connected(dest, connection) => connections.insert(dest, connection),
        TableEvent::LookedAt(dest) => looked_at(connections, dest),
    }
}

/// A table after one thing after the other has happened to it.
pub open spec fn after_events(
    connections: Map<SocketAddr, Connection>,
    events: Seq<TableEvent>,
) -> Map<SocketAddr, Connection>
    decreases events.len(),
{
    if events.len() == 0 {
        connections
    } else {
        after_event(after_events(connections, events.drop_last()), events.last())
    }
}

/// What happens to the connections of other sockets leaves a connection alone.
pub proof fn law_connections_are_independent(
    connections: Map<SocketAddr, Connection>,
    dest: SocketAddr,
    events: Seq<TableEvent>,
)
    requires
        forall|i: int| 0 <= i < events.len() ==> (#[trigger] events[i]).dest() != dest,
    ensures
        after_events(connections, events).contains_key(dest) <==> connections.contains_key(dest),
        after_events(connections, events)[dest] == connections[dest],
    decreases events.len(),
{
    if events.len() > 0 {
        assert(events.last() == events[events.len() - 1]);
        assert forall|i: int| 0 <= i < events.drop_last().len() implies (
        #[trigger] events.drop_last()[i]).dest() != dest by {
            assert(events.drop_last()[i] == events[i]);
        }
        law_connections_are_independent(connections, dest, events.drop_last());
    }
}

/// A connection with no traffic between two looks is gone after the second at
/// the latest, whatever happens to others in between.
pub proof fn law_idle_connection_is_dropped(
    connections: Map<SocketAddr, Connection>,
    dest: SocketAddr,
    between: Seq<TableEvent>,
)
    requires
        forall|i: int| 0 <= i < between.len() ==> (#[trigger] between[i]).dest() != dest,
    ensures
        ({
            let first = after_events(looked_at(connections, dest), between);
            !first.contains_key(dest) || !looked_at(first, dest).contains_key(dest)
        }),
{
    law_connections_are_independent(looked_at(connections, dest), dest, between);
}

/// A connection that is used before a look is kept by it.
pub proof fn law_used_connection_is_kept(
    connections: Map<SocketAddr, Connection>,
    dest: SocketAddr,
    between: Seq<TableEvent>,
)
    requires
        forall|i: int| 0 <= i < between.len() ==> (#[trigger] between[i]).dest() != dest,
    ensures
        looked_at(after_events(used(connections, dest), between), dest).contains_key(dest),
{
    law_connections_are_independent(used(connections, dest), dest, between);
}

/// The frame of a message: its length in eight bytes, most significant first,
/// then the message.
pub open spec fn frame(message: Seq<u8>) -> Seq<u8> {
    be_bytes(message.len(), 8) + message
}

/// Puts a message in its frame.
pub fn to_frame(message: &Vec<u8>) -> (r: Vec<u8>)
    ensures
        r@ == frame(message@),
{
    let mut out: Vec<u8> = Vec::new();
    put_be(&mut out, message.len() as u128, 8);
    put_bytes(&mut out, message.as_slice());
    assert(out@ =~= frame(message@));
    out
}

/// The length of the message that follows a header, unless it is too large: then
/// the connection is to be closed.
pub fn frame_len(header: &[u8]) -> (r: Option<usize>)
    requires
        header@.len() == 8,
    ensures
        match r {
            Some(len) => len < MAX_TCP_BUF_LEN && len == big_endian(
                header@,
            ),
            None => big_endian(header@) >= MAX_TCP_BUF_LEN,
        },
{
    let len: u128 = read_be(header);
    if len >= 1048576 {
        None
    } else {
        Some(len as usize)
    }
}

/// A frame is read as the message that was put in it: its header gives the
/// length, and that many bytes after it are the message.
pub proof fn law_frame_round_trip(message: Seq<u8>, rest: Seq<u8>)
    requires
        message.len() < MAX_TCP_BUF_LEN,
    ensures
        ({
            let stream = frame(message) + rest;
            &&& big_endian(stream.take(8)) == message.len()
            &&& stream.subrange(8, 8 + message.len() as int) == message
            &&& stream.skip(8 + message.len() as int) == rest
        }),
{
    lemma_be_bytes(message.len(), 8);
    reveal_with_fuel(pow256, 9);
    let header = be_bytes(message.len(), 8);
    let stream = frame(message) + rest;
    assert(header.len() == 8);
    assert(stream.take(8) =~= header);
    assert(stream.subrange(8, 8 + message.len() as int) =~= message);
    assert(stream.skip(8 + message.len() as int) =~= rest);
}

/// A connection over a stream: who is at the other end, what takes in messages,
/// what is told when it ends, and the messages that wait to be written.
#[derive(Debug)]
pub struct GeneralConnection<S, D, T> {
    pub stream: T,
    pub remote_addr: SocketAddr,
    pub state: S,
    pub disconnected: D,
    pub egress: (EventSender<Vec<u8>>, EventSource<Vec<u8>>),
}

/// What messages are handed to that are to be written to a connection.
#[derive(Debug)]
pub struct ConnectionOut(pub EventSender<Vec<u8>>);

impl ConnectionOut {
    /// Hands a message over. It is lost if the connection has ended.
    pub fn update(&self, message: Vec<u8>)
        ensures
            exists|outcome: Result<(), Vec<u8>>| #[trigger]
                is_send_outcome(self.0.0, message, outcome),
    {
        let _ = self.0.send(message);
    }
}

impl<S, D, T> GeneralConnection<S, D, T> {
    pub fn new(stream: T, remote_addr: SocketAddr, state: S, disconnected: D) -> (r: Self)
        ensures
            r.stream == stream,
            r.remote_addr == remote_addr,
            r.state == state,
            r.disconnected == disconnected,
            is_channel(r.egress.0.0, r.egress.1.0),
    {
        GeneralConnection { stream, remote_addr, state, disconnected, egress: event_channel() }
    }

    /// The same connection over another stream, and the stream that it had.
    pub fn replace_stream<U>(self, stream: U) -> (r: (GeneralConnection<S, D, U>, T))
        ensures
            r.0.stream == stream,
            r.0.remote_addr == self.remote_addr,
            r.0.state == self.state,
            r.0.disconnected == self.disconnected,
            r.0.egress == self.egress,
            r.1 == self.stream,
    {
        (
            GeneralConnection {
                stream,
                remote_addr: self.remote_addr,
                state: self.state,
                disconnected: self.disconnected,
                egress: self.egress,
            },
            self.stream,
        )
    }

    /// Another sender of the messages that wait to be written.
    pub fn out_state(&self) -> (r: ConnectionOut)
        ensures
            is_sender_clone(self.egress.0.0, r.0.0),
    {
        ConnectionOut(self.egress.0.clone())
    }
}

/// The largest message of a buffered stream.
pub const STREAM_BUF_LEN: usize = 65536;

/// The short frame of a message on a buffered stream: its length in four bytes,
/// most significant first, then the message.
pub open spec fn short_frame(message: Seq<u8>) -> Seq<u8> {
    be_bytes(message.len(), 4) + message
}

/// Puts a message in its short frame.
pub fn to_short_frame(message: &Vec<u8>) -> (r: Vec<u8>)
    requires
        message@.len() <= u32::MAX,
    ensures
        r@ == short_frame(message@),
{
    let mut out: Vec<u8> = Vec::new();
    put_be(&mut out, message.len() as u128, 4);
    put_bytes(&mut out, message.as_slice());
    assert(out@ =~= short_frame(message@));
    out
}

/// The length of the message that follows a short header, if the buffer of the
/// stream can hold it.
pub fn short_frame_len(header: &[u8]) -> (r: Option<usize>)
    requires
        header@.len() == 4,
    ensures
        match r {
            Some(len) => len <= STREAM_BUF_LEN && len == big_endian(
                header@,
            ),
            None => big_endian(header@) > STREAM_BUF_LEN,
        },
{
    let len: u128 = read_be(header);
    if len > 65536 {
        None
    } else {
        Some(len as usize)
    }
}

/// A short frame is read as the message that was put in it.
pub proof fn law_short_frame_round_trip(message: Seq<u8>, rest: Seq<u8>)
    requires
        message.len() <= STREAM_BUF_LEN,
    ensures
        ({
            let stream = short_frame(message) + rest;
            &&& big_endian(stream.take(4)) == message.len()
            &&& stream.subrange(4, 4 + message.len() as int) == message
            &&& stream.skip(4 + message.len() as int) == rest
        }),
{
    lemma_be_bytes(message.len(), 4);
    reveal_with_fuel(pow256, 5);
    let header = be_bytes(message.len(), 4);
    let stream = short_frame(message) + rest;
    assert(header.len() == 4);
    assert(stream.take(4) =~= header);
    assert(stream.subrange(4, 4 + message.len() as int) =~= message);
    assert(stream.skip(4 + message.len() as int) =~= rest);
}

} // verus!
