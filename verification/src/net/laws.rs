//! What holds of nets: who gets a message, which connections are kept, and how
//! frames are read.

use vstd::prelude::*;

use crate::addr::SocketAddr;
use crate::error::Error;
use crate::model::{is_channel, is_send_outcome, sent_outcome, EventSource};
use crate::net::tcp::{
    addrs_differ, frame_len, short_frame_len, table, to_frame, to_short_frame, CheckIdleConnection,
    Connection, TcpControl,
};
use crate::net::{
    all_others, refused_at, taken_each, All, IndexNet, IterAddr, SendEvent, SendMessage,
    SendMessageToEach, Tcp, Timer,
};
use crate::wire::{be_bytes, big_endian};

verus! {

/// A broadcast over a table of addresses goes to all of them in their order but the
/// one at the local index, and to just all where there is none.
pub proof fn law_broadcast_goes_to_all_others<A>(addrs: Seq<A>, local_index: Option<usize>)
    ensures
        match local_index {
            Some(i) => all_others(addrs, local_index) == if i < addrs.len() {
                addrs.take(i as int) + addrs.skip(i + 1)
            } else {
                addrs
            },
            None => all_others(addrs, local_index) == addrs,
        },
{
    if let Some(i) = local_index {
        if i < addrs.len() {
            assert(all_others(addrs, local_index) =~= addrs.take(i as int) + addrs.skip(i + 1));
        }
    }
}

/// A message for an index goes to the address there, and is refused where there is
/// none.
pub proof fn law_index_finds_its_address<N: SendMessage<A, M>, A: Clone, M>(
    before: IndexNet<N, A>,
    dest: u8,
    message: M,
    after: IndexNet<N, A>,
    r: Result<(), Error>,
)
    requires
        <IndexNet<N, A> as SendMessage<u8, M>>::sent(before, dest, message, after, r),
    ensures
        after.addrs == before.addrs,
        after.local_index == before.local_index,
        dest < before.addrs@.len() ==> exists|addr: A| #[trigger]
            cloned(before.addrs@[dest as int], addr) && N::sent(
                before.inner_net,
                addr,
                message,
                after.inner_net,
                r,
            ),
        dest >= before.addrs@.len() ==> r == Err::<(), Error>(Error::IndexOutOfBound)
            && after.inner_net == before.inner_net,
{
    let index = choose|index: usize| #[trigger]
        call_ensures(<u8 as Into<usize>>::into, (dest,), index) && if index
            < before.addrs@.len() {
            exists|addr: A| #[trigger]
                cloned(before.addrs@[index as int], addr) && N::sent(
                    before.inner_net,
                    addr,
                    message,
                    after.inner_net,
                    r,
                )
        } else {
            r == Err::<(), Error>(Error::IndexOutOfBound) && after.inner_net == before.inner_net
        };
    assert(index == dest as usize);
}

/// A broadcast is one message to all other addresses in turn.
pub proof fn law_broadcast_is_sent_to_each<N: SendMessageToEach<A, M>, A: Clone, M>(
    before: IndexNet<N, A>,
    message: M,
    after: IndexNet<N, A>,
    r: Result<(), Error>,
)
    requires
        <IndexNet<N, A> as SendMessage<All, M>>::sent(before, All, message, after, r),
    ensures
        after.addrs == before.addrs,
        after.local_index == before.local_index,
        exists|list: Vec<A>|
            {
                &&& #[trigger] <N as SendMessage<IterAddr<A>, M>>::sent(
                    before.inner_net,
                    IterAddr(list),
                    message,
                    after.inner_net,
                    r,
                )
                &&& list@.len() == before.addrs@.len() - if before.local_index matches Some(i) && i
                    < before.addrs@.len() {
                    1int
                } else {
                    0int
                }
                &&& forall|k: int|
                    0 <= k < list@.len() ==> cloned(
                        before.addrs@[if before.local_index matches Some(i) && i <= k {
                            k + 1
                        } else {
                            k
                        }],
                        #[trigger] list@[k],
                    )
            },
{
    let others = all_others(before.addrs@, before.local_index);
    let list = choose|list: Vec<A>| #[trigger]
        crate::net::are_clones(list@, others) && <N as SendMessage<IterAddr<A>, M>>::sent(
            before.inner_net,
            IterAddr(list),
            message,
            after.inner_net,
            r,
        );
    assert forall|k: int| 0 <= k < list@.len() implies cloned(
        before.addrs@[if before.local_index matches Some(i) && i <= k {
            k + 1
        } else {
            k
        }],
        #[trigger] list@[k],
    ) by {
        assert(cloned(others[k], list@[k]));
    }
}

/// A message is taken for sockets one after the other, for each of them once: for
/// none nothing happens, for one it is taken for that one, and for those of two
/// lists it is taken for the first and then for the second.
pub proof fn law_message_is_taken_for_each<E: SendEvent<(SocketAddr, B)>, B: Clone>(
    pre: E,
    first: Seq<SocketAddr>,
    middle: E,
    second: Seq<SocketAddr>,
    message: B,
    post: E,
    addr: SocketAddr,
)
    ensures
        taken_each(pre, Seq::<SocketAddr>::empty(), message, post) <==> post == pre,
        taken_each(pre, seq![addr], message, post) <==> exists|copy: B|
            cloned(message, copy) && #[trigger] E::taken(pre, (addr, copy), post, Ok(())),
        taken_each(pre, first, message, middle) && taken_each(middle, second, message, post)
            ==> taken_each(pre, first + second, message, post),
    decreases second.len(),
{
    let one = seq![addr];
    let none = Seq::<SocketAddr>::empty();
    assert(one.drop_last() =~= none);
    assert(one.last() == addr);
    assert(forall|m: E| #[trigger] taken_each(pre, none, message, m) <==> m == pre);
    if taken_each(pre, one, message, post) {
        let (m, copy) = choose|m: E, copy: B|
            {
                &&& taken_each(pre, one.drop_last(), message, m)
                &&& cloned(message, copy)
                &&& #[trigger] E::taken(m, (one.last(), copy), post, Ok(()))
            };
        assert(m == pre);
        assert(E::taken(pre, (addr, copy), post, Ok(())));
    }
    if exists|copy: B| cloned(message, copy) && #[trigger] E::taken(pre, (addr, copy), post, Ok(())) {
        let copy = choose|copy: B|
            cloned(message, copy) && #[trigger] E::taken(pre, (addr, copy), post, Ok(()));
        assert(taken_each(pre, one.drop_last(), message, pre));
        assert(E::taken(pre, (one.last(), copy), post, Ok(())));
    }
    if taken_each(pre, first, message, middle) && taken_each(middle, second, message, post) {
        let both = first + second;
        if second.len() == 0 {
            assert(both =~= first);
        } else {
            let (m, copy) = choose|m: E, copy: B|
                {
                    &&& taken_each(middle, second.drop_last(), message, m)
                    &&& cloned(message, copy)
                    &&& #[trigger] E::taken(m, (second.last(), copy), post, Ok(()))
                };
            law_message_is_taken_for_each(
                pre,
                first,
                middle,
                second.drop_last(),
                message,
                m,
                addr,
            );
            assert(both.drop_last() =~= first + second.drop_last());
            assert(E::taken(m, (both.last(), copy), post, Ok(())));
        }
    }
}

/// A table of connections has just the sockets in it, each with its connection.
pub proof fn law_table_holds_its_connections(
    connections: Seq<(SocketAddr, Connection)>,
    addr: SocketAddr,
)
    requires
        addrs_differ(connections),
    ensures
        table(connections).contains_key(addr) <==> exists|i: int|
            0 <= i < connections.len() && (#[trigger] connections[i]).0 == addr,
        forall|i: int|
            0 <= i < connections.len() && (#[trigger] connections[i]).0 == addr
                ==> table(connections)[addr] == connections[i].1,
    decreases connections.len(),
{
    if connections.len() > 0 {
        let shorter = connections.drop_last();
        let last = connections.len() - 1;
        assert forall|i: int, j: int| 0 <= i < j < shorter.len() implies (#[trigger] shorter[i]).0
            != (#[trigger] shorter[j]).0 by {
            assert(connections[i].0 != connections[j].0);
        }
        law_table_holds_its_connections(shorter, addr);
        assert forall|i: int| 0 <= i < shorter.len() implies #[trigger] shorter[i]
            == connections[i] by {}
        if exists|i: int| 0 <= i < connections.len() && (#[trigger] connections[i]).0 == addr {
            let i = choose|i: int| 0 <= i < connections.len() && (#[trigger] connections[i]).0 == addr;
            if i < last {
                assert(shorter[i].0 == addr);
            }
        }
        if table(connections).contains_key(addr) && connections[last].0 != addr {
            let i = choose|i: int| 0 <= i < shorter.len() && (#[trigger] shorter[i]).0 == addr;
            assert(connections[i].0 == addr);
        }
        assert forall|i: int|
            0 <= i < connections.len() && (#[trigger] connections[i]).0 == addr implies table(
            connections,
        )[addr] == connections[i].1 by {
            if i < last {
                assert(connections[i].0 != connections[last].0);
                assert(shorter[i].0 == addr);
            }
        }
    }
}

/// Whether the connection to a socket is as it was.
pub open spec fn same_connection(
    before: Map<SocketAddr, Connection>,
    after: Map<SocketAddr, Connection>,
    dest: SocketAddr,
) -> bool {
    (after.contains_key(dest) <==> before.contains_key(dest)) && (before.contains_key(dest)
        ==> after[dest] == before[dest])
}

/// A look at a connection drops it and unsets its timer just if it was not used
/// since the last look, and makes it count as unused. Other connections stay. A
/// look at a connection that is not there is an error.
pub proof fn law_only_idle_connections_are_dropped<T: Timer<CheckIdleConnection>>(
    control: &mut TcpControl,
    dest: SocketAddr,
    timer: &mut T,
    r: Result<(), Error>,
    other: SocketAddr,
)
    requires
        call_ensures(TcpControl::on_check_idle::<T>, (control, dest, timer), r),
    ensures
        other != dest ==> same_connection(old(control)@, final(control)@, other),
        !old(control)@.contains_key(dest) ==> {
            &&& r == Err::<(), Error>(Error::ConnectionMissing)
            &&& !final(control)@.contains_key(dest)
            &&& *final(timer) == *old(timer)
        },
        old(control)@.contains_key(dest) && old(control)@[dest].in_use ==> {
            &&& r is Ok
            &&& final(control)@.contains_key(dest)
            &&& !final(control)@[dest].in_use
            &&& final(control)@[dest].sender == old(control)@[dest].sender
            &&& final(control)@[dest].timer == old(control)@[dest].timer
            &&& *final(timer) == *old(timer)
        },
        old(control)@.contains_key(dest) && !old(control)@[dest].in_use ==> {
            &&& !final(control)@.contains_key(dest)
            &&& T::disarmed(*old(timer), old(control)@[dest].timer, *final(timer), r)
        },
{
}

/// A message of a mebibyte or more is refused and nothing else happens. Any other
/// one goes over the connection that is kept, which counts as used then, or becomes
/// the first of a new connection, with a timer of its own, if there is none or it
/// has ended. Other connections stay.
pub proof fn law_message_goes_over_a_connection<T: Timer<CheckIdleConnection>>(
    control: &mut TcpControl,
    dest: SocketAddr,
    buf: Vec<u8>,
    timer: &mut T,
    r: (Option<EventSource<Vec<u8>>>, Result<(), Error>),
    other: SocketAddr,
)
    requires
        call_ensures(TcpControl::on_event::<T>, (control, dest, buf, timer), r),
    ensures
        other != dest ==> same_connection(old(control)@, final(control)@, other),
        buf@.len() >= 1048576 ==> {
            &&& r.0 is None
            &&& r.1 is Err
            &&& same_connection(old(control)@, final(control)@, dest)
            &&& *final(timer) == *old(timer)
        },
        buf@.len() < 1048576 && r.0 is None ==> {
            &&& r.1 is Ok
            &&& old(control)@.contains_key(dest)
            &&& is_send_outcome(old(control)@[dest].sender.0, buf, Ok(()))
            &&& final(control)@.contains_key(dest)
            &&& final(control)@[dest].in_use
            &&& final(control)@[dest].sender == old(control)@[dest].sender
            &&& final(control)@[dest].timer == old(control)@[dest].timer
            &&& *final(timer) == *old(timer)
        },
        r.0 matches Some(source) ==> {
            &&& buf@.len() < 1048576
            &&& old(control)@.contains_key(dest) ==> is_send_outcome(
                old(control)@[dest].sender.0,
                buf,
                Err(buf),
            )
            &&& r.1 is Ok ==> {
                &&& final(control)@.contains_key(dest)
                &&& is_channel(final(control)@[dest].sender.0, source.0)
                &&& is_send_outcome(final(control)@[dest].sender.0, buf, Ok(()))
                &&& !final(control)@[dest].in_use
                &&& T::armed(
                    *old(timer),
                    10,
                    CheckIdleConnection(dest),
                    *final(timer),
                    Ok(final(control)@[dest].timer),
                )
            }
            &&& r.1 is Err && !old(control)@.contains_key(dest) ==> !final(control)@.contains_key(dest)
        },
{
}

/// A frame is the length of the message in eight bytes, the most significant one
/// first, and then the message.
pub proof fn law_frame_starts_with_the_length(message: &Vec<u8>, r: Vec<u8>)
    requires
        call_ensures(to_frame, (message,), r),
        message@.len() < 1048576,
    ensures
        r@.len() == 8 + message@.len(),
        r@.skip(8) == message@,
        forall|k: int| 0 <= k < 5 ==> #[trigger] r@[k] == 0,
        r@[5] == message@.len() / 65536,
        r@[6] == (message@.len() / 256) % 256,
        r@[7] == message@.len() % 256,
{
    let n = message@.len();
    reveal_with_fuel(be_bytes, 9);
    let header = be_bytes(n, 8);
    assert(header.len() == 8);
    assert(r@.skip(8) =~= message@);
    assert(n / 256 / 256 == n / 65536);
    assert(n / 65536 < 16);
    assert(n / 256 / 256 / 256 == 0);
    assert(header[7] == n % 256);
    assert(header[6] == (n / 256) % 256);
    assert(header[5] == (n / 256 / 256) % 256);
    assert(header[4] == 0 && header[3] == 0 && header[2] == 0 && header[1] == 0 && header[0] == 0);
    assert forall|k: int| 0 <= k < 5 implies #[trigger] r@[k] == 0 by {
        assert(r@[k] == header[k]);
    }
}

/// A header of eight bytes is read as the length that they say, unless that is a
/// mebibyte or more.
pub proof fn law_frame_length_is_read(header: &[u8], r: Option<usize>)
    requires
        header@.len() == 8,
        call_ensures(frame_len, (header,), r),
    ensures
        ({
            let h = header@;
            let low = h[5] * 65536 + h[6] * 256 + h[7];
            if h[0] == 0 && h[1] == 0 && h[2] == 0 && h[3] == 0 && h[4] == 0 && low < 1048576 {
                r == Some(low as usize)
            } else {
                r is None
            }
        }),
{
    let h = header@;
    reveal_with_fuel(big_endian, 9);
    let low = h[5] * 65536 + h[6] * 256 + h[7];
    assert(big_endian(h) == ((((((h[0] * 256 + h[1]) * 256 + h[2]) * 256 + h[3]) * 256 + h[4])
        * 256 + h[5]) * 256 + h[6]) * 256 + h[7]);
}

/// A short frame is the length of the message in four bytes, the most significant
/// one first, and then the message. Its header is read as that length where the
/// buffer of a stream can hold it.
pub proof fn law_short_frame_is_read(
    message: &Vec<u8>,
    frame: Vec<u8>,
    header: &[u8],
    r: Option<usize>,
)
    requires
        message@.len() <= u32::MAX,
        call_ensures(to_short_frame, (message,), frame),
        header@ == frame@.take(4),
        call_ensures(short_frame_len, (header,), r),
    ensures
        frame@.len() == 4 + message@.len(),
        frame@.skip(4) == message@,
        frame@[3] == message@.len() % 256,
        frame@[2] == (message@.len() / 256) % 256,
        message@.len() <= 65536 ==> r == Some(message@.len() as usize),
        message@.len() > 65536 ==> r is None,
{
    let n = message@.len();
    crate::wire::lemma_be_bytes(n, 4);
    reveal_with_fuel(crate::wire::pow256, 5);
    reveal_with_fuel(be_bytes, 5);
    let bytes = be_bytes(n, 4);
    assert(bytes.len() == 4);
    assert(frame@.take(4) =~= bytes);
    assert(frame@.skip(4) =~= message@);
    assert(bytes[3] == n % 256);
    assert(bytes[2] == (n / 256) % 256);
}

/// A message is refused at a socket just when it was taken for all before it and not
/// for that one.
pub proof fn law_message_is_refused_at_one<E: SendEvent<(SocketAddr, B)>, B: Clone>(
    pre: E,
    first: Seq<SocketAddr>,
    middle: E,
    rest: Seq<SocketAddr>,
    message: B,
    post: E,
    e: Error,
    i: int,
)
    requires
        0 <= i < rest.len(),
    ensures
        refused_at(pre, rest, message, post, e, 0) <==> exists|copy: B|
            cloned(message, copy) && #[trigger] E::taken(pre, (rest[0], copy), post, Err(e)),
        taken_each(pre, first, message, middle) && refused_at(middle, rest, message, post, e, i)
            ==> refused_at(pre, first + rest, message, post, e, first.len() + i),
{
    let none = Seq::<SocketAddr>::empty();
    assert(rest.take(0) =~= none);
    assert(forall|m: E| #[trigger] taken_each(pre, none, message, m) <==> m == pre);
    if refused_at(pre, rest, message, post, e, 0) {
        let (m, copy) = choose|m: E, copy: B|
            {
                &&& taken_each(pre, rest.take(0), message, m)
                &&& cloned(message, copy)
                &&& #[trigger] E::taken(m, (rest[0], copy), post, Err(e))
            };
        assert(m == pre);
        assert(E::taken(pre, (rest[0], copy), post, Err(e)));
    }
    if exists|copy: B|
        cloned(message, copy) && #[trigger] E::taken(pre, (rest[0], copy), post, Err(e)) {
        let copy = choose|copy: B|
            cloned(message, copy) && #[trigger] E::taken(pre, (rest[0], copy), post, Err(e));
        assert(taken_each(pre, rest.take(0), message, pre));
        assert(refused_at(pre, rest, message, post, e, 0));
    }
    if taken_each(pre, first, message, middle) && refused_at(middle, rest, message, post, e, i) {
        let (m, copy) = choose|m: E, copy: B|
            {
                &&& taken_each(middle, rest.take(i), message, m)
                &&& cloned(message, copy)
                &&& #[trigger] E::taken(m, (rest[i], copy), post, Err(e))
            };
        law_message_is_taken_for_each(pre, first, middle, rest.take(i), message, m, rest[i]);
        let all = first + rest;
        assert(all.take(first.len() + i) =~= first + rest.take(i));
        assert(all[first.len() + i] == rest[i]);
        assert(E::taken(m, (all[first.len() + i], copy), post, Err(e)));
    }
}

/// A message that one of several sockets does not take goes to no socket behind it,
/// and it is a success just when all took it.
pub proof fn law_sockets_are_served_in_turn<E: SendEvent<(SocketAddr, B)>, B: Clone>(
    before: Tcp<E>,
    addrs: Vec<SocketAddr>,
    message: B,
    after: Tcp<E>,
    r: Result<(), Error>,
)
    requires
        <Tcp<E> as SendMessage<IterAddr<SocketAddr>, B>>::sent(
            before,
            IterAddr(addrs),
            message,
            after,
            r,
        ),
    ensures
        r is Ok ==> taken_each(before.0, addrs@, message, after.0),
        r matches Err(e) ==> exists|i: int|
            0 <= i < addrs@.len() && #[trigger] refused_at(
                before.0,
                addrs@,
                message,
                after.0,
                e,
                i,
            ),
{
}

/// An attempt to send is reported as a failure just when what was sent came back.
pub proof fn law_failure_is_reported<M>(
    outcome: Result<(), M>,
    closed: Error,
    r: Result<(), Error>,
)
    requires
        call_ensures(sent_outcome::<M>, (outcome, closed), r),
    ensures
        outcome is Ok ==> r is Ok,
        outcome is Err ==> r == Err::<(), Error>(closed),
{
}

} // verus!
