//! Sending messages to addresses, one shot at a time.
//!
//! A net sends messages of one type to addresses of one type. Nets are stacked:
//! one that takes indexes looks addresses up and hands the message to one that
//! takes those, and one that takes structured messages hands bytes on.

use std::marker::PhantomData;

use vstd::prelude::*;

use crate::addr::SocketAddr;
use crate::error::Error;

pub mod laws;
pub mod tcp;
pub mod udp;

verus! {

/// Something that takes events in.
pub trait SendEvent<M>: Sized {
    /// Whether `pre` can turn into `post` and give `r` when it takes an event.
    /// Unless it is defined otherwise, nothing is promised.
    open spec fn taken(pre: Self, event: M, post: Self, r: Result<(), Error>) -> bool {
        true
    }

    fn send(&mut self, event: M) -> (r: Result<(), Error>)
        ensures
            Self::taken(*old(self), event, *final(self), r),
    ;
}

/// Something that takes events in again and again, some time apart.
pub trait Timer<E>: Sized {
    /// Whether `pre` can turn into `post` and give `r` when a timer is set.
    /// Unless it is defined otherwise, nothing is promised.
    open spec fn armed(pre: Self, secs: u64, event: E, post: Self, r: Result<u32, Error>) -> bool {
        true
    }

    /// Whether `pre` can turn into `post` and give `r` when a timer is unset.
    /// Unless it is defined otherwise, nothing is promised.
    open spec fn disarmed(pre: Self, id: u32, post: Self, r: Result<(), Error>) -> bool {
        true
    }

    fn set(&mut self, secs: u64, event: E) -> (r: Result<u32, Error>)
        ensures
            Self::armed(*old(self), secs, event, *final(self), r),
    ;

    fn unset(&mut self, id: u32) -> (r: Result<(), Error>)
        ensures
            Self::disarmed(*old(self), id, *final(self), r),
    ;
}

/// A net for messages of type `M` and addresses of type `A`.
pub trait SendMessage<A, M>: Sized {
    /// Whether `pre` can turn into `post` and give `r` when it sends a message.
    /// Unless it is defined otherwise, nothing is promised.
    open spec fn sent(pre: Self, dest: A, message: M, post: Self, r: Result<(), Error>) -> bool {
        true
    }

    fn send(&mut self, dest: A, message: M) -> (r: Result<(), Error>)
        ensures
            Self::sent(*old(self), dest, message, *final(self), r),
    ;
}

/// Several addresses that a message goes to.
#[derive(Debug)]
pub struct IterAddr<A>(pub Vec<A>);

/// A net that sends a message to several addresses.
pub trait SendMessageToEach<A, M>: SendMessage<IterAddr<A>, M> {

}

impl<T: SendMessage<IterAddr<A>, M>, A, M> SendMessageToEach<A, M> for T {

}

pub trait SendMessageToEachExt<A, M>: SendMessageToEach<A, M> {
    fn send_to_each(&mut self, addrs: Vec<A>, message: M) -> (r: Result<(), Error>)
        ensures
            <Self as SendMessage<IterAddr<A>, M>>::sent(
                *old(self),
                IterAddr(addrs),
                message,
                *final(self),
                r,
            ),
    ;
}

impl<T: SendMessageToEach<A, M>, A, M> SendMessageToEachExt<A, M> for T {
    fn send_to_each(&mut self, addrs: Vec<A>, message: M) -> (r: Result<(), Error>) {
        self.send(IterAddr(addrs), message)
    }
}

/// A message that came in.
#[derive(Debug)]
pub struct Recv<M>(pub M);

/// An address that is itself what takes the message.
#[derive(Debug, PartialEq, Eq, Hash)]
pub struct SendAddr<E>(pub E);

/// The net that lets each address take its message.
#[derive(Debug)]
pub struct Auto<A>(pub PhantomData<A>);

impl<E: SendEvent<M>, M> SendMessage<SendAddr<E>, M> for Auto<SendAddr<E>> {
    open spec fn sent(
        pre: Self,
        dest: SendAddr<E>,
        message: M,
        post: Self,
        r: Result<(), Error>,
    ) -> bool {
        post == pre && exists|after: E| E::taken(dest.0, message, after, r)
    }

    fn send(&mut self, dest: SendAddr<E>, message: M) -> (r: Result<(), Error>) {
        let mut dest = dest;
        dest.0.send(message)
    }
}

/// A net for structured messages over one for bytes.
#[derive(Debug)]
pub struct MessageNet<T, M>(pub T, pub PhantomData<M>);

impl<T, M> MessageNet<T, M> {
    pub fn new(raw_net: T) -> (r: Self)
        ensures
            r.0 == raw_net,
    {
        MessageNet(raw_net, PhantomData)
    }

    /// Sends a message in its serialized form, or fails as the serialization
    /// did.
    pub fn send_serialized<A>(&mut self, dest: A, serialized: Result<Vec<u8>, Error>) -> (r: Result<
        (),
        Error,
    >) where T: SendMessage<A, Vec<u8>>
        ensures
            match serialized {
                Ok(buf) => T::sent(old(self).0, dest, buf, final(self).0, r),
                Err(e) => r == Err::<(), Error>(e) && final(self).0 == old(self).0,
            },
    {
        match serialized {
            Ok(buf) => self.0.send(dest, buf),
            Err(e) => Err(e),
        }
    }
}

impl<T, M> From<T> for MessageNet<T, M> {
    fn from(value: T) -> (r: Self) {
        MessageNet(value, PhantomData)
    }
}

impl<T, M> vstd::std_specs::convert::FromSpecImpl<T> for MessageNet<T, M> {
    open spec fn obeys_from_spec() -> bool {
        true
    }

    open spec fn from_spec(v: T) -> Self {
        MessageNet(v, PhantomData)
    }
}

impl<T: Clone, M> Clone for MessageNet<T, M> {
    fn clone(&self) -> (r: Self)
        ensures
            cloned(self.0, r.0),
    {
        MessageNet::new(self.0.clone())
    }
}

/// A net for indexes over one for the addresses at them.
#[derive(Debug, Clone)]
pub struct IndexNet<N, A> {
    pub inner_net: N,
    pub addrs: Vec<A>,
    pub local_index: Option<usize>,
}

/// Stands for all addresses but the local one.
#[derive(Debug)]
pub struct All;

/// All addresses but the one at the local index, where there is one.
pub open spec fn all_others<A>(addrs: Seq<A>, local_index: Option<usize>) -> Seq<A> {
    match local_index {
        Some(i) if i < addrs.len() => addrs.remove(i as int),
        _ => addrs,
    }
}

/// Whether addresses are clones of others, in the same order.
pub open spec fn are_clones<A: Clone>(clones: Seq<A>, addrs: Seq<A>) -> bool {
    &&& clones.len() == addrs.len()
    &&& forall|i: int| 0 <= i < addrs.len() ==> cloned(addrs[i], #[trigger] clones[i])
}

impl<N, A> IndexNet<N, A> {
    pub fn new(inner_net: N, addrs: Vec<A>, local_index: Option<usize>) -> (r: Self)
        ensures
            r.inner_net == inner_net,
            r.addrs == addrs,
            r.local_index == local_index,
    {
        IndexNet { inner_net, addrs, local_index }
    }

    /// Whether only the inner net has changed.
    pub open spec fn same_table(self, other: Self) -> bool {
        self.addrs == other.addrs && self.local_index == other.local_index
    }
}

/// Specifies `From::from` of a type for itself, which returns its argument
/// unchanged.
pub assume_specification<Same>[ <Same as core::convert::From<Same>>::from ](value: Same) -> (r:
    Same)
    ensures
        r == value,
;

impl<N: SendMessage<A, M>, A: Clone, M, B: Into<usize>> SendMessage<B, M> for IndexNet<N, A> {
    /// The message goes to the address at the index. Without one, nothing is
    /// sent.
    open spec fn sent(pre: Self, dest: B, message: M, post: Self, r: Result<(), Error>) -> bool {
        &&& post.same_table(pre)
        &&& exists|index: usize| #[trigger]
            call_ensures(B::into, (dest,), index) && if index < pre.addrs@.len() {
                exists|addr: A| #[trigger]
                    cloned(pre.addrs@[index as int], addr) && N::sent(
                        pre.inner_net,
                        addr,
                        message,
                        post.inner_net,
                        r,
                    )
            } else {
                r == Err::<(), Error>(Error::IndexOutOfBound) && post.inner_net == pre.inner_net
            }
    }

    fn send(&mut self, dest: B, message: M) -> (r: Result<(), Error>) {
        let ghost to = dest;
        let index: usize = dest.into();
        assert(call_ensures(B::into, (to,), index));
        if index >= self.addrs.len() {
            return Err(Error::IndexOutOfBound);
        }
        let addr = self.addrs[index].clone();
        assert(cloned(self.addrs@[index as int], addr));
        self.inner_net.send(addr, message)
    }
}

impl<N: SendMessageToEach<A, M>, A: Clone, M> SendMessage<All, M> for IndexNet<N, A> {
    /// The message goes to all addresses but the local one.
    open spec fn sent(pre: Self, dest: All, message: M, post: Self, r: Result<(), Error>) -> bool {
        &&& post.same_table(pre)
        &&& exists|list: Vec<A>| #[trigger]
            are_clones(list@, all_others(pre.addrs@, pre.local_index)) && <N as SendMessage<
                IterAddr<A>,
                M,
            >>::sent(pre.inner_net, IterAddr(list), message, post.inner_net, r)
    }

    fn send(&mut self, dest: All, message: M) -> (r: Result<(), Error>) {
        let mut list: Vec<A> = Vec::new();
        let mut i: usize = 0;
        let ghost others = all_others(self.addrs@, self.local_index);
        while i < self.addrs.len()
            invariant
                i <= self.addrs@.len(),
                *self == *old(self),
                others == all_others(self.addrs@, self.local_index),
                list@.len() == i - if self.local_index is Some && self.local_index.unwrap() < i {
                    1int
                } else {
                    0int
                },
                forall|j: int| 0 <= j < list@.len() ==> cloned(others[j], #[trigger] list@[j]),
            decreases self.addrs@.len() - i,
        {
            let local = match self.local_index {
                Some(local) => local == i,
                None => false,
            };
            if !local {
                let addr = self.addrs[i].clone();
                assert(others[list@.len() as int] == self.addrs@[i as int]);
                list.push(addr);
            }
            i += 1;
        }
        assert(are_clones(list@, others));
        self.inner_net.send_to_each(list, message)
    }
}

/// The net over what works off messages for sockets.
#[derive(Debug)]
pub struct Tcp<E>(pub E);

/// Whether a message was taken for each of several sockets, one after the other.
pub open spec fn taken_each<E: SendEvent<(SocketAddr, B)>, B: Clone>(
    pre: E,
    addrs: Seq<SocketAddr>,
    message: B,
    post: E,
) -> bool
    decreases addrs.len(),
{
    if addrs.len() == 0 {
        post == pre
    } else {
        exists|middle: E, copy: B|
            {
                &&& taken_each(pre, addrs.drop_last(), message, middle)
                &&& cloned(message, copy)
                &&& #[trigger] E::taken(middle, (addrs.last(), copy), post, Ok(()))
            }
    }
}

/// Whether a message was taken for some sockets and refused for the next.
pub open spec fn refused_at<E: SendEvent<(SocketAddr, B)>, B: Clone>(
    pre: E,
    addrs: Seq<SocketAddr>,
    message: B,
    post: E,
    e: Error,
    i: int,
) -> bool {
    exists|middle: E, copy: B|
        {
            &&& taken_each(pre, addrs.take(i), message, middle)
            &&& cloned(message, copy)
            &&& #[trigger] E::taken(middle, (addrs[i], copy), post, Err(e))
        }
}

impl<E: SendEvent<(SocketAddr, B)>, B> SendMessage<SocketAddr, B> for Tcp<E> {
    open spec fn sent(
        pre: Self,
        dest: SocketAddr,
        message: B,
        post: Self,
        r: Result<(), Error>,
    ) -> bool {
        E::taken(pre.0, (dest, message), post.0, r)
    }

    fn send(&mut self, dest: SocketAddr, message: B) -> (r: Result<(), Error>) {
        self.0.send((dest, message))
    }
}

impl<E: SendEvent<(SocketAddr, B)>, B: Clone> SendMessage<IterAddr<SocketAddr>, B> for Tcp<E> {
    /// The message goes to each address in turn, up to the first refusal.
    open spec fn sent(
        pre: Self,
        dest: IterAddr<SocketAddr>,
        message: B,
        post: Self,
        r: Result<(), Error>,
    ) -> bool {
        match r {
            Ok(_) => taken_each(pre.0, dest.0@, message, post.0),
            Err(e) => exists|i: int|
                0 <= i < dest.0@.len() && #[trigger] refused_at(
                    pre.0,
                    dest.0@,
                    message,
                    post.0,
                    e,
                    i,
                ),
        }
    }

    fn send(&mut self, dest: IterAddr<SocketAddr>, message: B) -> (r: Result<(), Error>) {
        let IterAddr(addrs) = dest;
        let mut i: usize = 0;
        assert(addrs@.take(0) =~= Seq::<SocketAddr>::empty());
        while i < addrs.len()
            invariant
                i <= addrs@.len(),
                dest == IterAddr(addrs),
                taken_each(old(self).0, addrs@.take(i as int), message, self.0),
            decreases addrs@.len() - i,
        {
            let ghost middle = self.0;
            let copy = message.clone();
            assert(cloned(message, copy));
            match self.0.send((addrs[i], copy)) {
                Ok(unit) => {
                    assert(unit == ());
                },
                Err(e) => {
                    assert(refused_at(old(self).0, dest.0@, message, self.0, e, i as int));
                    return Err(e);
                },
            }
            assert(addrs@.take(i + 1).drop_last() =~= addrs@.take(i as int));
            assert(addrs@.take(i + 1).last() == addrs@[i as int]);
            assert(taken_each(old(self).0, addrs@.take(i + 1).drop_last(), message, middle));
            assert(E::taken(middle, (addrs@.take(i + 1).last(), copy), self.0, Ok(())));
            i += 1;
        }
        assert(addrs@.take(i as int) =~= addrs@);
        Ok(())
    }
}

/// A message to all others is never sent to the local address, where the
/// addresses differ.
pub proof fn law_all_others_exclude_local<A>(addrs: Seq<A>, local_index: usize)
    requires
        addrs.no_duplicates(),
        local_index < addrs.len(),
    ensures
        !all_others(addrs, Some(local_index)).contains(addrs[local_index as int]),
        all_others(addrs, Some(local_index)).len() == addrs.len() - 1,
{
    let others = all_others(addrs, Some(local_index));
    if others.contains(addrs[local_index as int]) {
        let i = choose|i: int| 0 <= i < others.len() && others[i] == addrs[local_index as int];
        let j = if i < local_index {
            i
        } else {
            i + 1
        };
        assert(addrs[j] == addrs[local_index as int]);
    }
}

} // verus!
