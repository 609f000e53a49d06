//! Transfer of blobs that are offered first, and can be cancelled on both sides.

use vstd::prelude::*;

use crate::addr::SocketAddr;
use crate::blob::{data_text, is_data_text};
use crate::error::Error;
use crate::net::{Recv, SendEvent, SendMessage};

verus! {

/// The milliseconds that a server waits for its blob to be accepted.
pub const ACCEPT_MILLIS: u64 = 2500;

#[verifier::external_type_specification]
#[verifier::external_body]
pub struct ExCancellationToken(tokio_util::sync::CancellationToken);

/// Calls `tokio_util::sync::CancellationToken::new`. Nothing is claimed of the
/// token but that it comes from this call.
#[verifier::external_body]
fn token_new() -> (r: tokio_util::sync::CancellationToken) {
    tokio_util::sync::CancellationToken::new()
}

/// Calls `clone` of `tokio_util::sync::CancellationToken`, which gives a token
/// that is cancelled together with the other one. Nothing is claimed of it but
/// that it comes from this call.
#[verifier::external_body]
fn token_clone(token: &tokio_util::sync::CancellationToken) -> (r:
    tokio_util::sync::CancellationToken) {
    token.clone()
}

/// Calls `tokio_util::sync::CancellationToken::cancel`, after which the token and
/// all its clones are cancelled. Nothing is claimed but that the call was made.
#[verifier::external_body]
fn token_cancel(token: &tokio_util::sync::CancellationToken) {
    token.cancel()
}

/// Whether a token is a clone of another one, and so is cancelled with it.
pub closed spec fn is_token_clone(
    token: tokio_util::sync::CancellationToken,
    copy: tokio_util::sync::CancellationToken,
) -> bool {
    call_ensures(token_clone, (&token,), copy)
}

/// Whether the call that cancels a token has come back.
pub closed spec fn was_cancelled(token: tokio_util::sync::CancellationToken) -> bool {
    call_ensures(token_cancel, (&token,), ())
}

/// A blob that is offered, with what can cancel the offer. It is told by its
/// length.
pub struct Offer<A, M, C> {
    pub dest: A,
    pub message: M,
    pub buf: Vec<u8>,
    pub cancel: Option<C>,
}

impl<A, M, C> Offer<A, M, C> {
    /// The text that stands for the data in logs.
    pub fn data_text(&self) -> (r: String)
        ensures
            is_data_text(r@, self.buf@.len()),
    {
        data_text(self.buf.len())
    }
}

/// An offer that is accepted: where the blob is served, what becomes of its
/// data, and what can cancel the transfer.
#[derive(Debug)]
pub struct Accept<F, C> {
    pub serve_addr: SocketAddr,
    pub into_recv_event: F,
    pub cancel: Option<C>,
}

/// What happens to a session from outside.
pub enum Event<A, M, F, C> {
    Offer(Offer<A, M, C>),
    Accept(Accept<F, C>),
    RecvServe(Recv<Serve<M>>),
}

/// An offer that came in. It can be accepted or rejected once.
#[derive(Debug)]
pub struct RecvOffer<M> {
    pub inner: M,
    pub serve_addr: Option<SocketAddr>,
}

/// A message about a blob and where the blob is served.
#[derive(Debug)]
pub struct Serve<M>(pub M, pub SocketAddr);

/// What takes in the events of a session.
pub trait Service<A, M, F, C>: SendEvent<Event<A, M, F, C>> {

}

impl<T: SendEvent<Event<A, M, F, C>>, A, M, F, C> Service<A, M, F, C> for T {

}

/// Offers a blob.
pub fn offer<S: Service<A, M, F, C>, A, M, F, C>(
    service: &mut S,
    dest: A,
    message: M,
    buf: Vec<u8>,
    cancel: Option<C>,
) -> (r: Result<(), Error>)
    ensures
        <S as SendEvent<Event<A, M, F, C>>>::taken(
            *old(service),
            Event::Offer(Offer { dest, message, buf, cancel }),
            *final(service),
            r,
        ),
{
    service.send(Event::Offer(Offer { dest, message, buf, cancel }))
}

/// Accepts an offer, unless it was accepted or rejected before.
pub fn accept<S: Service<A, M, F, C>, A, M, F, C>(
    service: &mut S,
    recv_offer: &mut RecvOffer<M>,
    into_recv_event: F,
    cancel: Option<C>,
) -> (r: Result<(), Error>)
    ensures
        final(recv_offer).inner == old(recv_offer).inner,
        final(recv_offer).serve_addr is None,
        match old(recv_offer).serve_addr {
            Some(serve_addr) => <S as SendEvent<Event<A, M, F, C>>>::taken(
                *old(service),
                Event::Accept(Accept { serve_addr, into_recv_event, cancel }),
                *final(service),
                r,
            ),
            None => r == Err::<(), Error>(Error::OfferTaken) && *final(service) == *old(service),
        },
{
    match recv_offer.serve_addr {
        Some(serve_addr) => {
            recv_offer.serve_addr = None;
            service.send(Event::Accept(Accept { serve_addr, into_recv_event, cancel }))
        },
        None => Err(Error::OfferTaken),
    }
}

/// Rejects an offer, unless it was accepted or rejected before: accepts it with a
/// token, and cancels that as soon as this has succeeded.
pub fn reject<S: Service<A, M, F, tokio_util::sync::CancellationToken>, A, M, F>(
    service: &mut S,
    recv_offer: &mut RecvOffer<M>,
    into_recv_event: F,
) -> (r: Result<(), Error>)
    ensures
        final(recv_offer).inner == old(recv_offer).inner,
        final(recv_offer).serve_addr is None,
        match old(recv_offer).serve_addr {
            Some(serve_addr) => exists|
                token: tokio_util::sync::CancellationToken,
                copy: tokio_util::sync::CancellationToken,
            |
                {
                    &&& #[trigger] is_token_clone(token, copy)
                    &&& <S as SendEvent<
                        Event<A, M, F, tokio_util::sync::CancellationToken>,
                    >>::taken(
                        *old(service),
                        Event::Accept(Accept { serve_addr, into_recv_event, cancel: Some(copy) }),
                        *final(service),
                        r,
                    )
                    &&& r is Ok ==> was_cancelled(token)
                },
            None => r == Err::<(), Error>(Error::OfferTaken) && *final(service) == *old(service),
        },
{
    let token = token_new();
    let copy = token_clone(&token);
    assert(is_token_clone(token, copy));
    match accept(service, recv_offer, into_recv_event, Some(copy)) {
        Ok(unit) => {
            assert(unit == ());
            token_cancel(&token);
            assert(was_cancelled(token));
            Ok(())
        },
        Err(e) => Err(e),
    }
}

/// How the reading of a blob ended.
pub enum Fetched {
    Done(Vec<u8>),
    Cancelled,
    Failed,
}

/// What a session is to start next: to bind a server, to read an accepted blob,
/// or nothing after an offer was handed up.
#[derive(Debug)]
pub enum Task<F, C> {
    Bind,
    Fetch(Accept<F, C>),
    Nothing,
}

/// A session: the offers that wait for a server. As many servers are being
/// bound, and each of them serves whichever offer came last.
pub struct Session<A, M, C> {
    pub pending_bind: Vec<Offer<A, M, C>>,
    pub binding: usize,
}

impl<A, M, C> Session<A, M, C> {
    /// There is an offer for every server that is being bound.
    pub open spec fn wf(&self) -> bool {
        self.binding == self.pending_bind@.len()
    }

    pub fn new() -> (r: Self)
        ensures
            r.wf(),
            r.pending_bind@ == Seq::<Offer<A, M, C>>::empty(),
    {
        Session { pending_bind: Vec::new(), binding: 0 }
    }

    /// Takes an event in. Returns the task that it calls for; an offer that came
    /// in is handed up at once.
    pub fn on_event<F, U: SendEvent<RecvOffer<M>>>(
        &mut self,
        upcall: &mut U,
        event: Event<A, M, F, C>,
    ) -> (r: Result<Task<F, C>, Error>)
        requires
            old(self).wf(),
            old(self).binding < usize::MAX,
        ensures
            final(self).wf(),
            match event {
                Event::Offer(offer) => {
                    &&& r matches Ok(Task::Bind)
                    &&& final(self).pending_bind@ == old(self).pending_bind@.push(offer)
                    &&& *final(upcall) == *old(upcall)
                },
                Event::Accept(accept) => {
                    &&& r == Ok::<Task<F, C>, Error>(Task::Fetch(accept))
                    &&& final(self).pending_bind@ == old(self).pending_bind@
                    &&& *final(upcall) == *old(upcall)
                },
                Event::RecvServe(Recv(Serve(message, serve_addr))) => {
                    let up = match r {
                        Ok(_) => Ok(()),
                        Err(e) => Err(e),
                    };
                    &&& r matches Ok(task) ==> task is Nothing
                    &&& final(self).pending_bind@ == old(self).pending_bind@
                    &&& U::taken(
                        *old(upcall),
                        RecvOffer { inner: message, serve_addr: Some(serve_addr) },
                        *final(upcall),
                        up,
                    )
                },
            },
    {
        match event {
            Event::Offer(offer) => {
                self.pending_bind.push(offer);
                self.binding += 1;
                Ok(Task::Bind)
            },
            Event::Accept(accept) => Ok(Task::Fetch(accept)),
            Event::RecvServe(Recv(Serve(message, serve_addr))) => {
                match upcall.send(RecvOffer { inner: message, serve_addr: Some(serve_addr) }) {
                    Ok(unit) => {
                        assert(unit == ());
                        Ok(Task::Nothing)
                    },
                    Err(e) => Err(e),
                }
            },
        }
    }

    /// Takes the offer that a server which was bound is to serve. It starts to
    /// accept before it is announced.
    pub fn on_bind(&mut self) -> (r: (A, M, Vec<u8>, Option<C>))
        requires
            old(self).wf(),
            old(self).binding > 0,
        ensures
            final(self).wf(),
            final(self).pending_bind@ == old(self).pending_bind@.drop_last(),
            ({
                let offer = old(self).pending_bind@.last();
                r == (offer.dest, offer.message, offer.buf, offer.cancel)
            }),
    {
        let offer = self.pending_bind.pop().unwrap();
        self.binding -= 1;
        (offer.dest, offer.message, offer.buf, offer.cancel)
    }

    /// Announces the server of an offer to its destination.
    pub fn announce<N: SendMessage<A, Serve<M>>>(
        &self,
        net: &mut N,
        dest: A,
        message: M,
        addr: SocketAddr,
    ) -> (r: Result<(), Error>)
        ensures
            N::sent(*old(net), dest, Serve(message, addr), *final(net), r),
    {
        net.send(dest, Serve(message, addr))
    }

    /// Hands up what a blob becomes that was read. Nothing is when the transfer
    /// was cancelled or failed.
    pub fn on_fetched<N, F: FnOnce(Vec<u8>) -> N, U: SendEvent<N>>(
        &self,
        upcall: &mut U,
        into_recv_event: F,
        fetched: Fetched,
    ) -> (r: Result<(), Error>)
        requires
            fetched matches Fetched::Done(data) ==> call_requires(into_recv_event, (data,)),
        ensures
            match fetched {
                Fetched::Done(data) => exists|event: N| #[trigger]
                    call_ensures(into_recv_event, (data,), event) && U::taken(
                        *old(upcall),
                        event,
                        *final(upcall),
                        r,
                    ),
                _ => r == Ok::<(), Error>(()) && *final(upcall) == *old(upcall),
            },
    {
        match fetched {
            Fetched::Done(data) => upcall.send(into_recv_event(data)),
            Fetched::Cancelled => Ok(()),
            Fetched::Failed => Ok(()),
        }
    }
}

} // verus!
