//! Transfer of blobs over ephemeral servers.
//!
//! A message about a blob goes over an ordinary net, together with the address
//! of a server that was bound for that blob alone. The receiver connects to it
//! and reads the blob to its end.

use vstd::prelude::*;

use crate::addr::{decimal, numbered, SocketAddr};
use crate::error::Error;
use crate::net::{Recv, SendEvent, SendMessage};

pub mod exp;
pub mod stream;

verus! {

/// The text that a blob has in place of its bytes.
pub open spec fn is_data_text(text: Seq<char>, len: nat) -> bool {
    text == "<"@ + decimal(len) + " bytes>"@
}

/// The text for a blob of some length.
pub fn data_text(len: usize) -> (r: String)
    ensures
        is_data_text(r@, len as nat),
{
    let mut r = numbered("<", len as u64);
    r.append(" bytes>");
    r
}

/// A blob that is to be transferred: to whom, with which message, and its data.
///
/// A blob is not for logs: it is told by its length.
pub struct Transfer<A, M>(pub A, pub M, pub Vec<u8>);

impl<A, M> Transfer<A, M> {
    /// The text that stands for the data in logs.
    pub fn data_text(&self) -> (r: String)
        ensures
            is_data_text(r@, self.2@.len()),
    {
        data_text(self.2.len())
    }
}

/// What happens to a session from outside.
pub enum Event<A, M> {
    Transfer(Transfer<A, M>),
    RecvServe(Recv<Serve<M>>),
}

/// A message about a blob and where the blob is served.
#[derive(Debug)]
pub struct Serve<M>(pub M, pub SocketAddr);

/// A blob that came in with its message. It is told by its length.
pub struct RecvBlob<M>(pub M, pub Vec<u8>);

impl<M> RecvBlob<M> {
    /// The text that stands for the data in logs.
    pub fn data_text(&self) -> (r: String)
        ensures
            is_data_text(r@, self.1@.len()),
    {
        data_text(self.1.len())
    }
}

/// What takes in the messages about blobs.
pub trait SendRecvEvent<M>: SendEvent<Recv<Serve<M>>> {

}

impl<T: SendEvent<Recv<Serve<M>>>, M> SendRecvEvent<M> for T {

}

/// What a session is to start next: to bind a server, or to read a blob.
#[derive(Debug)]
pub enum Task<M> {
    Bind,
    Fetch(M, SocketAddr),
}

/// A session: the transfers that wait for a server. As many servers are being
/// bound, and each of them serves whichever transfer came last.
pub struct Session<A, M> {
    pub pending_bind: Vec<Transfer<A, M>>,
    pub binding: usize,
}

impl<A, M> Session<A, M> {
    /// There is a transfer for every server that is being bound.
    pub open spec fn wf(&self) -> bool {
        self.binding == self.pending_bind@.len()
    }

    pub fn new() -> (r: Self)
        ensures
            r.wf(),
            r.pending_bind@ == Seq::<Transfer<A, M>>::empty(),
    {
        Session { pending_bind: Vec::new(), binding: 0 }
    }

    /// Takes an event in. Returns the task that it calls for.
    pub fn on_event(&mut self, event: Event<A, M>) -> (r: Task<M>)
        requires
            old(self).wf(),
            old(self).binding < usize::MAX,
        ensures
            final(self).wf(),
            match event {
                Event::Transfer(transfer) => {
                    &&& r is Bind
                    &&& final(self).pending_bind@ == old(self).pending_bind@.push(transfer)
                },
                Event::RecvServe(Recv(Serve(message, addr))) => {
                    &&& r == Task::Fetch(message, addr)
                    &&& final(self).pending_bind@ == old(self).pending_bind@
                },
            },
    {
        match event {
            Event::Transfer(transfer) => {
                self.pending_bind.push(transfer);
                self.binding += 1;
                Task::Bind
            },
            Event::RecvServe(Recv(Serve(message, addr))) => Task::Fetch(message, addr),
        }
    }

    /// Announces a server that was bound to the destination of a transfer.
    /// Returns the data that it is to serve.
    pub fn on_bind<N: SendMessage<A, Serve<M>>>(&mut self, net: &mut N, addr: SocketAddr) -> (r:
        Result<Vec<u8>, Error>)
        requires
            old(self).wf(),
            old(self).binding > 0,
        ensures
            final(self).wf(),
            final(self).pending_bind@ == old(self).pending_bind@.drop_last(),
            ({
                let transfer = old(self).pending_bind@.last();
                let sent = match r {
                    Ok(_) => Ok(()),
                    Err(e) => Err(e),
                };
                &&& N::sent(*old(net), transfer.0, Serve(transfer.1, addr), *final(net), sent)
                &&& r matches Ok(data) ==> data == transfer.2
            }),
    {
        let Transfer(dest, message, data) = self.pending_bind.pop().unwrap();
        self.binding -= 1;
        match net.send(dest, Serve(message, addr)) {
            Ok(unit) => {
                assert(unit == ());
                Ok(data)
            },
            Err(e) => Err(e),
        }
    }

    /// Hands up a blob that was read.
    pub fn on_recv<U: SendEvent<RecvBlob<M>>>(
        &self,
        upcall: &mut U,
        message: M,
        data: Vec<u8>,
    ) -> (r: Result<(), Error>)
        ensures
            U::taken(*old(upcall), RecvBlob(message, data), *final(upcall), r),
    {
        upcall.send(RecvBlob(message, data))
    }
}

} // verus!
