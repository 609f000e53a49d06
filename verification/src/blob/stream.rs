//! Transfer of blobs that are written and read piece by piece: a handler writes
//! to each accepted stream, and received streams are handed up as they are.

use vstd::prelude::*;

use crate::addr::{socket, socket_at, IpAddr, SocketAddr};
use crate::error::Error;
use crate::net::{Recv, SendEvent, SendMessage};

verus! {

/// The port of a socket.
pub open spec fn port_of(addr: SocketAddr) -> u16 {
    match addr {
        SocketAddr::V4(addr) => addr.port,
        SocketAddr::V6(addr) => addr.port,
    }
}

/// The socket at an IP address with the port of another socket.
pub fn announced(ip: IpAddr, local: SocketAddr) -> (r: SocketAddr)
    ensures
        r == socket_at(ip, port_of(local)),
{
    let port: u16 = match local {
        SocketAddr::V4(addr) => addr.port,
        SocketAddr::V6(addr) => addr.port,
    };
    socket(ip, port)
}

/// A blob that is to be transferred: to whom, with which message, and what
/// writes it.
#[derive(Debug)]
pub struct Transfer<A, M, T>(pub A, pub M, pub T);

/// What happens to a session from outside.
#[derive(Debug)]
pub enum Event<A, M, T> {
    Transfer(Transfer<A, M, T>),
    RecvServe(Recv<Serve<M>>),
}

/// A message about a blob and where the blob is served.
#[derive(Debug)]
pub struct Serve<M>(pub M, pub SocketAddr);

/// A stream to read a blob from, with the message about it.
#[derive(Debug)]
pub struct RecvBlob<M, S>(pub M, pub S);

/// What takes in the messages about blobs.
pub trait SendRecvEvent<M>: SendEvent<Recv<Serve<M>>> {

}

impl<T: SendEvent<Recv<Serve<M>>>, M> SendRecvEvent<M> for T {

}

/// What a session is to start next: to bind a server, or to connect to one.
#[derive(Debug)]
pub enum Task<M> {
    Bind,
    Connect(M, SocketAddr),
}

/// A session: the transfers that wait for a server, and the IP address under
/// which servers are announced.
#[derive(Debug)]
pub struct Session<A, M, T> {
    pub ip: IpAddr,
    pub pending_bind: Vec<Transfer<A, M, T>>,
    pub binding: usize,
}

impl<A, M, T> Session<A, M, T> {
    /// There is a transfer for every server that is being bound.
    pub open spec fn wf(&self) -> bool {
        self.binding == self.pending_bind@.len()
    }

    pub fn new(ip: IpAddr) -> (r: Self)
        ensures
            r.wf(),
            r.ip == ip,
            r.pending_bind@ == Seq::<Transfer<A, M, T>>::empty(),
    {
        Session { ip, pending_bind: Vec::new(), binding: 0 }
    }

    /// Takes an event in. Returns the task that it calls for.
    pub fn on_event(&mut self, event: Event<A, M, T>) -> (r: Task<M>)
        requires
            old(self).wf(),
            old(self).binding < usize::MAX,
        ensures
            final(self).wf(),
            final(self).ip == old(self).ip,
            match event {
                Event::Transfer(transfer) => {
                    &&& r is Bind
                    &&& final(self).pending_bind@ == old(self).pending_bind@.push(transfer)
                },
                Event::RecvServe(Recv(Serve(message, addr))) => {
                    &&& r == Task::Connect(message, addr)
                    &&& final(self).pending_bind@ == old(self).pending_bind@
                },
            },
    {
        match event {
            Event::Transfer(transfer) => {
                self.pending_bind.push(transfer);
                self.binding += 1;
                Task::Bind
            },
            Event::RecvServe(Recv(Serve(message, addr))) => Task::Connect(message, addr),
        }
    }

    /// Announces a server that was bound to the destination of a transfer.
    /// Returns what is to write to the first stream that it accepts.
    pub fn on_bind<N: SendMessage<A, Serve<M>>>(&mut self, net: &mut N, local: SocketAddr) -> (r:
        Result<T, Error>)
        requires
            old(self).wf(),
            old(self).binding > 0,
        ensures
            final(self).wf(),
            final(self).ip == old(self).ip,
            final(self).pending_bind@ == old(self).pending_bind@.drop_last(),
            ({
                let transfer = old(self).pending_bind@.last();
                let addr = socket_at(old(self).ip, port_of(local));
                let sent = match r {
                    Ok(_) => Ok(()),
                    Err(e) => Err(e),
                };
                &&& N::sent(*old(net), transfer.0, Serve(transfer.1, addr), *final(net), sent)
                &&& r matches Ok(on_transfer) ==> on_transfer == transfer.2
            }),
    {
        let Transfer(dest, message, on_transfer) = self.pending_bind.pop().unwrap();
        self.binding -= 1;
        match net.send(dest, Serve(message, announced(self.ip, local))) {
            Ok(unit) => {
                assert(unit == ());
                Ok(on_transfer)
            },
            Err(e) => Err(e),
        }
    }

    /// Hands up a stream that was connected.
    pub fn on_connect<S, U: SendEvent<RecvBlob<M, S>>>(
        &self,
        upcall: &mut U,
        message: M,
        stream: S,
    ) -> (r: Result<(), Error>)
        ensures
            U::taken(*old(upcall), RecvBlob(message, stream), *final(upcall), r),
    {
        upcall.send(RecvBlob(message, stream))
    }
}

} // verus!
