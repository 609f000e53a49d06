//! Encoded messages in datagrams.

use std::marker::PhantomData;

use vstd::prelude::*;

use crate::addr::{Addr, SocketAddr};
use crate::error::Error;
use crate::wire::{decode, encode, Encode};

verus! {

/// The largest datagram that is read.
pub const MAX_DATAGRAM: usize = 65536;

/// What reads datagrams.
#[derive(Debug, Clone, Copy, PartialEq, Eq, Structural)]
pub struct UdpSocket;

impl UdpSocket {
    /// The message in the first `len` bytes of a buffer, which a datagram was
    /// read into.
    pub fn on_datagram<M: Encode>(&self, buf: &Vec<u8>, len: usize) -> (r: Result<M, Error>)
        requires
            len <= buf@.len(),
        ensures
            match r {
                Ok(v) => {
                    &&& M::encodable(v.deep_view())
                    &&& buf@.take(len as int) == M::encoding(v.deep_view())
                    &&& v.is_plain()
                },
                Err(e) => e == Error::Decoding && forall|v: M::V| #[trigger]
                    M::encodable(v) ==> buf@.take(len as int) != M::encoding(v),
            },
    {
        let datagram = vstd::slice::slice_subrange(buf.as_slice(), 0, len);
        assert(datagram@ =~= buf@.take(len as int));
        decode::<M>(datagram)
    }
}

/// What sends messages of a type in datagrams.
#[derive(Debug)]
pub struct UdpTransport<M>(pub PhantomData<M>);

impl<M: Encode> UdpTransport<M> {
    /// The datagram for a message and the socket that it goes to. Only sockets
    /// can be reached.
    pub fn send_to(&self, destination: Addr, message: &M) -> (r: Result<
        (SocketAddr, Vec<u8>),
        Error,
    >)
        ensures
            match r {
                Ok((addr, buf)) => {
                    &&& destination == Addr::Socket(addr)
                    &&& M::encodable(message.deep_view())
                    &&& buf@ == M::encoding(message.deep_view())
                },
                Err(e) => {
                    ||| e == Error::UnsupportedAddr && destination is Untyped
                    ||| e == Error::Encoding && destination is Socket && !M::encodable(
                        message.deep_view(),
                    )
                },
            },
    {
        match destination {
            Addr::Socket(addr) => match encode(message) {
                Ok(buf) => Ok((addr, buf)),
                Err(e) => Err(e),
            },
            Addr::Untyped(_) => Err(Error::UnsupportedAddr),
        }
    }
}

/// What is sent in a datagram is what is read from it.
pub proof fn law_datagram_round_trip<M: Encode>(sent: M::V, read: M::V, buf: Seq<u8>, len: int)
    requires
        0 <= len <= buf.len(),
        M::encodable(sent),
        M::encodable(read),
        buf.take(len) == M::encoding(sent),
        buf.take(len) == M::encoding(read),
    ensures
        read == sent,
{
    crate::wire::law_decode_encode::<M>(sent, read);
}

} // verus!
