use vstd::prelude::*;

verus! {

/// Everything a fallible operation of this library can report.
#[derive(Debug, Clone, Copy, PartialEq, Eq, Structural)]
pub enum Error {
    /// A value has no encoding: one of its sequences is longer than a 32-bit length can say.
    Encoding,
    /// Bytes that are the encoding of no value.
    Decoding,
    /// Bytes that are no secret key.
    SecretKey,
    /// Bytes that are no public key.
    PublicKey,
    /// A signature that is not one of the message under the key.
    Signature,
    /// A message of a party to itself.
    Loopback,
    /// An address that cannot be reached in this way.
    UnsupportedAddr,
    /// An index without an address.
    IndexOutOfBound,
    /// A message of this length, which is too large to be sent.
    TooLarge(usize),
    /// A connection that is not kept any more.
    ConnectionMissing,
    /// Nothing takes in the events of a channel any more.
    ChannelClosed,
    /// Nothing sends events into a channel any more.
    SourceClosed,
    /// Nobody waits for a promise any more.
    ReturnClosed,
    /// A new connection has ended already.
    ConnectionClosed,
    /// An offer that was accepted or rejected before.
    OfferTaken,
}

} // verus!
