//! What holds of signed messages from one party to another.

use vstd::prelude::*;

use crate::crypto::{
    digest, ecdsa_verifies, law_message_survives_packet, sha256, Message, Packet, Signer, Verifier,
};
use crate::error::Error;
use crate::wire::{Encode, Format};

verus! {

/// What a party signs, another one reads and verifies with the public key of the
/// signer.
pub proof fn law_signed_message_arrives<M: Encode>(
    signer: &Signer,
    value: M,
    signed: Message<M>,
    packet: Packet,
    received: Message<M>,
    key: &Verifier,
    message: &mut Message<M>,
    r: Result<(), Error>,
)
    requires
        call_ensures(Signer::serialize_sign::<M>, (signer, value), Ok(signed)),
        call_ensures(Message::<M>::packet, (&signed,), packet),
        call_ensures(Packet::deserialize::<M>, (packet,), Ok(received)),
        call_ensures(Verifier::from_signer, (signer,), *key),
        *old(message) == received,
        call_ensures(Verifier::verify::<M>, (key, message), r),
    ensures
        !received.verified,
        received.inner.deep_view() == value.deep_view(),
        r is Ok,
        final(message).verified,
        final(message).inner == received.inner,
{
    law_message_survives_packet::<M>(signed, received, key@);
}

/// A message passes just if it was verified before or its signature is one of its
/// bytes, and only then it counts as verified.
pub proof fn law_verified_means_signed<M>(
    key: &Verifier,
    message: &mut Message<M>,
    r: Result<(), Error>,
)
    requires
        call_ensures(Verifier::verify::<M>, (key, message), r),
    ensures
        r is Ok <==> old(message).verified || ecdsa_verifies(
            key@,
            sha256(old(message).inner_bytes@),
            old(message).signature@,
        ),
        final(message).verified <==> r is Ok,
        final(message).inner == old(message).inner,
        final(message).signature == old(message).signature,
        final(message).inner_bytes@ == old(message).inner_bytes@,
{
}

/// A digest is that of the bytes of the value.
pub proof fn law_digest_is_of_the_bytes<M: Encode>(value: &M, r: Result<[u8; 32], Error>)
    requires
        call_ensures(digest::<M>, (value,), r),
    ensures
        r is Ok <==> M::encodable(value.deep_view()),
        r matches Ok(d) ==> d@ == sha256(M::encoding(value.deep_view())),
{
}

} // verus!
