//! Digests and signatures over encoded messages.
//!
//! A message is signed and verified in its encoded form, so that it is walked
//! once for both encoding and hashing.

use vstd::prelude::*;

use crate::addr::decimal;
use crate::context::crypto::{named_secret, padded};
use crate::error::Error;
use crate::wire::{big_endian, decode, encode, put_bytes, take_array, Encode, Format};

pub mod laws;

verus! {

pub type Digest = [u8; 32];

/// The SHA-256 hash of `data`.
pub uninterp spec fn sha256(data: Seq<u8>) -> Seq<u8>;

/// The compact ECDSA signature over secp256k1 of `hash` under `secret`, with
/// the nonce that RFC 6979 derives from the two.
pub uninterp spec fn ecdsa_signature(secret: Seq<u8>, hash: Seq<u8>) -> Seq<u8>;

/// Whether `signature` is a well-formed compact signature of `hash` under the
/// key with the compressed form `key`.
pub uninterp spec fn ecdsa_verifies(key: Seq<u8>, hash: Seq<u8>, signature: Seq<u8>) -> bool;

/// The compressed form of the public key of `secret`.
pub uninterp spec fn ecdsa_public_key(secret: Seq<u8>) -> Seq<u8>;

/// The compressed form of the public key that `bytes` is a serialization of.
pub uninterp spec fn parsed_public_key(bytes: Seq<u8>) -> Option<Seq<u8>>;

/// The order of the secp256k1 group.
pub open spec fn curve_order() -> nat {
    0xffff_ffff_ffff_ffff_ffff_ffff_ffff_fffe_baae_dce6_af48_a03b_bfd2_5e8c_d036_4141nat
}

/// Whether `s` is a secret key: a big-endian scalar that is neither zero nor
/// past the group order.
pub open spec fn is_secret(s: Seq<u8>) -> bool {
    s.len() == 32 && 0 < big_endian(s) < curve_order()
}

/// Whether `s` is the compressed form of a public key.
pub open spec fn is_public_key(s: Seq<u8>) -> bool {
    s.len() == 33 && parsed_public_key(s) == Some(s)
}

/// Calls `secp256k1::Message::from_hashed_data` with SHA-256. Its 32 bytes are
/// the hash of the data.
#[verifier::external_body]
fn secp_hash(data: &[u8]) -> (r: [u8; 32])
    ensures
        r@ == sha256(data@),
{
    *secp256k1::Message::from_hashed_data::<secp256k1::hashes::sha256::Hash>(data).as_ref()
}

/// Calls `secp256k1::SecretKey::from_slice`, which accepts just the 32-byte
/// scalars between zero and the group order, both excluded.
#[verifier::external_body]
fn secp_check_secret(secret: &[u8]) -> (r: bool)
    ensures
        r == is_secret(secret@),
{
    secp256k1::SecretKey::from_slice(secret).is_ok()
}

/// Calls `secp256k1::Secp256k1::sign_ecdsa` and serializes the signature in
/// compact form. The nonce comes from the key and the hash alone. The signature
/// verifies under the public key of the secret.
#[verifier::external_body]
fn secp_sign(secret: &[u8; 32], hash: &[u8; 32]) -> (r: [u8; 64])
    requires
        is_secret(secret@),
    ensures
        r@ == ecdsa_signature(secret@, hash@),
        ecdsa_verifies(ecdsa_public_key(secret@), hash@, r@),
{
    let key = secp256k1::SecretKey::from_slice(secret).unwrap();
    let hash = secp256k1::Message::from_digest(*hash);
    secp256k1::Secp256k1::signing_only().sign_ecdsa(&hash, &key).serialize_compact()
}

/// Calls `secp256k1::PublicKey::from_secret_key` and serializes the key in
/// compressed form, from which it parses again.
#[verifier::external_body]
fn secp_public_key(secret: &[u8; 32]) -> (r: [u8; 33])
    requires
        is_secret(secret@),
    ensures
        r@ == ecdsa_public_key(secret@),
        parsed_public_key(r@) == Some(r@),
{
    let key = secp256k1::SecretKey::from_slice(secret).unwrap();
    secp256k1::PublicKey::from_secret_key(&secp256k1::Secp256k1::signing_only(), &key).serialize()
}

/// Calls `secp256k1::PublicKey::from_slice` and serializes the key in compressed
/// form, from which it parses again. A compressed serialization, which is the
/// only one of 33 bytes, comes back as it is.
#[verifier::external_body]
fn secp_parse_public_key(bytes: &[u8]) -> (r: Option<[u8; 33]>)
    ensures
        r is Some <==> parsed_public_key(bytes@) is Some,
        r matches Some(key) ==> parsed_public_key(bytes@) == Some(key@),
        r matches Some(key) ==> parsed_public_key(key@) == Some(key@),
        r matches Some(key) ==> (bytes@.len() == 33 ==> key@ == bytes@),
{
    match secp256k1::PublicKey::from_slice(bytes) {
        Ok(key) => Some(key.serialize()),
        Err(_) => None,
    }
}

/// Calls `secp256k1::Secp256k1::verify_ecdsa` on the parsed key and signature.
/// The answer is no when one of the two does not parse, and when the signature
/// is not one of the hash under the key.
#[verifier::external_body]
fn secp_verify(key: &[u8; 33], hash: &[u8; 32], signature: &[u8; 64]) -> (r: bool)
    ensures
        r == ecdsa_verifies(key@, hash@, signature@),
{
    let hash = secp256k1::Message::from_digest(*hash);
    let secp = secp256k1::Secp256k1::verification_only();
    let key = secp256k1::PublicKey::from_slice(key);
    let signature = secp256k1::ecdsa::Signature::from_compact(signature);
    match (key, signature) {
        (Ok(key), Ok(signature)) => secp.verify_ecdsa(&hash, &signature, &key).is_ok(),
        _ => false,
    }
}

/// The digest of encoded bytes.
pub fn digest_bytes(bytes: &[u8]) -> (r: Digest)
    ensures
        r@ == sha256(bytes@),
{
    secp_hash(bytes)
}

/// The digest of the encoding of `data`.
pub fn digest<M: Encode>(data: &M) -> (r: Result<Digest, Error>)
    ensures
        match r {
            Ok(d) => M::encodable(data.deep_view()) && d@ == sha256(
                M::encoding(data.deep_view()),
            ),
            Err(e) => e == Error::Encoding && !M::encodable(data.deep_view()),
        },
{
    match encode(data) {
        Ok(bytes) => Ok(digest_bytes(bytes.as_slice())),
        Err(e) => Err(e),
    }
}

#[derive(Debug, Clone, Copy, PartialEq, Eq)]
pub struct Signature(pub [u8; 64]);

impl View for Signature {
    type V = Seq<u8>;

    open spec fn view(&self) -> Seq<u8> {
        self.0@
    }
}

/// On-wire form of a signed message. The type of the message is not in it.
#[derive(Debug, PartialEq, Eq)]
pub struct Packet {
    pub signature: Signature,
    pub inner: Vec<u8>,
}

/// A packet as its signature and the bytes that are signed.
pub ghost struct PacketView {
    pub signature: Seq<u8>,
    pub inner: Seq<u8>,
}

impl PacketView {
    /// The wire form: the signature, then everything up to the end.
    pub open spec fn bytes(self) -> Seq<u8> {
        self.signature + self.inner
    }

    /// A signature is 64 bytes long.
    pub open spec fn wf(self) -> bool {
        self.signature.len() == 64
    }
}

impl View for Packet {
    type V = PacketView;

    open spec fn view(&self) -> PacketView {
        PacketView { signature: self.signature@, inner: self.inner@ }
    }
}

impl Clone for Packet {
    fn clone(&self) -> (r: Self)
        ensures
            r@ == self@,
    {
        Packet { signature: self.signature, inner: self.inner.clone() }
    }
}

impl Packet {
    /// Appends the wire form to a buffer.
    pub fn serialize(&self, out: &mut Vec<u8>)
        ensures
            final(out)@ == old(out)@ + self@.bytes(),
    {
        put_bytes(out, self.signature.0.as_slice());
        put_bytes(out, self.inner.as_slice());
        assert(out@ =~= old(out)@ + self@.bytes());
    }

    /// The packet with the wire form `bytes`.
    pub fn deserialize_reader(bytes: &[u8]) -> (r: Result<Packet, Error>)
        ensures
            match r {
                Ok(packet) => packet@.wf() && bytes@ == packet@.bytes(),
                Err(e) => e == Error::Decoding && bytes@.len() < 64,
            },
    {
        match take_array::<64>(bytes) {
            Some((signature, rest)) => Ok(
                Packet { signature: Signature(signature), inner: vstd::slice::slice_to_vec(rest) },
            ),
            None => Err(Error::Decoding),
        }
    }

    /// Reads the message in the packet. Its signature is yet to be verified.
    pub fn deserialize<M: Encode>(self) -> (r: Result<Message<M>, Error>)
        ensures
            match r {
                Ok(message) => {
                    &&& message.in_sync()
                    &&& message.packet_view() == self@
                    &&& !message.verified
                    &&& message.inner.is_plain()
                },
                Err(e) => e == Error::Decoding && forall|v: M::V| #[trigger]
                    M::encodable(v) ==> self@.inner != M::encoding(v),
            },
    {
        let Packet { signature, inner: inner_bytes } = self;
        match decode::<M>(inner_bytes.as_slice()) {
            Ok(inner) => Ok(Message { signature, inner, verified: false, inner_bytes }),
            Err(e) => Err(e),
        }
    }
}

/// Reading a packet gives back the one that was written.
pub proof fn law_packet_round_trip(written: PacketView, read: PacketView)
    requires
        written.wf(),
        read.wf(),
        read.bytes() == written.bytes(),
    ensures
        read == written,
{
    crate::wire::lemma_append_cancel(
        read.signature,
        read.inner,
        written.signature,
        written.inner,
    );
}

/// A message in memory with a signature that may or may not be verified.
///
/// Once `inner` is changed the signature is no longer one of it, so a message
/// is kept read only.
#[derive(Debug, PartialEq, Eq)]
pub struct Message<M> {
    pub signature: Signature,
    pub inner: M,
    pub verified: bool,
    pub inner_bytes: Vec<u8>,
}

impl<M> Message<M> {
    /// The bytes that are signed.
    pub open spec fn bytes(&self) -> Seq<u8> {
        self.inner_bytes@
    }

    /// The packet that carries the message.
    pub open spec fn packet_view(&self) -> PacketView {
        PacketView { signature: self.signature@, inner: self.bytes() }
    }

    /// Whether the signature is the one that a secret key makes.
    pub open spec fn is_signed_by(&self, signer: Signer) -> bool {
        self.signature@ == ecdsa_signature(signer.secret(), sha256(self.bytes()))
    }

    /// The packet that carries the message.
    pub fn packet(&self) -> (r: Packet)
        ensures
            r@ == self.packet_view(),
    {
        Packet { signature: self.signature, inner: self.inner_bytes.clone() }
    }
}

impl<M: Clone> Clone for Message<M> {
    fn clone(&self) -> (r: Self)
        ensures
            cloned(self.inner, r.inner),
            r.signature == self.signature,
            r.verified == self.verified,
            r.bytes() == self.bytes(),
    {
        Message {
            signature: self.signature,
            inner: self.inner.clone(),
            verified: self.verified,
            inner_bytes: self.inner_bytes.clone(),
        }
    }
}

impl<M: Format> Message<M> {
    /// The signed bytes are the encoding of the message.
    pub open spec fn in_sync(&self) -> bool {
        M::encodable(self.inner.deep_view()) && self.bytes() == M::encoding(self.inner.deep_view())
    }
}

/// A message that goes through a packet arrives as it was sent, and its
/// signature verifies under just the keys under which it did before.
pub proof fn law_message_survives_packet<M: Encode>(
    sent: Message<M>,
    received: Message<M>,
    key: Seq<u8>,
)
    requires
        sent.in_sync(),
        received.in_sync(),
        received.packet_view() == sent.packet_view(),
    ensures
        received.inner.deep_view() == sent.inner.deep_view(),
        ecdsa_verifies(key, sha256(received.bytes()), received.signature@) == ecdsa_verifies(
            key,
            sha256(sent.bytes()),
            sent.signature@,
        ),
{
    crate::wire::law_decode_encode::<M>(sent.inner.deep_view(), received.inner.deep_view());
}

/// A secret key.
#[derive(Debug, Clone, Copy, PartialEq, Eq)]
pub struct Signer {
    secret: [u8; 32],
}

impl Signer {
    #[verifier::type_invariant]
    spec fn inv(self) -> bool {
        is_secret(self.secret@)
    }

    /// The big-endian bytes of the secret scalar.
    pub closed spec fn secret(self) -> Seq<u8> {
        self.secret@
    }

    pub fn from_slice(secret: &[u8]) -> (r: Result<Signer, Error>)
        ensures
            match r {
                Ok(signer) => is_secret(secret@) && signer.secret() == secret@,
                Err(e) => e == Error::SecretKey && !is_secret(secret@),
            },
    {
        if !secp_check_secret(secret) {
            return Err(Error::SecretKey);
        }
        match take_array::<32>(secret) {
            Some((bytes, rest)) => {
                assert(bytes@ =~= secret@);
                Ok(Signer { secret: bytes })
            },
            None => Err(Error::SecretKey),
        }
    }

    /// The key of a replica in a setup where keys are known beforehand.
    pub fn new_hardcoded(index: u8) -> (r: Signer)
        ensures
            r.secret() == padded("hardcoded-"@ + decimal(index as nat)),
    {
        proof {
            reveal_strlit("hardcoded-");
        }
        Signer { secret: named_secret("hardcoded-", index) }
    }

    /// Encodes a message and signs the digest of its encoding.
    pub fn serialize_sign<M: Encode>(&self, message: M) -> (r: Result<Message<M>, Error>)
        ensures
            match r {
                Ok(signed) => {
                    &&& signed.inner == message
                    &&& signed.in_sync()
                    &&& signed.verified
                    &&& signed.is_signed_by(*self)
                    &&& ecdsa_verifies(
                        ecdsa_public_key(self.secret()),
                        sha256(signed.bytes()),
                        signed.signature@,
                    )
                },
                Err(e) => e == Error::Encoding && !M::encodable(message.deep_view()),
            },
    {
        proof {
            use_type_invariant(self);
        }
        match encode(&message) {
            Ok(inner_bytes) => {
                let hash = digest_bytes(inner_bytes.as_slice());
                let signature = Signature(secp_sign(&self.secret, &hash));
                Ok(Message { signature, inner: message, verified: true, inner_bytes })
            },
            Err(e) => Err(e),
        }
    }
}

/// A public key.
#[derive(Debug, Clone, Copy, PartialEq, Eq)]
pub struct Verifier {
    key: [u8; 33],
}

impl View for Verifier {
    type V = Seq<u8>;

    /// The compressed form of the key.
    closed spec fn view(&self) -> Seq<u8> {
        self.key@
    }
}

impl Verifier {
    #[verifier::type_invariant]
    spec fn inv(self) -> bool {
        is_public_key(self.key@)
    }

    /// The public key of a secret key: it verifies what the secret key signs.
    pub fn from_signer(signer: &Signer) -> (r: Verifier)
        ensures
            r@ == ecdsa_public_key(signer.secret()),
    {
        proof {
            use_type_invariant(signer);
        }
        Verifier { key: secp_public_key(&signer.secret) }
    }

    /// The public key of a replica in a setup where keys are known beforehand.
    pub fn new_hardcoded(index: u8) -> (r: Verifier)
        ensures
            r@ == ecdsa_public_key(padded("hardcoded-"@ + decimal(index as nat))),
    {
        Self::from_signer(&Signer::new_hardcoded(index))
    }

    /// The key that `bytes` is a serialization of.
    pub fn from_slice(bytes: &[u8]) -> (r: Result<Verifier, Error>)
        ensures
            match r {
                Ok(key) => parsed_public_key(bytes@) == Some(key@) && (bytes@.len() == 33
                    ==> key@ == bytes@),
                Err(e) => e == Error::PublicKey && parsed_public_key(bytes@) is None,
            },
    {
        match secp_parse_public_key(bytes) {
            Some(key) => Ok(Verifier { key }),
            None => Err(Error::PublicKey),
        }
    }

    /// The compressed form of the key.
    pub fn serialize(&self) -> (r: [u8; 33])
        ensures
            r@ == self@,
            is_public_key(r@),
    {
        proof {
            use_type_invariant(self);
        }
        self.key
    }

    /// Verifies the signature of a message, unless that was done already.
    pub fn verify<M>(&self, message: &mut Message<M>) -> (r: Result<(), Error>)
        ensures
            r is Ok <==> old(message).verified || ecdsa_verifies(
                self@,
                sha256(old(message).bytes()),
                old(message).signature@,
            ),
            r matches Err(e) ==> e == Error::Signature,
            final(message).verified == r is Ok,
            final(message).inner == old(message).inner,
            final(message).signature == old(message).signature,
            final(message).bytes() == old(message).bytes(),
    {
        if message.verified {
            return Ok(());
        }
        let hash = digest_bytes(message.inner_bytes.as_slice());
        if secp_verify(&self.key, &hash, &message.signature.0) {
            message.verified = true;
            Ok(())
        } else {
            Err(Error::Signature)
        }
    }
}

} // verus!
