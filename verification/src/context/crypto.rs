//! Signatures and message authentication codes over hashed messages.
//!
//! A message says itself which bytes of it are hashed. Public signatures are
//! ECDSA over secp256k1, private ones are HMAC under a key that all share.

use std::collections::HashMap;
use std::hash::Hash;

use vstd::prelude::*;
use vstd::std_specs::convert::IntoSpec;

use crate::addr::{decimal, numbered};
use crate::context::ReplicaIndex;
use crate::crypto::is_secret;
use crate::error::Error;
use crate::wire::{big_endian, pow256, put_bytes, Blob};

verus! {

/// The compact ECDSA signature over secp256k1 of the SHA-256 hash of `data`
/// under `secret`, with the nonce that RFC 6979 derives from the two.
pub uninterp spec fn k256_signature(secret: Seq<u8>, data: Seq<u8>) -> Seq<u8>;

/// Whether `signature` is a compact signature of the SHA-256 hash of `data`
/// under the key with the compressed form `key`.
pub uninterp spec fn k256_verifies(key: Seq<u8>, data: Seq<u8>, signature: Seq<u8>) -> bool;

/// The compressed form of the public key of `secret`.
pub uninterp spec fn k256_public_key(secret: Seq<u8>) -> Seq<u8>;

/// The SHA-256 hash of `data`.
pub uninterp spec fn sha2_digest(data: Seq<u8>) -> Seq<u8>;

/// The HMAC of `data` under `key` with SHA-256.
pub uninterp spec fn hmac_sha256(key: Seq<u8>, data: Seq<u8>) -> Seq<u8>;

/// Calls `k256::ecdsa::SigningKey::from_slice` on 32 bytes, which accepts just
/// the big-endian scalars between zero and the group order, both excluded.
#[verifier::external_body]
fn k256_check_secret(secret: &[u8; 32]) -> (r: bool)
    ensures
        r == is_secret(secret@),
{
    k256::ecdsa::SigningKey::from_slice(secret).is_ok()
}

/// Calls `sign_digest` of `k256::ecdsa::SigningKey` on a SHA-256 hasher that was
/// fed the data. The nonce comes from the key and the hash alone. The signature
/// verifies under the public key of the secret.
#[verifier::external_body]
fn k256_sign(secret: &[u8; 32], data: &[u8]) -> (r: [u8; 64])
    requires
        is_secret(secret@),
    ensures
        r@ == k256_signature(secret@, data@),
        k256_verifies(k256_public_key(secret@), data@, r@),
{
    let key = k256::ecdsa::SigningKey::from_slice(secret).unwrap();
    let digest = <k256::sha2::Sha256 as k256::sha2::Digest>::new_with_prefix(data);
    let signature: k256::ecdsa::Signature =
        k256::ecdsa::signature::DigestSigner::sign_digest(&key, digest);
    signature.to_bytes().into()
}

/// Calls `k256::ecdsa::SigningKey::verifying_key` and encodes the key in
/// compressed form.
#[verifier::external_body]
fn k256_derive(secret: &[u8; 32]) -> (r: [u8; 33])
    requires
        is_secret(secret@),
    ensures
        r@ == k256_public_key(secret@),
{
    let key = k256::ecdsa::SigningKey::from_slice(secret).unwrap();
    let point = key.verifying_key().to_encoded_point(true);
    point.as_bytes().try_into().unwrap()
}

/// Calls `verify_digest` of `k256::ecdsa::VerifyingKey` on a SHA-256 hasher that
/// was fed the data. The answer is no when the key or the signature does not
/// parse, and when the signature is not one of the data under the key.
#[verifier::external_body]
fn k256_verify(key: &[u8; 33], data: &[u8], signature: &[u8; 64]) -> (r: bool)
    ensures
        r == k256_verifies(key@, data@, signature@),
{
    let digest = <k256::sha2::Sha256 as k256::sha2::Digest>::new_with_prefix(data);
    let key = k256::ecdsa::VerifyingKey::from_sec1_bytes(key);
    let signature = k256::ecdsa::Signature::from_slice(signature);
    match (key, signature) {
        (Ok(key), Ok(signature)) => {
            k256::ecdsa::signature::DigestVerifier::verify_digest(&key, digest, &signature).is_ok()
        },
        _ => false,
    }
}

/// Calls `k256::sha2::Sha256::digest`.
#[verifier::external_body]
fn sha2_hash(data: &[u8]) -> (r: [u8; 32])
    ensures
        r@ == sha2_digest(data@),
{
    <k256::sha2::Sha256 as k256::sha2::Digest>::digest(data).into()
}

/// Calls `finalize` of `hmac::Hmac` with SHA-256 after the data was fed to it. A
/// key of any length is accepted.
#[verifier::external_body]
fn hmac_code(key: &[u8], data: &[u8]) -> (r: [u8; 32])
    ensures
        r@ == hmac_sha256(key@, data@),
{
    let hmac = <hmac::Hmac<k256::sha2::Sha256> as hmac::Mac>::new_from_slice(key).unwrap();
    hmac::Mac::finalize(hmac::Mac::chain_update(hmac, data)).into_bytes().into()
}

/// Calls `verify` of `hmac::Hmac` with SHA-256 after the data was fed to it,
/// which compares the code with the right one.
#[verifier::external_body]
fn hmac_check(key: &[u8], data: &[u8], code: &[u8; 32]) -> (r: bool)
    ensures
        r == (code@ == hmac_sha256(key@, data@)),
{
    let hmac = <hmac::Hmac<k256::sha2::Sha256> as hmac::Mac>::new_from_slice(key).unwrap();
    hmac::Mac::verify(hmac::Mac::chain_update(hmac, data), code.into()).is_ok()
}

/// A SHA-256 computation: what was fed to it so far.
#[derive(Debug)]
pub struct Sha256 {
    pub data: Vec<u8>,
}

impl Sha256 {
    pub fn new() -> (r: Self)
        ensures
            r.data@ == Seq::<u8>::empty(),
    {
        Sha256 { data: Vec::new() }
    }

    /// The hash of all that was fed.
    pub fn finalize(self) -> (r: [u8; 32])
        ensures
            r@ == sha2_digest(self.data@),
    {
        sha2_hash(self.data.as_slice())
    }
}

impl Clone for Sha256 {
    fn clone(&self) -> (r: Self)
        ensures
            r.data@ == self.data@,
    {
        Sha256 { data: self.data.clone() }
    }
}

/// An HMAC computation: its key, and what was fed to it so far.
#[derive(Debug)]
pub struct Hmac {
    pub key: Vec<u8>,
    pub data: Vec<u8>,
}

impl Hmac {
    pub fn new_from_slice(key: &[u8]) -> (r: Self)
        ensures
            r.key@ == key@,
            r.data@ == Seq::<u8>::empty(),
    {
        Hmac { key: vstd::slice::slice_to_vec(key), data: Vec::new() }
    }

    /// The code of all that was fed.
    pub fn finalize(self) -> (r: [u8; 32])
        ensures
            r@ == hmac_sha256(self.key@, self.data@),
    {
        hmac_code(self.key.as_slice(), self.data.as_slice())
    }

    /// Whether a code is that of all that was fed.
    pub fn verify(self, code: &[u8; 32]) -> (r: bool)
        ensures
            r <==> code@ == hmac_sha256(self.key@, self.data@),
    {
        hmac_check(self.key.as_slice(), self.data.as_slice(), code)
    }
}

impl Clone for Hmac {
    fn clone(&self) -> (r: Self)
        ensures
            r.key@ == self.key@,
            r.data@ == self.data@,
    {
        Hmac { key: self.key.clone(), data: self.data.clone() }
    }
}

/// What messages are hashed into.
#[derive(Debug)]
pub enum Hasher {
    Sha256(Sha256),
    Hmac(Hmac),
}

/// A hasher as its key, where it has one, and the bytes that were fed to it.
pub ghost struct HasherView {
    pub key: Option<Seq<u8>>,
    pub data: Seq<u8>,
}

impl View for Hasher {
    type V = HasherView;

    open spec fn view(&self) -> HasherView {
        match self {
            Hasher::Sha256(hasher) => HasherView { key: None, data: hasher.data@ },
            Hasher::Hmac(hasher) => HasherView { key: Some(hasher.key@), data: hasher.data@ },
        }
    }
}

impl HasherView {
    /// The hasher after more bytes.
    pub open spec fn fed(self, data: Seq<u8>) -> HasherView {
        HasherView { key: self.key, data: self.data + data }
    }
}

/// A message that can be hashed.
pub trait DigestHash {
    /// The bytes of the message that are hashed.
    spec fn hashed(&self) -> Seq<u8>;

    /// Feeds the message to a hasher.
    fn hash(&self, hasher: &mut Hasher)
        ensures
            final(hasher)@ == old(hasher)@.fed(self.hashed()),
    ;
}

/// The hashed bytes of messages, one after the other.
pub open spec fn hashed_all<T: DigestHash>(items: Seq<T>) -> Seq<u8>
    decreases items.len(),
{
    if items.len() == 0 {
        Seq::empty()
    } else {
        hashed_all(items.drop_last()) + items.last().hashed()
    }
}

impl<T: DigestHash> DigestHash for Vec<T> {
    open spec fn hashed(&self) -> Seq<u8> {
        hashed_all(self@)
    }

    fn hash(&self, hasher: &mut Hasher) {
        let mut i: usize = 0;
        let ghost before = hasher@;
        assert(before.fed(hashed_all(self@.take(0))) == before) by {
            assert(self@.take(0) =~= Seq::<T>::empty());
            assert(before.data + Seq::<u8>::empty() =~= before.data);
        }
        while i < self.len()
            invariant
                i <= self@.len(),
                hasher@ == before.fed(hashed_all(self@.take(i as int))),
            decreases self@.len() - i,
        {
            self[i].hash(hasher);
            assert(self@.take(i + 1).drop_last() =~= self@.take(i as int));
            assert(hasher@.data =~= before.fed(hashed_all(self@.take(i + 1))).data);
            i += 1;
        }
        assert(self@.take(i as int) =~= self@);
    }
}

impl DigestHash for Blob {
    open spec fn hashed(&self) -> Seq<u8> {
        self.0@
    }

    fn hash(&self, hasher: &mut Hasher) {
        hasher.update(self.0.as_slice());
    }
}

impl Hasher {
    pub fn update(&mut self, data: &[u8])
        ensures
            final(self)@ == old(self)@.fed(data@),
    {
        match self {
            Hasher::Sha256(hasher) => put_bytes(&mut hasher.data, data),
            Hasher::Hmac(hasher) => put_bytes(&mut hasher.data, data),
        }
    }

    pub fn chain_update(self, data: &[u8]) -> (r: Self)
        ensures
            r@ == self@.fed(data@),
    {
        let mut hasher = self;
        hasher.update(data);
        hasher
    }

    /// The SHA-256 computation for a message.
    pub fn sha256<M: DigestHash>(message: &M) -> (r: Sha256)
        ensures
            r.data@ == message.hashed(),
    {
        let mut digest = Sha256::new();
        Self::sha256_update(message, &mut digest);
        assert(digest.data@ =~= message.hashed());
        digest
    }

    /// Goes on with a SHA-256 computation for a message.
    pub fn sha256_update<M: DigestHash>(message: &M, digest: &mut Sha256)
        ensures
            final(digest).data@ == old(digest).data@ + message.hashed(),
    {
        let mut hasher = Hasher::Sha256(digest.clone());
        message.hash(&mut hasher);
        match hasher {
            Hasher::Sha256(new_digest) => {
                *digest = new_digest;
            },
            Hasher::Hmac(_) => {},
        }
    }

    /// The code of a message, after what was fed already.
    pub fn hmac<M: DigestHash>(message: &M, hmac: Hmac) -> (r: [u8; 32])
        ensures
            r@ == hmac_sha256(hmac.key@, hmac.data@ + message.hashed()),
    {
        Self::hmac_with(message, hmac).finalize()
    }

    fn hmac_with<M: DigestHash>(message: &M, hmac: Hmac) -> (r: Hmac)
        ensures
            r.key@ == hmac.key@,
            r.data@ == hmac.data@ + message.hashed(),
    {
        let ghost given = hmac;
        let mut hasher = Hasher::Hmac(hmac);
        message.hash(&mut hasher);
        match hasher {
            Hasher::Hmac(hmac) => hmac,
            Hasher::Sha256(_) => Hmac::new_from_slice(&[]),
        }
    }
}

/// What vouches for a message.
#[derive(Debug, Clone, Copy, PartialEq, Eq)]
pub enum Signature {
    Plain,
    SimulatedPrivate,
    SimulatedPublic,
    K256([u8; 64]),
    Hmac([u8; 32]),
}

impl Signature {
    /// The bytes of the signature that are hashed.
    pub open spec fn hashed(self) -> Seq<u8> {
        match self {
            Signature::K256(signature) => signature@,
            Signature::Hmac(code) => code@,
            _ => Seq::empty(),
        }
    }
}

/// A message with what vouches for it.
#[derive(Debug, PartialEq, Eq)]
pub struct Signed<M> {
    pub inner: M,
    pub signature: Signature,
}

impl<M: Clone> Clone for Signed<M> {
    fn clone(&self) -> (r: Self)
        ensures
            cloned(self.inner, r.inner),
            r.signature == self.signature,
    {
        Signed { inner: self.inner.clone(), signature: self.signature }
    }
}

impl<M: DigestHash> DigestHash for Signed<M> {
    open spec fn hashed(&self) -> Seq<u8> {
        self.inner.hashed() + self.signature.hashed()
    }

    fn hash(&self, hasher: &mut Hasher) {
        let ghost before = hasher@;
        self.inner.hash(hasher);
        match &self.signature {
            Signature::K256(signature) => hasher.update(signature.as_slice()),
            Signature::Hmac(code) => hasher.update(code.as_slice()),
            _ => {},
        }
        assert(hasher@.data =~= before.fed(self.hashed()).data);
    }
}

/// A secret key for public signatures.
#[derive(Debug, Clone, Copy, PartialEq, Eq)]
pub struct SigningKey {
    secret: [u8; 32],
}

impl SigningKey {
    #[verifier::type_invariant]
    spec fn inv(self) -> bool {
        is_secret(self.secret@)
    }

    /// The big-endian bytes of the secret scalar.
    pub closed spec fn secret(self) -> Seq<u8> {
        self.secret@
    }

    pub fn from_bytes(secret: &[u8; 32]) -> (r: Result<SigningKey, Error>)
        ensures
            match r {
                Ok(key) => is_secret(secret@) && key.secret() == secret@,
                Err(e) => e == Error::SecretKey && !is_secret(secret@),
            },
    {
        if k256_check_secret(secret) {
            Ok(SigningKey { secret: *secret })
        } else {
            Err(Error::SecretKey)
        }
    }

    /// The public key that verifies what this key signs.
    pub fn verifying_key(&self) -> (r: VerifyingKey)
        ensures
            r@ == k256_public_key(self.secret()),
    {
        proof {
            use_type_invariant(self);
        }
        VerifyingKey { key: k256_derive(&self.secret) }
    }

    /// Signs what was fed to a SHA-256 computation.
    pub fn sign_digest(&self, digest: Sha256) -> (r: [u8; 64])
        ensures
            r@ == k256_signature(self.secret(), digest.data@),
            k256_verifies(k256_public_key(self.secret()), digest.data@, r@),
    {
        proof {
            use_type_invariant(self);
        }
        k256_sign(&self.secret, digest.data.as_slice())
    }
}

/// A public key.
#[derive(Debug, Clone, Copy, PartialEq, Eq)]
pub struct VerifyingKey {
    key: [u8; 33],
}

impl View for VerifyingKey {
    type V = Seq<u8>;

    /// The compressed form of the key.
    closed spec fn view(&self) -> Seq<u8> {
        self.key@
    }
}

impl VerifyingKey {
    /// Whether a signature is one of what was fed to a SHA-256 computation.
    pub fn verify_digest(&self, digest: Sha256, signature: &[u8; 64]) -> (r: bool)
        ensures
            r == k256_verifies(self@, digest.data@, signature@),
    {
        k256_verify(&self.key, digest.data.as_slice(), signature)
    }
}

/// A text as the bytes of a key: in ASCII, with zeros up to 32 bytes.
pub open spec fn padded(text: Seq<char>) -> Seq<u8> {
    Seq::new(
        32,
        |i: int|
            if i < text.len() {
                text[i] as u8
            } else {
                0u8
            },
    )
}

proof fn lemma_big_endian_bounds(s: Seq<u8>)
    requires
        s.len() > 0,
    ensures
        s[0] * pow256((s.len() - 1) as nat) <= big_endian(s) < (s[0] + 1) * pow256(
            (s.len() - 1) as nat,
        ),
    decreases s.len(),
{
    let n = (s.len() - 1) as nat;
    if n == 0 {
        assert(s.drop_last() =~= Seq::<u8>::empty());
        reveal_with_fuel(big_endian, 2);
        assert(big_endian(s) == s[0]);
        let (c, q) = (s[0] as int, pow256(0) as int);
        assert(c * q == c && (c + 1) * q == c + 1) by (nonlinear_arith)
            requires
                q == 1,
        ;
    } else {
        let t = s.drop_last();
        lemma_big_endian_bounds(t);
        let (p, b, c) = (pow256((n - 1) as nat) as int, big_endian(t) as int, s[0] as int);
        assert(c * (256 * p) <= 256 * b && 256 * b + 255 < (c + 1) * (256 * p))
            by (nonlinear_arith)
            requires
                c * p <= b,
                b < (c + 1) * p,
        ;
        assert(t[0] == s[0] && (t.len() - 1) as nat == (n - 1) as nat);
        assert(pow256(n) == 256 * p);
        assert(big_endian(s) == 256 * b + s.last());
    }
}

/// Every 32 bytes with a first one that is neither zero nor the largest are a
/// secret key.
proof fn lemma_is_secret(s: Seq<u8>)
    requires
        s.len() == 32,
        0 < s[0] < 255,
    ensures
        is_secret(s),
{
    lemma_big_endian_bounds(s);
    reveal_with_fuel(pow256, 32);
    let p = pow256(31);
    assert(p == 0x1_00000000_00000000_00000000_00000000_00000000_00000000_00000000_000000nat);
    let c = s[0] as int;
    assert(1 * p <= c * p && (c + 1) * p <= 255 * p) by (nonlinear_arith)
        requires
            1 <= c <= 254,
            p >= 0,
    ;
}

proof fn lemma_decimal_short(n: nat)
    requires
        n < 1000,
    ensures
        1 <= decimal(n).len() <= 3,
        forall|i: int| 0 <= i < decimal(n).len() ==> '\0' < #[trigger] decimal(n)[i] <= '\u{7f}',
{
    reveal_with_fuel(decimal, 3);
}

/// The secret of the key that is named by a prefix and a number.
pub(crate) fn named_secret(prefix: &str, index: u8) -> (r: [u8; 32])
    requires
        1 <= prefix@.len() <= 29,
        forall|i: int| 0 <= i < prefix@.len() ==> '\0' < #[trigger] prefix@[i] <= '\u{7f}',
    ensures
        r@ == padded(prefix@ + decimal(index as nat)),
        is_secret(r@),
{
    let k = numbered(prefix, index as u64);
    proof {
        lemma_decimal_short(index as nat);
        assert forall|i: int| 0 <= i < k@.len() implies '\0' <= #[trigger] k@[i] <= '\u{7f}' by {
            if i < prefix@.len() {
                assert(k@[i] == prefix@[i]);
            } else {
                assert(k@[i] == decimal(index as nat)[i - prefix@.len()]);
            }
        }
    }
    let text = k.as_str();
    let bytes = text.as_bytes();
    assert(vstd::string::is_ascii(text));
    proof {
        vstd::string::is_ascii_spec_bytes(text);
    }
    let mut buf: [u8; 32] = [0u8; 32];
    let mut i: usize = 0;
    while i < bytes.len()
        invariant
            i <= bytes@.len() <= 32,
            forall|j: int| 0 <= j < i ==> buf@[j] == bytes@[j],
            forall|j: int| i <= j < 32 ==> buf@[j] == 0,
        decreases bytes@.len() - i,
    {
        buf[i] = bytes[i];
        i += 1;
    }
    assert(buf@ =~= padded(k@));
    proof {
        assert(k@[0] == prefix@[0]);
        lemma_is_secret(buf@);
    }
    buf
}

/// The key that is named by a prefix and a number.
pub(crate) fn named_key(prefix: &str, index: u8) -> (r: SigningKey)
    requires
        1 <= prefix@.len() <= 29,
        forall|i: int| 0 <= i < prefix@.len() ==> '\0' < #[trigger] prefix@[i] <= '\u{7f}',
    ensures
        r.secret() == padded(prefix@ + decimal(index as nat)),
{
    SigningKey::from_bytes(&named_secret(prefix, index)).unwrap()
}

/// The key of a replica in a setup where keys are known beforehand.
pub fn hardcoded_k256(index: ReplicaIndex) -> (r: SigningKey)
    ensures
        r.secret() == padded("hardcoded-"@ + decimal(index as nat)),
{
    proof {
        reveal_strlit("hardcoded-");
    }
    named_key("hardcoded-", index)
}

/// The bytes of the key that all share.
pub open spec fn shared_key() -> Seq<u8> {
    seq![115u8, 104, 97, 114, 101, 100]
}

/// The computation of codes under the key that all share.
pub fn hardcoded_hmac() -> (r: Hmac)
    ensures
        r.key@ == shared_key(),
        r.data@ == Seq::<u8>::empty(),
{
    let text = "shared";
    proof {
        reveal_strlit("shared");
        assert(vstd::string::is_ascii(text));
        vstd::string::is_ascii_spec_bytes(text);
    }
    let r = Hmac::new_from_slice(text.as_bytes());
    assert(r.key@ =~= shared_key());
    r
}

/// What signs messages.
#[derive(Debug)]
pub enum Signer {
    Simulated,
    Standard(Box<StandardSigner>),
}

#[derive(Debug)]
pub struct StandardSigner {
    pub signing_key: Option<SigningKey>,
    pub hmac: Hmac,
}

impl Signer {
    /// A signer with a key for public signatures, if it has one, and the shared
    /// key for private ones.
    pub fn new_standard(signing_key: Option<SigningKey>) -> (r: Self)
        ensures
            r matches Signer::Standard(signer) && signer.signing_key == signing_key
                && signer.hmac.key@ == shared_key() && signer.hmac.data@ == Seq::<u8>::empty(),
    {
        Signer::Standard(Box::new(StandardSigner { signing_key, hmac: hardcoded_hmac() }))
    }

    /// Signs a message for anyone to verify.
    pub fn sign_public<M: DigestHash>(&self, message: M) -> (r: Signed<M>)
        requires
            self matches Signer::Standard(signer) ==> signer.signing_key is Some,
        ensures
            r.inner == message,
            match self {
                Signer::Simulated => r.signature == Signature::SimulatedPublic,
                Signer::Standard(signer) => is_public_signature(
                    signer.signing_key.unwrap(),
                    message.hashed(),
                    r.signature,
                ),
            },
    {
        match self {
            Signer::Simulated => Signed { inner: message, signature: Signature::SimulatedPublic },
            Signer::Standard(signer) => signer.sign_public(message),
        }
    }

    /// Signs a message for those who share a key.
    pub fn sign_private<M: DigestHash>(&self, message: M) -> (r: Signed<M>)
        ensures
            r.inner == message,
            match self {
                Signer::Simulated => r.signature == Signature::SimulatedPrivate,
                Signer::Standard(signer) => is_private_signature(
                    signer.hmac,
                    message.hashed(),
                    r.signature,
                ),
            },
    {
        match self {
            Signer::Simulated => Signed { inner: message, signature: Signature::SimulatedPrivate },
            Signer::Standard(signer) => signer.sign_private(message),
        }
    }
}

/// Whether a signature is the public one of hashed data under a key.
pub open spec fn is_public_signature(key: SigningKey, data: Seq<u8>, signature: Signature) -> bool {
    signature matches Signature::K256(bytes) && bytes@ == k256_signature(key.secret(), data)
        && k256_verifies(k256_public_key(key.secret()), data, bytes@)
}

/// Whether a signature is the private one of hashed data.
pub open spec fn is_private_signature(hmac: Hmac, data: Seq<u8>, signature: Signature) -> bool {
    signature matches Signature::Hmac(code) && code@ == hmac_sha256(hmac.key@, hmac.data@ + data)
}

impl StandardSigner {
    fn sign_public<M: DigestHash>(&self, message: M) -> (r: Signed<M>)
        requires
            self.signing_key is Some,
        ensures
            r.inner == message,
            is_public_signature(self.signing_key.unwrap(), message.hashed(), r.signature),
    {
        let digest = Hasher::sha256(&message);
        let key = self.signing_key.unwrap();
        Signed { inner: message, signature: Signature::K256(key.sign_digest(digest)) }
    }

    fn sign_private<M: DigestHash>(&self, message: M) -> (r: Signed<M>)
        ensures
            r.inner == message,
            is_private_signature(self.hmac, message.hashed(), r.signature),
    {
        let code = Hasher::hmac(&message, self.hmac.clone());
        Signed { inner: message, signature: Signature::Hmac(code) }
    }
}

/// Why a message is not to be trusted.
#[derive(Debug, Clone, Copy, PartialEq, Eq, Structural)]
pub enum Invalid {
    /// Its public signature is wrong.
    Public,
    /// Its private signature is wrong.
    Private,
}

/// What verifies the messages of parties that are known by an index.
#[derive(Debug)]
pub enum Verifier<I> {
    Nop,
    Simulated,
    Standard(Box<StandardVerifier<I>>),
}

#[derive(Debug)]
pub struct StandardVerifier<I> {
    pub verifying_keys: HashMap<I, VerifyingKey>,
    pub hmac: Hmac,
}

impl<I> Verifier<I> {
    /// A verifier without public keys, and with the shared key.
    pub fn new_standard() -> (r: Self)
        ensures
            r matches Verifier::Standard(verifier) && verifier.verifying_keys@ == Map::<
                I,
                VerifyingKey,
            >::empty() && verifier.hmac.key@ == shared_key() && verifier.hmac.data@ == Seq::<
                u8,
            >::empty(),
    {
        Verifier::Standard(
            Box::new(StandardVerifier { verifying_keys: HashMap::new(), hmac: hardcoded_hmac() }),
        )
    }
}

impl<I: Hash + Eq> Verifier<I> {
    /// Whether the verifier can decide on a signature: it knows of that sort of
    /// signatures, and has the public key for a public one.
    pub open spec fn decides(&self, signature: Signature, index: Option<I>) -> bool {
        match (self, signature) {
            (Verifier::Nop, _) => true,
            (Verifier::Simulated, Signature::SimulatedPrivate) => true,
            (Verifier::Simulated, Signature::SimulatedPublic) => true,
            (Verifier::Simulated, _) => false,
            (Verifier::Standard(verifier), Signature::K256(_)) => index matches Some(i)
                && verifier.verifying_keys@.contains_key(i),
            (Verifier::Standard(_), Signature::Hmac(_)) => true,
            (Verifier::Standard(_), _) => false,
        }
    }

    /// What the verifier says of a signature of hashed data.
    pub open spec fn verdict(
        &self,
        data: Seq<u8>,
        signature: Signature,
        index: Option<I>,
    ) -> Result<(), Invalid> {
        match (self, signature) {
            (Verifier::Standard(verifier), Signature::K256(bytes)) => if k256_verifies(
                verifier.verifying_keys@[index.unwrap()]@,
                data,
                bytes@,
            ) {
                Ok(())
            } else {
                Err(Invalid::Public)
            },
            (Verifier::Standard(verifier), Signature::Hmac(code)) => if code@ == hmac_sha256(
                verifier.hmac.key@,
                verifier.hmac.data@ + data,
            ) {
                Ok(())
            } else {
                Err(Invalid::Private)
            },
            _ => Ok(()),
        }
    }

    /// Adds the public key of a party that has none yet.
    pub fn insert_verifying_key(&mut self, index: I, verifying_key: VerifyingKey)
        requires
            vstd::std_specs::hash::obeys_key_model::<I>(),
            match *old(self) {
                Verifier::Nop => true,
                Verifier::Simulated => false,
                Verifier::Standard(verifier) => !verifier.verifying_keys@.contains_key(index),
            },
        ensures
            match (*old(self), *final(self)) {
                (Verifier::Nop, Verifier::Nop) => true,
                (Verifier::Standard(before), Verifier::Standard(after)) => {
                    &&& after.verifying_keys@ == before.verifying_keys@.insert(index, verifying_key)
                    &&& after.hmac == before.hmac
                },
                _ => false,
            },
    {
        match self {
            Verifier::Nop => {},
            Verifier::Simulated => {},
            Verifier::Standard(verifier) => {
                verifier.verifying_keys.insert(index, verifying_key);
            },
        }
    }

    /// Verifies the signature of a message, by the party `index` if it is a
    /// public one.
    pub fn verify<M: DigestHash>(&self, message: &Signed<M>, index: Option<I>) -> (r: Result<
        (),
        Invalid,
    >)
        requires
            vstd::std_specs::hash::obeys_key_model::<I>(),
            self.decides(message.signature, index),
        ensures
            r == self.verdict(message.inner.hashed(), message.signature, index),
    {
        match self {
            Verifier::Nop => Ok(()),
            Verifier::Simulated => Ok(()),
            Verifier::Standard(verifier) => match &message.signature {
                Signature::K256(signature) => {
                    let digest = Hasher::sha256(&message.inner);
                    let key = verifier.verifying_keys.get(&index.unwrap()).unwrap();
                    if key.verify_digest(digest, signature) {
                        Ok(())
                    } else {
                        Err(Invalid::Public)
                    }
                },
                Signature::Hmac(code) => {
                    let hmac = Hasher::hmac_with(&message.inner, verifier.hmac.clone());
                    if hmac.verify(code) {
                        Ok(())
                    } else {
                        Err(Invalid::Private)
                    }
                },
                _ => Ok(()),
            },
        }
    }

    /// Verifies a message that a sequencer has ordered, given what the
    /// sequencer's own scheme says of it.
    pub fn verify_ordered_multicast(&self, variant: Result<(), Invalid>) -> (r: Result<(), Invalid>)
        requires
            !(self is Simulated),
        ensures
            r == if self is Nop {
                Ok(())
            } else {
                variant
            },
    {
        match self {
            Verifier::Nop => Ok(()),
            _ => variant,
        }
    }
}

/// A message that is turned into a signed one.
pub trait Sign<M>: Sized {
    fn sign(message: M, signer: &Signer) -> Self;
}

/// A message that the signed one can be made from is turned into it unsigned.
impl<M, N: Into<M>> Sign<N> for M {
    fn sign(message: N, _signer: &Signer) -> (r: Self)
        ensures
            <N as IntoSpec<M>>::obeys_into_spec() ==> r == <N as IntoSpec<M>>::into_spec(message),
    {
        message.into()
    }
}

/// A message whose signatures can be verified.
pub trait Verify<I> {
    fn verify(&self, verifier: &Verifier<I>) -> Result<(), Invalid>;
}

/// Whether a verifier has the public key of a signing key for a party.
pub open spec fn has_key_of<I: Hash + Eq>(verifier: Verifier<I>, index: I, key: SigningKey) -> bool {
    verifier matches Verifier::Standard(v) && v.verifying_keys@.contains_key(index)
        && v.verifying_keys@[index]@ == k256_public_key(key.secret())
}

/// What a key signs, its public key verifies: a publicly signed message passes
/// a verifier that has the signer's public key.
pub proof fn law_public_signature_verifies<I: Hash + Eq>(
    key: SigningKey,
    verifier: Verifier<I>,
    index: I,
    data: Seq<u8>,
    signature: Signature,
)
    requires
        verifier is Standard,
    ensures
        is_public_signature(key, data, signature) && has_key_of(verifier, index, key) ==> {
            &&& verifier.decides(signature, Some(index))
            &&& verifier.verdict(data, signature, Some(index)) == Ok::<(), Invalid>(())
        },
{
}

/// A private signature verifies for whoever shares the key, and a code that
/// differs from it does not.
pub proof fn law_private_signature_verifies<I: Hash + Eq>(
    hmac: Hmac,
    verifier: Verifier<I>,
    data: Seq<u8>,
    signature: Signature,
    other: [u8; 32],
)
    requires
        verifier matches Verifier::Standard(v) && v.hmac.key@ == hmac.key@ && v.hmac.data@
            == hmac.data@,
    ensures
        is_private_signature(hmac, data, signature) ==> {
            &&& verifier.verdict(data, signature, None) == Ok::<(), Invalid>(())
            &&& Signature::Hmac(other).hashed() != signature.hashed() ==> verifier.verdict(
                data,
                Signature::Hmac(other),
                None,
            ) == Err::<(), Invalid>(Invalid::Private)
        },
{
}

} // verus!
