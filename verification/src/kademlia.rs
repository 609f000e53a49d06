//! Lookup of the peers that are closest to a location.

use vstd::prelude::*;

use crate::addr::{socket, socket_at, Addr, AddrView, IpAddr, SocketAddr};
use crate::crypto::{
    digest, is_public_key, law_packet_round_trip, sha256, Packet, PacketView, Signer, Verifier,
};
use crate::error::Error;
use crate::transport::SendTo;
use crate::wire::{is_encoded, put_bytes, same_bytes, take_array, take_u8, Encode, Format};

pub mod laws;
pub mod setup;

verus! {

pub type PeerId = [u8; 32];

pub type Location = [u8; 32];

/// The public key by which a peer is known.
#[derive(Debug, Clone, Copy, PartialEq, Eq)]
pub struct PeerKey(pub Verifier);

impl View for PeerKey {
    type V = Seq<u8>;

    open spec fn view(&self) -> Seq<u8> {
        self.0@
    }
}

impl DeepView for PeerKey {
    type V = Seq<u8>;

    open spec fn deep_view(&self) -> Seq<u8> {
        self@
    }
}

impl Format for PeerKey {
    open spec fn encodable(v: Seq<u8>) -> bool {
        is_public_key(v)
    }

    open spec fn encoding(v: Seq<u8>) -> Seq<u8> {
        v
    }
}

impl Encode for PeerKey {
    proof fn encoding_prefix(a: Seq<u8>, ra: Seq<u8>, b: Seq<u8>, rb: Seq<u8>) {
        crate::wire::lemma_append_cancel(a, ra, b, rb);
    }

    fn put(&self, out: &mut Vec<u8>) -> (r: Result<(), Error>) {
        put_bytes(out, self.0.serialize().as_slice());
        Ok(())
    }

    fn take<'a>(bytes: &'a [u8]) -> (r: Option<(Self, &'a [u8])>) {
        match take_array::<33>(bytes) {
            Some((key, rest)) => match Verifier::from_slice(key.as_slice()) {
                Ok(verifier) => Some((PeerKey(verifier), rest)),
                Err(_) => {
                    assert forall|v: Seq<u8>, tail: Seq<u8>| !#[trigger] is_encoded::<Self>(
                        bytes@,
                        v,
                        tail,
                    ) by {
                        if is_encoded::<Self>(bytes@, v, tail) {
                            crate::wire::lemma_append_cancel(v, tail, key@, rest@);
                        }
                    }
                    None
                },
            },
            None => None,
        }
    }
}

impl PeerKey {
    /// Whether two keys are the same.
    pub fn same(&self, other: &PeerKey) -> (r: bool)
        ensures
            r <==> self@ == other@,
    {
        same_bytes(self.0.serialize().as_slice(), other.0.serialize().as_slice())
    }

    /// The identifier of the peer: the digest of its key.
    pub fn id(&self) -> (r: PeerId)
        ensures
            r@ == sha256(self@),
    {
        let _ = self.0.serialize();
        digest(self).unwrap()
    }
}

/// The bytewise exclusive or.
pub open spec fn xor_bytes(a: Seq<u8>, b: Seq<u8>) -> Seq<u8> {
    Seq::new(a.len(), |i: int| a[i] ^ b[i])
}

/// The integer with the little-endian bytes `s`.
pub open spec fn little_endian(s: Seq<u8>) -> nat
    decreases s.len(),
{
    if s.len() == 0 {
        0
    } else {
        s.first() as nat + 256 * little_endian(s.drop_first())
    }
}

/// How far an identifier is from a location.
pub open spec fn distance_of(id: Seq<u8>, target: Seq<u8>) -> nat {
    little_endian(xor_bytes(id, target))
}

/// A 256-bit distance as its high and its low half.
#[derive(Debug, Clone, Copy, PartialEq, Eq, Structural)]
pub struct Distance {
    pub high: u128,
    pub low: u128,
}

impl Distance {
    pub open spec fn value(self) -> nat {
        (self.high * 0x1_0000_0000_0000_0000_0000_0000_0000_0000nat + self.low) as nat
    }

    pub fn is_below(&self, other: &Distance) -> (r: bool)
        ensures
            r <==> self.value() < other.value(),
    {
        self.high < other.high || (self.high == other.high && self.low < other.low)
    }

    pub fn is_same(&self, other: &Distance) -> (r: bool)
        ensures
            r <==> self.value() == other.value(),
    {
        self.high == other.high && self.low == other.low
    }
}

/// Calls the `^` of `ethnum::U256` on two integers that come from their
/// little-endian bytes, and splits the outcome in its two words. The outcome is
/// the integer whose bytes are those of the two, combined one by one.
#[verifier::external_body]
fn u256_xor(a: &[u8; 32], b: &[u8; 32]) -> (r: (u128, u128))
    ensures
        (Distance { high: r.0, low: r.1 }).value() == little_endian(xor_bytes(a@, b@)),
{
    (ethnum::U256::from_le_bytes(*a) ^ ethnum::U256::from_le_bytes(*b)).into_words()
}

/// How far an identifier is from a location.
pub fn distance(id: &PeerId, target: &Location) -> (r: Distance)
    ensures
        r.value() == distance_of(id@, target@),
{
    let (high, low) = u256_xor(id, target);
    Distance { high, low }
}

proof fn lemma_little_endian_injective(a: Seq<u8>, b: Seq<u8>)
    requires
        a.len() == b.len(),
        little_endian(a) == little_endian(b),
    ensures
        a == b,
    decreases a.len(),
{
    if a.len() > 0 {
        let (x, y) = (little_endian(a.drop_first()), little_endian(b.drop_first()));
        assert(a.first() as nat + 256 * x == b.first() as nat + 256 * y);
        assert(a.first() == b.first());
        lemma_little_endian_injective(a.drop_first(), b.drop_first());
        assert(a =~= seq![a.first()] + a.drop_first());
        assert(b =~= seq![b.first()] + b.drop_first());
    } else {
        assert(a =~= b);
    }
}

/// Only one identifier is at each distance from a location.
pub proof fn law_distance_is_injective(a: Seq<u8>, b: Seq<u8>, target: Seq<u8>)
    requires
        a.len() == 32,
        b.len() == 32,
        target.len() == 32,
        distance_of(a, target) == distance_of(b, target),
    ensures
        a == b,
{
    let (x, y) = (xor_bytes(a, target), xor_bytes(b, target));
    lemma_little_endian_injective(x, y);
    assert forall|i: int| 0 <= i < 32 implies a[i] == b[i] by {
        assert(x[i] == y[i]);
        let (p, q, t) = (a[i], b[i], target[i]);
        assert((p ^ t) == (q ^ t) ==> p == q) by (bit_vector);
    }
    assert(a =~= b);
}

/// A peer is at distance zero from its own location, and from no other.
pub proof fn law_distance_to_self_is_zero(id: Seq<u8>, target: Seq<u8>)
    requires
        id.len() == 32,
        target.len() == 32,
    ensures
        distance_of(id, target) == 0 <==> id == target,
{
    let zeros = xor_bytes(id, id);
    assert forall|i: int| 0 <= i < 32 implies zeros[i] == 0 by {
        let p = id[i];
        assert(p ^ p == 0) by (bit_vector);
    }
    lemma_zeros(zeros);
    if distance_of(id, target) == 0 {
        let swapped = xor_bytes(target, id);
        assert forall|i: int| 0 <= i < 32 implies swapped[i] == xor_bytes(id, target)[i] by {
            let (p, q) = (id[i], target[i]);
            assert(p ^ q == q ^ p) by (bit_vector);
        }
        assert(swapped =~= xor_bytes(id, target));
        law_distance_is_injective(target, id, id);
    }
}

proof fn lemma_zeros(s: Seq<u8>)
    requires
        forall|i: int| 0 <= i < s.len() ==> s[i] == 0,
    ensures
        little_endian(s) == 0,
    decreases s.len(),
{
    if s.len() > 0 {
        lemma_zeros(s.drop_first());
    }
}

/// What peers send to each other.
#[derive(Debug, PartialEq, Eq)]
pub enum Message {
    FindPeer(Packet),
    FindPeerOk(Packet),
}

pub ghost enum MessageView {
    FindPeer(PacketView),
    FindPeerOk(PacketView),
}

impl View for Message {
    type V = MessageView;

    open spec fn view(&self) -> MessageView {
        match self {
            Message::FindPeer(packet) => MessageView::FindPeer(packet@),
            Message::FindPeerOk(packet) => MessageView::FindPeerOk(packet@),
        }
    }
}

impl MessageView {
    pub open spec fn wf(self) -> bool {
        match self {
            MessageView::FindPeer(packet) => packet.wf(),
            MessageView::FindPeerOk(packet) => packet.wf(),
        }
    }

    /// The wire form: a tag, then the packet.
    pub open spec fn bytes(self) -> Seq<u8> {
        match self {
            MessageView::FindPeer(packet) => seq![0u8] + packet.bytes(),
            MessageView::FindPeerOk(packet) => seq![1u8] + packet.bytes(),
        }
    }
}

impl Message {
    /// The wire form of the message.
    pub fn to_vec(&self) -> (r: Vec<u8>)
        ensures
            r@ == self@.bytes(),
    {
        let mut out: Vec<u8> = Vec::new();
        match self {
            Message::FindPeer(packet) => {
                out.push(0);
                packet.serialize(&mut out);
            },
            Message::FindPeerOk(packet) => {
                out.push(1);
                packet.serialize(&mut out);
            },
        }
        assert(out@ =~= self@.bytes());
        out
    }

    /// The message with the wire form `bytes`.
    pub fn from_slice(bytes: &[u8]) -> (r: Result<Message, Error>)
        ensures
            match r {
                Ok(message) => message@.wf() && bytes@ == message@.bytes(),
                Err(e) => e == Error::Decoding && forall|v: MessageView|
                    v.wf() ==> bytes@ != #[trigger] v.bytes(),
            },
    {
        let (tag, rest) = match take_u8(bytes) {
            Some(r) => r,
            None => return Err(Error::Decoding),
        };
        proof {
            assert forall|v: MessageView| v.wf() && bytes@ == #[trigger] v.bytes() implies {
                &&& v is FindPeer ==> tag == 0 && rest@ == v->FindPeer_0.bytes()
                &&& v is FindPeerOk ==> tag == 1 && rest@ == v->FindPeerOk_0.bytes()
            } by {
                assert(v.bytes()[0] == bytes@[0]);
                assert(v.bytes().skip(1) =~= rest@);
                match v {
                    MessageView::FindPeer(packet) => {
                        assert(v.bytes().skip(1) =~= packet.bytes());
                    },
                    MessageView::FindPeerOk(packet) => {
                        assert(v.bytes().skip(1) =~= packet.bytes());
                    },
                }
            }
        }
        if tag > 1 {
            return Err(Error::Decoding);
        }
        match Packet::deserialize_reader(rest) {
            Ok(packet) => if tag == 0 {
                Ok(Message::FindPeer(packet))
            } else {
                Ok(Message::FindPeerOk(packet))
            },
            Err(e) => Err(e),
        }
    }
}

/// Reading a message gives back the one that was written.
pub proof fn law_message_round_trip(written: MessageView, read: MessageView)
    requires
        written.wf(),
        read.wf(),
        read.bytes() == written.bytes(),
    ensures
        read == written,
{
    assert(read.bytes()[0] == written.bytes()[0]);
    assert(written.bytes()[0] == 0 <==> written is FindPeer);
    assert(read.bytes()[0] == 0 <==> read is FindPeer);
    match written {
        MessageView::FindPeer(a) => {
            let b = read->FindPeer_0;
            assert(written.bytes().skip(1) =~= a.bytes());
            assert(read.bytes().skip(1) =~= b.bytes());
            law_packet_round_trip(a, b);
        },
        MessageView::FindPeerOk(a) => {
            let b = read->FindPeerOk_0;
            assert(written.bytes().skip(1) =~= a.bytes());
            assert(read.bytes().skip(1) =~= b.bytes());
            law_packet_round_trip(a, b);
        },
    }
}

/// Asks a peer for the peers that it knows closest to a location.
#[derive(Debug, Clone, Copy, PartialEq, Eq)]
pub struct FindPeer {
    pub target: Location,
    pub peer_key: PeerKey,
}

pub ghost struct FindPeerView {
    pub target: Seq<u8>,
    pub peer_key: Seq<u8>,
}

impl View for FindPeer {
    type V = FindPeerView;

    open spec fn view(&self) -> FindPeerView {
        FindPeerView { target: self.target@, peer_key: self.peer_key@ }
    }
}

impl DeepView for FindPeer {
    type V = FindPeerView;

    open spec fn deep_view(&self) -> FindPeerView {
        self@
    }
}

impl Format for FindPeer {
    open spec fn encodable(v: FindPeerView) -> bool {
        v.target.len() == 32 && PeerKey::encodable(v.peer_key)
    }

    open spec fn encoding(v: FindPeerView) -> Seq<u8> {
        v.target + PeerKey::encoding(v.peer_key)
    }
}

impl Encode for FindPeer {
    proof fn encoding_prefix(a: FindPeerView, ra: Seq<u8>, b: FindPeerView, rb: Seq<u8>) {
        <([u8; 32], PeerKey)>::encoding_prefix(
            (a.target, a.peer_key),
            ra,
            (b.target, b.peer_key),
            rb,
        );
    }

    fn put(&self, out: &mut Vec<u8>) -> (r: Result<(), Error>) {
        let ghost before = out@;
        put_bytes(out, self.target.as_slice());
        match self.peer_key.put(out) {
            Ok(_) => {},
            Err(e) => return Err(e),
        }
        assert(out@ =~= before + Self::encoding(self.deep_view()));
        Ok(())
    }

    fn take<'a>(bytes: &'a [u8]) -> (r: Option<(Self, &'a [u8])>) {
        match <([u8; 32], PeerKey)>::take(bytes) {
            Some(((target, peer_key), rest)) => {
                assert(target.deep_view() =~= target@);
                Some((FindPeer { target, peer_key }, rest))
            },
            None => {
                assert forall|v: FindPeerView, rest: Seq<u8>| !#[trigger] is_encoded::<Self>(
                    bytes@,
                    v,
                    rest,
                ) by {
                    assert(!is_encoded::<([u8; 32], PeerKey)>(
                        bytes@,
                        (v.target, v.peer_key),
                        rest,
                    ));
                }
                None
            },
        }
    }
}

/// What a peer says of another one. In a well-formed record the identifier is
/// that of the key.
#[derive(Debug)]
pub struct PeerRecord {
    pub id: PeerId,
    pub key: PeerKey,
    pub addr: Addr,
}

pub ghost struct PeerRecordView {
    pub id: Seq<u8>,
    pub key: Seq<u8>,
    pub addr: AddrView,
}

impl View for PeerRecord {
    type V = PeerRecordView;

    open spec fn view(&self) -> PeerRecordView {
        PeerRecordView { id: self.id@, key: self.key@, addr: self.addr@ }
    }
}

impl DeepView for PeerRecord {
    type V = PeerRecordView;

    /// What is written of the record.
    open spec fn deep_view(&self) -> PeerRecordView {
        PeerRecordView { id: self.id@, key: self.key@, addr: self.addr.deep_view() }
    }
}

/// Records as their views.
pub open spec fn views(records: Seq<PeerRecord>) -> Seq<PeerRecordView> {
    records.map_values(|record: PeerRecord| record@)
}

impl Clone for PeerRecord {
    fn clone(&self) -> (r: Self)
        ensures
            r@ == self@,
    {
        PeerRecord { id: self.id, key: self.key, addr: self.addr.clone() }
    }
}

impl Format for PeerRecord {
    open spec fn encodable(v: PeerRecordView) -> bool {
        v.id.len() == 32 && PeerKey::encodable(v.key) && Addr::encodable(v.addr)
    }

    open spec fn encoding(v: PeerRecordView) -> Seq<u8> {
        v.id + (PeerKey::encoding(v.key) + Addr::encoding(v.addr))
    }
}

impl Encode for PeerRecord {
    proof fn encoding_prefix(a: PeerRecordView, ra: Seq<u8>, b: PeerRecordView, rb: Seq<u8>) {
        <([u8; 32], (PeerKey, Addr))>::encoding_prefix(
            (a.id, (a.key, a.addr)),
            ra,
            (b.id, (b.key, b.addr)),
            rb,
        );
    }

    fn put(&self, out: &mut Vec<u8>) -> (r: Result<(), Error>) {
        let ghost before = out@;
        put_bytes(out, self.id.as_slice());
        match self.key.put(out) {
            Ok(_) => {},
            Err(e) => return Err(e),
        }
        match self.addr.put(out) {
            Ok(_) => {},
            Err(e) => return Err(e),
        }
        assert(out@ =~= before + Self::encoding(self.deep_view()));
        Ok(())
    }

    open spec fn is_plain(&self) -> bool {
        self@ == self.deep_view()
    }

    fn take<'a>(bytes: &'a [u8]) -> (r: Option<(Self, &'a [u8])>)
        ensures
            r matches Some((v, _)) ==> v@ == v.deep_view(),
    {
        match <([u8; 32], (PeerKey, Addr))>::take(bytes) {
            Some(((id, (key, addr)), rest)) => {
                assert(id.deep_view() =~= id@);
                Some((PeerRecord { id, key, addr }, rest))
            },
            None => {
                assert forall|v: PeerRecordView, rest: Seq<u8>| !#[trigger] is_encoded::<Self>(
                    bytes@,
                    v,
                    rest,
                ) by {
                    assert(!is_encoded::<([u8; 32], (PeerKey, Addr))>(
                        bytes@,
                        (v.id, (v.key, v.addr)),
                        rest,
                    ));
                }
                None
            },
        }
    }
}

/// The first port of the peers of a host.
pub const FIRST_PORT: u16 = 20000;

impl PeerRecord {
    /// The record of a peer that has a key, at an address.
    pub fn new(key: PeerKey, addr: Addr) -> (r: Self)
        ensures
            r.id@ == sha256(key@),
            r.key == key,
            r.addr == addr,
    {
        PeerRecord { id: key.id(), key, addr }
    }
}

/// The records of the peers of one host, which listen on consecutive ports.
pub fn host_records(ip: IpAddr, keys: &Vec<PeerKey>) -> (r: Vec<PeerRecord>)
    requires
        FIRST_PORT + keys@.len() <= u16::MAX + 1,
    ensures
        r@.len() == keys@.len(),
        forall|i: int|
            0 <= i < r@.len() ==> {
                &&& (#[trigger] r@[i]).key == keys@[i]
                &&& r@[i].id@ == sha256(keys@[i]@)
                &&& r@[i].addr@ == AddrView::Socket(socket_at(ip, (FIRST_PORT + i) as u16))
            },
{
    let mut r: Vec<PeerRecord> = Vec::new();
    let mut i: usize = 0;
    while i < keys.len()
        invariant
            i <= keys@.len(),
            FIRST_PORT + keys@.len() <= u16::MAX + 1,
            r@.len() == i,
            forall|j: int|
                0 <= j < i ==> {
                    &&& (#[trigger] r@[j]).key == keys@[j]
                    &&& r@[j].id@ == sha256(keys@[j]@)
                    &&& r@[j].addr@ == AddrView::Socket(socket_at(ip, (FIRST_PORT + j) as u16))
                },
        decreases keys@.len() - i,
    {
        let port: u16 = FIRST_PORT + i as u16;
        r.push(PeerRecord::new(keys[i], Addr::Socket(socket(ip, port))));
        i += 1;
    }
    r
}

/// What is reported of found peers: their identifiers and sockets.
pub fn found(records: &Vec<PeerRecord>) -> (r: Vec<(PeerId, SocketAddr)>)
    requires
        forall|i: int| 0 <= i < records@.len() ==> (#[trigger] records@[i]).addr is Socket,
    ensures
        r@.len() == records@.len(),
        forall|i: int|
            0 <= i < r@.len() ==> (#[trigger] r@[i]).0 == records@[i].id && AddrView::Socket(
                r@[i].1,
            ) == records@[i].addr@,
{
    let mut r: Vec<(PeerId, SocketAddr)> = Vec::new();
    let mut i: usize = 0;
    while i < records.len()
        invariant
            i <= records@.len(),
            forall|j: int| 0 <= j < records@.len() ==> (#[trigger] records@[j]).addr is Socket,
            r@.len() == i,
            forall|j: int|
                0 <= j < i ==> (#[trigger] r@[j]).0 == records@[j].id && AddrView::Socket(r@[j].1)
                    == records@[j].addr@,
        decreases records@.len() - i,
    {
        assert(records@[i as int].addr is Socket);
        match &records[i].addr {
            Addr::Socket(addr) => r.push((records[i].id, *addr)),
            Addr::Untyped(_) => {},
        }
        i += 1;
    }
    r
}

/// Answers with the peers that are known closest to a location.
#[derive(Debug)]
pub struct FindPeerOk {
    pub target: Location,
    pub closest: Vec<PeerRecord>,
    pub peer_key: PeerKey,
}

pub ghost struct FindPeerOkView {
    pub target: Seq<u8>,
    pub closest: Seq<PeerRecordView>,
    pub peer_key: Seq<u8>,
}

impl View for FindPeerOk {
    type V = FindPeerOkView;

    open spec fn view(&self) -> FindPeerOkView {
        FindPeerOkView {
            target: self.target@,
            closest: views(self.closest@),
            peer_key: self.peer_key@,
        }
    }
}

impl DeepView for FindPeerOk {
    type V = FindPeerOkView;

    /// What is written of the answer.
    open spec fn deep_view(&self) -> FindPeerOkView {
        FindPeerOkView {
            target: self.target@,
            closest: self.closest.deep_view(),
            peer_key: self.peer_key@,
        }
    }
}

impl Format for FindPeerOk {
    open spec fn encodable(v: FindPeerOkView) -> bool {
        v.target.len() == 32 && Vec::<PeerRecord>::encodable(v.closest) && PeerKey::encodable(
            v.peer_key,
        )
    }

    open spec fn encoding(v: FindPeerOkView) -> Seq<u8> {
        v.target + (Vec::<PeerRecord>::encoding(v.closest) + PeerKey::encoding(v.peer_key))
    }
}

impl Encode for FindPeerOk {
    proof fn encoding_prefix(a: FindPeerOkView, ra: Seq<u8>, b: FindPeerOkView, rb: Seq<u8>) {
        <([u8; 32], (Vec<PeerRecord>, PeerKey))>::encoding_prefix(
            (a.target, (a.closest, a.peer_key)),
            ra,
            (b.target, (b.closest, b.peer_key)),
            rb,
        );
    }

    fn put(&self, out: &mut Vec<u8>) -> (r: Result<(), Error>) {
        let ghost before = out@;
        put_bytes(out, self.target.as_slice());
        match self.closest.put(out) {
            Ok(_) => {},
            Err(e) => return Err(e),
        }
        match self.peer_key.put(out) {
            Ok(_) => {},
            Err(e) => return Err(e),
        }
        assert(out@ =~= before + Self::encoding(self.deep_view()));
        Ok(())
    }

    open spec fn is_plain(&self) -> bool {
        self@ == self.deep_view()
    }

    fn take<'a>(bytes: &'a [u8]) -> (r: Option<(Self, &'a [u8])>)
        ensures
            r matches Some((v, _)) ==> v@ == v.deep_view(),
    {
        match <([u8; 32], (Vec<PeerRecord>, PeerKey))>::take(bytes) {
            Some(((target, (closest, peer_key)), rest)) => {
                assert(target.deep_view() =~= target@);
                assert forall|i: int| 0 <= i < closest@.len() implies (
                #[trigger] closest@[i])@ == closest.deep_view()[i] by {
                    assert(closest@[i].is_plain());
                }
                assert(views(closest@) =~= closest.deep_view());
                Some((FindPeerOk { target, closest, peer_key }, rest))
            },
            None => {
                assert forall|v: FindPeerOkView, rest: Seq<u8>| !#[trigger] is_encoded::<Self>(
                    bytes@,
                    v,
                    rest,
                ) by {
                    assert(!is_encoded::<([u8; 32], (Vec<PeerRecord>, PeerKey))>(
                        bytes@,
                        (v.target, (v.closest, v.peer_key)),
                        rest,
                    ));
                }
                None
            },
        }
    }
}

/// What a peer knows of itself.
#[derive(Debug)]
pub struct Peer {
    pub key: PeerKey,
    pub signer: Signer,
}

impl Peer {
    /// Asks the peer at an address, in a signed message.
    pub fn send_find_peer(&self, target: &Location, addr: Addr) -> (r: SendTo<Message>)
        ensures
            r.destination == addr,
            is_query(self, target@, r.message@),
    {
        let _ = self.key.0.serialize();
        let find_peer = FindPeer { target: *target, peer_key: self.key };
        let message = self.signer.serialize_sign(find_peer).unwrap();
        SendTo { destination: addr, message: Message::FindPeer(message.packet()) }
    }
}

/// Whether a message is the signed question of a peer about a location.
pub open spec fn is_query(peer: &Peer, target: Seq<u8>, message: MessageView) -> bool {
    let bytes = FindPeer::encoding(FindPeerView { target, peer_key: peer.key@ });
    message == MessageView::FindPeer(
        PacketView {
            signature: crate::crypto::ecdsa_signature(peer.signer.secret(), sha256(bytes)),
            inner: bytes,
        },
    )
}

/// The first peers of a lookup that are asked.
pub const FIRST_CONTACTS: usize = 3;

/// The closest peers among which a lookup looks for one to ask.
pub const CANDIDATES: usize = 20;

/// Whether records are in the order of their distances.
pub open spec fn is_sorted(records: Seq<PeerRecordView>, target: Seq<u8>) -> bool {
    forall|i: int, j: int|
        0 <= i <= j < records.len() ==> distance_of(#[trigger] records[i].id, target)
            <= distance_of(#[trigger] records[j].id, target)
}

/// Whether a record has an identifier.
pub open spec fn has_id(records: Seq<PeerRecordView>, id: Seq<u8>) -> bool {
    exists|i: int| 0 <= i < records.len() && #[trigger] records[i].id == id
}

/// How many records are below a distance.
pub open spec fn rank(records: Seq<PeerRecordView>, target: Seq<u8>, d: nat) -> nat
    decreases records.len(),
{
    if records.len() == 0 {
        0
    } else {
        rank(records.drop_last(), target, d) + if distance_of(records.last().id, target) < d {
            1nat
        } else {
            0nat
        }
    }
}

/// Sorted records with one more in its place, unless its identifier is there.
pub open spec fn with_record(
    records: Seq<PeerRecordView>,
    record: PeerRecordView,
    target: Seq<u8>,
) -> Seq<PeerRecordView> {
    if has_id(records, record.id) {
        records
    } else {
        records.insert(rank(records, target, distance_of(record.id, target)) as int, record)
    }
}

/// Sorted records with more of them, one after the other.
pub open spec fn with_records(
    records: Seq<PeerRecordView>,
    more: Seq<PeerRecordView>,
    target: Seq<u8>,
) -> Seq<PeerRecordView>
    decreases more.len(),
{
    if more.len() == 0 {
        records
    } else {
        with_record(with_records(records, more.drop_last(), target), more.last(), target)
    }
}

/// Whether two groups of records say the same of every identifier that they
/// share.
pub open spec fn agree(a: Seq<PeerRecordView>, b: Seq<PeerRecordView>) -> bool {
    forall|i: int, j: int|
        0 <= i < a.len() && 0 <= j < b.len() && (#[trigger] a[i]).id == (#[trigger] b[j]).id
            ==> a[i] == b[j]
}

proof fn lemma_rank(records: Seq<PeerRecordView>, target: Seq<u8>, d: nat, n: int)
    requires
        0 <= n <= records.len(),
        forall|i: int| 0 <= i < n ==> distance_of(#[trigger] records[i].id, target) < d,
        forall|i: int| n <= i < records.len() ==> distance_of(#[trigger] records[i].id, target) >= d,
    ensures
        rank(records, target, d) == n,
    decreases records.len(),
{
    if records.len() > 0 {
        let shorter = records.drop_last();
        let m = if n == records.len() {
            n - 1
        } else {
            n
        };
        assert(records.last() == records[records.len() - 1]);
        assert forall|i: int| 0 <= i < m implies distance_of(#[trigger] shorter[i].id, target)
            < d by {
            assert(shorter[i] == records[i]);
        }
        assert forall|i: int| m <= i < shorter.len() implies distance_of(
            #[trigger] shorter[i].id,
            target,
        ) >= d by {
            assert(shorter[i] == records[i]);
        }
        lemma_rank(shorter, target, d, m);
    }
}

/// Whether two groups of records say the same of every identifier that they
/// share.
pub fn records_agree(a: &Vec<PeerRecord>, b: &Vec<PeerRecord>) -> (r: bool)
    ensures
        r <==> agree(views(a@), views(b@)),
{
    let ghost (va, vb) = (views(a@), views(b@));
    let mut i: usize = 0;
    while i < a.len()
        invariant
            i <= a@.len(),
            va == views(a@),
            vb == views(b@),
            agree(va.take(i as int), vb),
        decreases a@.len() - i,
    {
        let mut j: usize = 0;
        while j < b.len()
            invariant
                i < a@.len(),
                j <= b@.len(),
                va == views(a@),
                vb == views(b@),
                forall|k: int|
                    0 <= k < j && va[i as int].id == (#[trigger] vb[k]).id ==> va[i as int]
                        == vb[k],
            decreases b@.len() - j,
        {
            assert(va[i as int] == a@[i as int]@ && vb[j as int] == b@[j as int]@);
            if same_bytes(a[i].id.as_slice(), b[j].id.as_slice()) {
                if !a[i].key.same(&b[j].key) || a[i].addr != b[j].addr {
                    return false;
                }
            }
            j += 1;
        }
        assert(agree(va.take(i + 1), vb)) by {
            assert forall|p: int, q: int|
                0 <= p < i + 1 && 0 <= q < vb.len() && (#[trigger] va.take(i + 1)[p]).id == (
                #[trigger] vb[q]).id implies va.take(i + 1)[p] == vb[q] by {
                if p < i {
                    assert(va.take(i as int)[p] == va[p]);
                }
            }
        }
        i += 1;
    }
    assert(va.take(i as int) =~= va);
    true
}

/// The position of a record of given distance among sorted ones, and whether it
/// is taken.
fn search(records: &Vec<PeerRecord>, target: &Location, id: &PeerId) -> (r: (usize, bool))
    requires
        is_sorted(views(records@), target@),
    ensures
        r.0 == rank(views(records@), target@, distance_of(id@, target@)),
        r.0 <= records@.len(),
        r.1 <==> has_id(views(records@), id@),
        forall|i: int|
            0 <= i < r.0 ==> distance_of((#[trigger] records@[i]).id@, target@) < distance_of(
                id@,
                target@,
            ),
        forall|i: int|
            r.0 <= i < records@.len() ==> distance_of((#[trigger] records@[i]).id@, target@)
                >= distance_of(id@, target@),
        r.1 ==> r.0 < records@.len() && records@[r.0 as int].id@ == id@,
{
    let ghost view = views(records@);
    let ghost d = distance_of(id@, target@);
    let wanted = distance(id, target);
    let mut low: usize = 0;
    let mut high: usize = records.len();
    while low < high
        invariant
            low <= high <= records@.len(),
            view == views(records@),
            d == distance_of(id@, target@),
            wanted.value() == d,
            is_sorted(view, target@),
            forall|i: int| 0 <= i < low ==> distance_of(#[trigger] view[i].id, target@) < d,
            forall|i: int| high <= i < view.len() ==> distance_of(#[trigger] view[i].id, target@) >= d,
        decreases high - low,
    {
        let middle: usize = low + (high - low) / 2;
        assert(view[middle as int].id == records@[middle as int].id@);
        if distance(&records[middle].id, target).is_below(&wanted) {
            low = middle + 1;
        } else {
            high = middle;
        }
    }
    proof {
        lemma_rank(view, target@, d, low as int);
        assert forall|i: int| 0 <= i < records@.len() implies (#[trigger] records@[i]).id@
            == view[i].id by {}
        if has_id(view, id@) {
            let i = choose|i: int| 0 <= i < view.len() && #[trigger] view[i].id == id@;
            assert(distance_of(view[i].id, target@) == d);
            assert(distance_of(view[low as int].id, target@) == d);
            law_distance_is_injective(records@[low as int].id@, id@, target@);
        }
    }
    if low < records.len() && distance(&records[low].id, target).is_same(&wanted) {
        proof {
            law_distance_is_injective(records@[low as int].id@, id@, target@);
            assert(view[low as int].id == id@);
        }
        (low, true)
    } else {
        (low, false)
    }
}

/// Adds a record in its place, unless its identifier is there.
fn insert_record(closest: &mut Vec<PeerRecord>, target: &Location, record: PeerRecord)
    requires
        is_sorted(views(old(closest)@), target@),
    ensures
        is_sorted(views(final(closest)@), target@),
        views(final(closest)@) == with_record(views(old(closest)@), record@, target@),
{
    let ghost before = views(closest@);
    let (index, found) = search(closest, target, &record.id);
    if !found {
        let ghost old_records = closest@;
        let ghost v = record@;
        closest.insert(index, record);
        let ghost after = views(closest@);
        assert(after =~= before.insert(index as int, v));
        assert forall|i: int, j: int| 0 <= i <= j < after.len() implies distance_of(
            #[trigger] after[i].id,
            target@,
        ) <= distance_of(#[trigger] after[j].id, target@) by {
            let m = if i < index {
                i
            } else {
                i - 1
            };
            let n = if j < index {
                j
            } else {
                j - 1
            };
            if i < index {
                assert(after[i] == before[m]);
                assert(before[m].id == old_records[m].id@);
            }
            if j < index {
                assert(after[j] == before[n]);
            }
            if i > index {
                assert(after[i] == before[m]);
            }
            if j > index {
                assert(after[j] == before[n]);
                assert(before[n].id == old_records[n].id@);
            }
        }
    }
}

/// The records that are closest to a location, in the order of their distances.
/// Of several with one identifier the first one counts.
pub fn closest_records(records: &Vec<PeerRecord>, target: &Location, count: usize) -> (r: Vec<
    PeerRecord,
>)
    ensures
        is_sorted(views(r@), target@),
        ({
            let all = with_records(Seq::empty(), views(records@), target@);
            views(r@) == if count < all.len() {
                all.take(count as int)
            } else {
                all
            }
        }),
{
    let ghost view = views(records@);
    let mut r: Vec<PeerRecord> = Vec::new();
    let mut i: usize = 0;
    assert(view.take(0) =~= Seq::<PeerRecordView>::empty());
    assert(views(r@) =~= Seq::<PeerRecordView>::empty());
    while i < records.len()
        invariant
            i <= records@.len(),
            view == views(records@),
            is_sorted(views(r@), target@),
            views(r@) == with_records(Seq::empty(), view.take(i as int), target@),
        decreases records@.len() - i,
    {
        insert_record(&mut r, target, records[i].clone());
        assert(view.take(i + 1).drop_last() =~= view.take(i as int));
        i += 1;
    }
    assert(view.take(i as int) =~= view);
    let ghost all = views(r@);
    r.truncate(count);
    proof {
        if count < all.len() {
            assert(views(r@) =~= all.take(count as int));
        } else {
            assert(views(r@) =~= all);
        }
    }
    r
}

/// A lookup of the peers that are closest to a location.
///
/// Asked peers are in `contacting` until they answer and in `contacted` then.
/// Neither holds a key twice.
#[derive(Debug)]
pub struct FindSession {
    pub target: Location,
    pub contacted: Vec<PeerKey>,
    pub contacting: Vec<PeerKey>,
    pub closest: Vec<PeerRecord>,
}

/// The keys of a list.
pub open spec fn key_set(keys: Seq<PeerKey>) -> Set<Seq<u8>> {
    Set::new(|k: Seq<u8>| exists|i: int| 0 <= i < keys.len() && (#[trigger] keys[i])@ == k)
}

/// Whether no key is there twice.
pub open spec fn keys_differ(keys: Seq<PeerKey>) -> bool {
    forall|i: int, j: int|
        0 <= i < j < keys.len() ==> (#[trigger] keys[i])@ != (#[trigger] keys[j])@
}

/// Where a key is in a list.
fn find_key(keys: &Vec<PeerKey>, key: &PeerKey) -> (r: Option<usize>)
    ensures
        match r {
            Some(i) => i < keys@.len() && keys@[i as int]@ == key@,
            None => !key_set(keys@).contains(key@),
        },
{
    let mut i: usize = 0;
    while i < keys.len()
        invariant
            i <= keys@.len(),
            forall|j: int| 0 <= j < i ==> (#[trigger] keys@[j])@ != key@,
        decreases keys@.len() - i,
    {
        if keys[i].same(key) {
            return Some(i);
        }
        i += 1;
    }
    None
}

/// Adds a key to a list, unless it is there.
fn insert_key(keys: &mut Vec<PeerKey>, key: PeerKey)
    requires
        keys_differ(old(keys)@),
    ensures
        keys_differ(final(keys)@),
        key_set(final(keys)@) == key_set(old(keys)@).insert(key@),
        final(keys)@.len() <= old(keys)@.len() + 1,
{
    let ghost before = keys@;
    if find_key(keys, &key).is_none() {
        keys.push(key);
        assert(keys@[keys@.len() - 1] == key);
        assert(keys_differ(keys@)) by {
            assert forall|i: int, j: int| 0 <= i < j < keys@.len() implies (#[trigger] keys@[i])@
                != (#[trigger] keys@[j])@ by {
                assert(before[i] == keys@[i]);
                if j == before.len() {
                    assert(key_set(before).contains(before[i]@));
                } else {
                    assert(before[j] == keys@[j]);
                }
            }
        }
        assert forall|k: Seq<u8>| key_set(before).contains(k) implies #[trigger] key_set(
            keys@,
        ).contains(k) by {
            let i = choose|i: int| 0 <= i < before.len() && (#[trigger] before[i])@ == k;
            assert(keys@[i]@ == k);
        }
        assert forall|k: Seq<u8>| #[trigger] key_set(keys@).contains(k) && k != key@ implies key_set(
            before,
        ).contains(k) by {
            let i = choose|i: int| 0 <= i < keys@.len() && (#[trigger] keys@[i])@ == k;
            assert(before[i]@ == k);
        }
    }
    assert(key_set(keys@) =~= key_set(before).insert(key@));
}

/// Takes a key off a list. Returns whether it was there.
fn remove_key(keys: &mut Vec<PeerKey>, key: &PeerKey) -> (r: bool)
    requires
        keys_differ(old(keys)@),
    ensures
        keys_differ(final(keys)@),
        r <==> key_set(old(keys)@).contains(key@),
        key_set(final(keys)@) == key_set(old(keys)@).remove(key@),
        final(keys)@.len() == old(keys)@.len() - if r {
            1int
        } else {
            0int
        },
{
    let ghost before = keys@;
    match find_key(keys, key) {
        Some(n) => {
            keys.remove(n);
            proof {
                assert(keys@ =~= before.remove(n as int));
                assert(key_set(before).contains(before[n as int]@));
                assert forall|i: int| 0 <= i < keys@.len() implies #[trigger] keys@[i]
                    == before[if i < n {
                    i
                } else {
                    i + 1
                }] by {}
                assert forall|k: Seq<u8>| key_set(before).contains(k) && k
                    != key@ implies #[trigger] key_set(keys@).contains(k) by {
                    let i = choose|i: int| 0 <= i < before.len() && (#[trigger] before[i])@ == k;
                    assert(keys@[if i < n {
                        i
                    } else {
                        i - 1
                    }]@ == k);
                }
                assert forall|k: Seq<u8>| #[trigger] key_set(keys@).contains(k) implies key_set(
                    before,
                ).contains(k) && k != key@ by {
                    let i = choose|i: int| 0 <= i < keys@.len() && (#[trigger] keys@[i])@ == k;
                    let m = if i < n {
                        i
                    } else {
                        i + 1
                    };
                    assert(before[m]@ == k);
                    assert(before[n as int]@ == key@);
                }
                assert(key_set(keys@) =~= key_set(before).remove(key@));
            }
            true
        },
        None => {
            assert(key_set(before) =~= key_set(before).remove(key@));
            false
        },
    }
}

/// The keys of the first records.
pub open spec fn first_keys(records: Seq<PeerRecordView>, n: nat) -> Set<Seq<u8>> {
    Set::new(
        |k: Seq<u8>| exists|i: int| 0 <= i < records.len() && i < n && #[trigger] records[i].key == k,
    )
}

impl FindSession {
    /// The records are sorted, and no key is listed twice.
    pub open spec fn wf(&self) -> bool {
        &&& is_sorted(views(self.closest@), self.target@)
        &&& keys_differ(self.contacted@)
        &&& keys_differ(self.contacting@)
        &&& key_set(self.contacted@).disjoint(key_set(self.contacting@))
    }

    /// Starts a lookup from the records that are known, in the order of their
    /// distances, and asks the closest ones.
    pub fn start(peer: &Peer, target: Location, local_closest: Vec<PeerRecord>) -> (r: (
        Self,
        Vec<SendTo<Message>>,
    ))
        requires
            is_sorted(views(local_closest@), target@),
        ensures
            r.0.wf(),
            r.0.target == target,
            r.0.closest == local_closest,
            key_set(r.0.contacted@) == Set::<Seq<u8>>::empty(),
            key_set(r.0.contacting@) == first_keys(
                views(local_closest@),
                FIRST_CONTACTS as nat,
            ),
            r.0.contacting@.len() <= FIRST_CONTACTS,
            r.1@.len() == if local_closest@.len() < FIRST_CONTACTS {
                local_closest@.len()
            } else {
                FIRST_CONTACTS as nat
            },
            forall|i: int|
                0 <= i < r.1@.len() ==> (#[trigger] r.1@[i]).destination@ == local_closest@[i].addr@
                    && is_query(peer, target@, r.1@[i].message@),
    {
        let ghost view = views(local_closest@);
        let mut contacting: Vec<PeerKey> = Vec::new();
        let mut sends: Vec<SendTo<Message>> = Vec::new();
        let mut i: usize = 0;
        assert(key_set(contacting@) =~= first_keys(view, 0));
        while i < local_closest.len() && i < FIRST_CONTACTS
            invariant
                i <= local_closest@.len(),
                i <= FIRST_CONTACTS,
                view == views(local_closest@),
                keys_differ(contacting@),
                contacting@.len() <= i,
                key_set(contacting@) == first_keys(view, i as nat),
                sends@.len() == i,
                forall|j: int|
                    0 <= j < i ==> (#[trigger] sends@[j]).destination@ == local_closest@[j].addr@
                        && is_query(peer, target@, sends@[j].message@),
            decreases local_closest@.len() - i,
        {
            sends.push(peer.send_find_peer(&target, local_closest[i].addr.clone()));
            insert_key(&mut contacting, local_closest[i].key);
            assert(view[i as int].key == local_closest@[i as int].key@);
            assert(first_keys(view, (i + 1) as nat) =~= first_keys(view, i as nat).insert(
                view[i as int].key,
            ));
            i += 1;
        }
        let session = FindSession {
            target,
            contacted: Vec::new(),
            contacting,
            closest: local_closest,
        };
        assert(key_set(session.contacted@) =~= Set::<Seq<u8>>::empty());
        assert(first_keys(view, i as nat) =~= first_keys(view, FIRST_CONTACTS as nat));
        (session, sends)
    }

    /// Takes an answer in: its sender has been contacted, and its records join
    /// the closest ones. Answers of peers that were not asked are ignored.
    /// Returns whether the answer counted.
    ///
    /// The records must agree with each other and with those that are known.
    pub fn on_message(&mut self, message: FindPeerOk) -> (r: bool)
        requires
            old(self).wf(),
            key_set(old(self).contacting@).contains(message.peer_key@) ==> {
                &&& agree(views(message.closest@), views(message.closest@))
                &&& agree(views(message.closest@), views(old(self).closest@))
            },
        ensures
            final(self).wf(),
            final(self).target == old(self).target,
            r <==> key_set(old(self).contacting@).contains(message.peer_key@),
            !r ==> {
                &&& key_set(final(self).contacting@) == key_set(old(self).contacting@)
                &&& key_set(final(self).contacted@) == key_set(old(self).contacted@)
                &&& final(self).closest == old(self).closest
                &&& final(self).contacting@.len() == old(self).contacting@.len()
            },
            r ==> {
                &&& key_set(final(self).contacting@) == key_set(old(self).contacting@).remove(
                    message.peer_key@,
                )
                &&& key_set(final(self).contacted@) == key_set(old(self).contacted@).insert(
                    message.peer_key@,
                )
                &&& views(final(self).closest@) == with_records(
                    views(old(self).closest@),
                    views(message.closest@),
                    old(self).target@,
                )
                &&& final(self).contacting@.len() == old(self).contacting@.len() - 1
            },
    {
        let ghost before = views(self.closest@);
        if !remove_key(&mut self.contacting, &message.peer_key) {
            assert(key_set(self.contacting@) =~= key_set(old(self).contacting@));
            return false;
        }
        insert_key(&mut self.contacted, message.peer_key);
        let ghost more = views(message.closest@);
        let ghost session = *self;
        let mut i: usize = 0;
        assert(more.take(0) =~= Seq::<PeerRecordView>::empty());
        while i < message.closest.len()
            invariant
                i <= message.closest@.len(),
                more == views(message.closest@),
                self.wf(),
                *self == (FindSession { closest: self.closest, ..session }),
                views(self.closest@) == with_records(
                    before,
                    more.take(i as int),
                    session.target@,
                ),
            decreases message.closest@.len() - i,
        {
            insert_record(&mut self.closest, &self.target, message.closest[i].clone());
            assert(more.take(i + 1).drop_last() =~= more.take(i as int));
            i += 1;
        }
        assert(more.take(i as int) =~= more);
        true
    }

    /// The next peer to ask: the closest one that has not been contacted, among
    /// the candidates. The lookup is over when there is none.
    pub fn next_contact(&self, peer: &Peer) -> (r: Option<SendTo<Message>>)
        ensures
            match r {
                Some(send) => exists|i: int| #[trigger]
                    is_next_contact(views(self.closest@), key_set(self.contacted@), i)
                        && send.destination@ == self.closest@[i].addr@ && is_query(
                        peer,
                        self.target@,
                        send.message@,
                    ),
                None => forall|i: int|
                    0 <= i < self.closest@.len() && i < CANDIDATES ==> key_set(
                        self.contacted@,
                    ).contains((#[trigger] self.closest@[i]).key@),
            },
    {
        let mut i: usize = 0;
        while i < self.closest.len() && i < CANDIDATES
            invariant
                i <= self.closest@.len(),
                i <= CANDIDATES,
                forall|j: int|
                    0 <= j < i ==> key_set(self.contacted@).contains(
                        (#[trigger] self.closest@[j]).key@,
                    ),
            decreases self.closest@.len() - i,
        {
            match find_key(&self.contacted, &self.closest[i].key) {
                Some(n) => {
                    assert(key_set(self.contacted@).contains(self.contacted@[n as int]@));
                },
                None => {
                    assert forall|j: int| 0 <= j < i implies key_set(self.contacted@).contains(
                        (#[trigger] views(self.closest@)[j]).key,
                    ) by {
                        assert(key_set(self.contacted@).contains(self.closest@[j].key@));
                    }
                    assert(is_next_contact(
                        views(self.closest@),
                        key_set(self.contacted@),
                        i as int,
                    ));
                    return Some(peer.send_find_peer(&self.target, self.closest[i].addr.clone()));
                },
            }
            i += 1;
        }
        None
    }
}

/// Whether the record at `i` is the first candidate that was not contacted.
pub open spec fn is_next_contact(
    closest: Seq<PeerRecordView>,
    contacted: Set<Seq<u8>>,
    i: int,
) -> bool {
    &&& 0 <= i < closest.len()
    &&& i < CANDIDATES
    &&& !contacted.contains(closest[i].key)
    &&& forall|j: int| 0 <= j < i ==> contacted.contains((#[trigger] closest[j]).key)
}

/// A lookup never forgets a record: those that were known and the identifiers of
/// those that came are all there afterwards.
pub proof fn law_lookup_keeps_records(
    records: Seq<PeerRecordView>,
    more: Seq<PeerRecordView>,
    target: Seq<u8>,
)
    ensures
        forall|i: int|
            0 <= i < records.len() ==> with_records(records, more, target).contains(
                #[trigger] records[i],
            ),
        forall|i: int|
            0 <= i < more.len() ==> has_id(
                with_records(records, more, target),
                (#[trigger] more[i]).id,
            ),
    decreases more.len(),
{
    if more.len() > 0 {
        let shorter = more.drop_last();
        let middle = with_records(records, shorter, target);
        let record = more.last();
        let after = with_records(records, more, target);
        law_lookup_keeps_records(records, shorter, target);
        let n = rank(middle, target, distance_of(record.id, target)) as int;
        lemma_rank_bound(middle, target, distance_of(record.id, target));
        if !has_id(middle, record.id) {
            assert(after[n] == record);
            assert forall|k: int| 0 <= k < middle.len() implies after.contains(
                #[trigger] middle[k],
            ) && has_id(after, middle[k].id) by {
                let m = if k < n {
                    k
                } else {
                    k + 1
                };
                assert(after[m] == middle[k]);
            }
        }
        assert forall|i: int| 0 <= i < records.len() implies after.contains(
            #[trigger] records[i],
        ) by {
            let k = choose|k: int| 0 <= k < middle.len() && middle[k] == records[i];
            assert(after.contains(middle[k]));
        }
        assert forall|i: int| 0 <= i < more.len() implies has_id(after, (#[trigger] more[i]).id) by {
            if i < shorter.len() {
                assert(shorter[i] == more[i]);
                assert(has_id(middle, shorter[i].id));
                let k = choose|k: int| 0 <= k < middle.len() && #[trigger] middle[k].id
                    == shorter[i].id;
                assert(has_id(after, middle[k].id));
            }
        }
    } else {
        assert forall|i: int| 0 <= i < records.len() implies with_records(
            records,
            more,
            target,
        ).contains(#[trigger] records[i]) by {}
    }
}

proof fn lemma_rank_bound(records: Seq<PeerRecordView>, target: Seq<u8>, d: nat)
    ensures
        rank(records, target, d) <= records.len(),
    decreases records.len(),
{
    if records.len() > 0 {
        lemma_rank_bound(records.drop_last(), target, d);
    }
}

} // verus!
