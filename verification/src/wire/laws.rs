//! Where the parts of messages are in their bytes.

use vstd::prelude::*;

use crate::addr::{Addr, AddrView, SocketAddr};
use crate::crypto::Packet;
use crate::error::Error;
use crate::kademlia::{FindPeer, FindPeerOk, Message, PeerRecord};
use crate::pbft::{Commit, PrePrepare, Prepare, Reply, Request, ToReplica};
use crate::unreplicated;
use crate::wire::{be_bytes, concat_encodings, encode, Blob, Encode, Format};

verus! {

/// The number in four bytes, the least significant one first.
#[verifier::opaque]
pub open spec fn number_at(bytes: Seq<u8>, i: int) -> int {
    bytes[i] + 256 * bytes[i + 1] + 65536 * bytes[i + 2] + 16777216 * bytes[i + 3]
}

proof fn lemma_number_at(before: Seq<u8>, x: u32, after: Seq<u8>)
    ensures
        number_at(before + (crate::wire::u32_bytes(x) + after), before.len() as int) == x,
        crate::wire::u32_bytes(x).len() == 4,
{
    reveal(number_at);
    let n = before.len() as int;
    let four = crate::wire::u32_bytes(x);
    crate::wire::lemma_u32_bytes(x);
    let all = before + (four + after);
    assert(all[n] == four[0] && all[n + 1] == four[1] && all[n + 2] == four[2] && all[n + 3]
        == four[3]);
}

proof fn lemma_three_numbers(bytes: Seq<u8>, a: u32, b: u32, c: u32, rest: Seq<u8>)
    requires
        bytes == crate::wire::u32_bytes(a) + (crate::wire::u32_bytes(b) + (crate::wire::u32_bytes(c)
            + rest)),
    ensures
        bytes.len() == 12 + rest.len(),
        number_at(bytes, 0) == a,
        number_at(bytes, 4) == b,
        number_at(bytes, 8) == c,
        bytes.skip(12) == rest,
{
    let (x, y, z) = (
        crate::wire::u32_bytes(a),
        crate::wire::u32_bytes(b),
        crate::wire::u32_bytes(c),
    );
    lemma_number_at(Seq::empty(), a, y + (z + rest));
    lemma_number_at(x, b, z + rest);
    lemma_number_at(x + y, c, rest);
    assert(Seq::<u8>::empty() + (x + (y + (z + rest))) =~= bytes);
    assert((x + y) + (z + rest) =~= bytes);
    assert(bytes.skip(12) =~= rest);
}

/// A number takes four bytes, the least significant one first.
pub proof fn law_number_layout(x: u32, r: Result<Vec<u8>, Error>)
    requires
        call_ensures(encode::<u32>, (&x,), r),
    ensures
        r matches Ok(bytes) && bytes@.len() == 4 && number_at(bytes@, 0) == x,
{
    let bytes = r.unwrap()@;
    lemma_number_at(Seq::empty(), x, Seq::empty());
    assert(Seq::<u8>::empty() + (crate::wire::u32_bytes(x) + Seq::<u8>::empty()) =~= bytes);
}

/// A request is the numbers of its client and of itself, and the operation behind
/// its length.
pub proof fn law_request_layout(request: &Request, r: Result<Vec<u8>, Error>)
    requires
        call_ensures(encode::<Request>, (request,), r),
    ensures
        r is Ok <==> request.op@.len() <= u32::MAX,
        r matches Ok(bytes) ==> {
            &&& bytes@.len() == 12 + request.op@.len()
            &&& number_at(bytes@, 0) == request.client_id
            &&& number_at(bytes@, 4) == request.request_num
            &&& number_at(bytes@, 8) == request.op@.len()
            &&& bytes@.skip(12) == request.op@
        },
{
    if let Ok(bytes) = r {
        lemma_three_numbers(
            bytes@,
            request.client_id,
            request.request_num,
            request.op@.len() as u32,
            request.op@,
        );
    }
}

/// A reply is the number of its request, the result behind its length, its replica
/// and its view.
pub proof fn law_reply_layout(reply: &Reply, r: Result<Vec<u8>, Error>)
    requires
        call_ensures(encode::<Reply>, (reply,), r),
    ensures
        r is Ok <==> reply.result@.len() <= u32::MAX,
        r matches Ok(bytes) ==> {
            let n = reply.result@.len() as int;
            &&& bytes@.len() == 13 + n
            &&& number_at(bytes@, 0) == reply.request_num
            &&& number_at(bytes@, 4) == n
            &&& bytes@.subrange(8, 8 + n) == reply.result@
            &&& bytes@[8 + n] == reply.replica_id
            &&& number_at(bytes@, 9 + n) == reply.view_num
        },
{
    if let Ok(bytes) = r {
        let n = reply.result@.len() as int;
        let (a, b, d) = (
            crate::wire::u32_bytes(reply.request_num),
            crate::wire::u32_bytes(n as u32),
            crate::wire::u32_bytes(reply.view_num),
        );
        let last = seq![reply.replica_id] + d;
        lemma_number_at(Seq::empty(), reply.request_num, b + reply.result@ + last);
        assert(Seq::<u8>::empty() + (a + (b + reply.result@ + last)) =~= bytes@);
        lemma_number_at(a, n as u32, reply.result@ + last);
        assert(a + (b + (reply.result@ + last)) =~= bytes@);
        let front = a + b + reply.result@ + seq![reply.replica_id];
        lemma_number_at(front, reply.view_num, Seq::empty());
        assert(front + (d + Seq::<u8>::empty()) =~= bytes@);
        assert(bytes@.subrange(8, 8 + n) =~= reply.result@);
    }
}

/// A proposal is its view, its operation and its digest.
pub proof fn law_proposal_layout(message: &PrePrepare, r: Result<Vec<u8>, Error>)
    requires
        call_ensures(encode::<PrePrepare>, (message,), r),
    ensures
        r matches Ok(bytes) && bytes@.len() == 40 && number_at(bytes@, 0) == message.view_num
            && number_at(bytes@, 4) == message.op_num && bytes@.skip(8) == message.digest@,
{
    if let Ok(bytes) = r {
        let (a, b) = (
            crate::wire::u32_bytes(message.view_num),
            crate::wire::u32_bytes(message.op_num),
        );
        let rest = message.digest@;
        lemma_number_at(Seq::empty(), message.view_num, b + rest);
        assert(Seq::<u8>::empty() + (a + (b + rest)) =~= bytes@);
        lemma_number_at(a, message.op_num, rest);
        assert(a + (b + rest) =~= bytes@);
        assert(bytes@.skip(8) =~= message.digest@);
    }
}

/// A vote for an order is its view, its operation, its digest and its replica.
pub proof fn law_prepare_layout(message: &Prepare, r: Result<Vec<u8>, Error>)
    requires
        call_ensures(encode::<Prepare>, (message,), r),
    ensures
        r matches Ok(bytes) && bytes@.len() == 41 && number_at(bytes@, 0) == message.view_num
            && number_at(bytes@, 4) == message.op_num && bytes@.subrange(8, 40) == message.digest@
            && bytes@[40] == message.replica_id,
{
    if let Ok(bytes) = r {
        let (a, b) = (
            crate::wire::u32_bytes(message.view_num),
            crate::wire::u32_bytes(message.op_num),
        );
        let rest = message.digest@ + seq![message.replica_id];
        lemma_number_at(Seq::empty(), message.view_num, b + rest);
        assert(Seq::<u8>::empty() + (a + (b + rest)) =~= bytes@);
        lemma_number_at(a, message.op_num, rest);
        assert(a + (b + rest) =~= bytes@);
        assert(bytes@.subrange(8, 40) =~= message.digest@);
    }
}

/// A vote to commit is its view, its operation, its digest and its replica.
pub proof fn law_commit_layout(message: &Commit, r: Result<Vec<u8>, Error>)
    requires
        call_ensures(encode::<Commit>, (message,), r),
    ensures
        r matches Ok(bytes) && bytes@.len() == 41 && number_at(bytes@, 0) == message.view_num
            && number_at(bytes@, 4) == message.op_num && bytes@.subrange(8, 40) == message.digest@
            && bytes@[40] == message.replica_id,
{
    if let Ok(bytes) = r {
        let (a, b) = (
            crate::wire::u32_bytes(message.view_num),
            crate::wire::u32_bytes(message.op_num),
        );
        let rest = message.digest@ + seq![message.replica_id];
        lemma_number_at(Seq::empty(), message.view_num, b + rest);
        assert(Seq::<u8>::empty() + (a + (b + rest)) =~= bytes@);
        lemma_number_at(a, message.op_num, rest);
        assert(a + (b + rest) =~= bytes@);
        assert(bytes@.subrange(8, 40) =~= message.digest@);
    }
}

/// A request without replication has the same parts.
pub proof fn law_unreplicated_request_layout(
    request: &unreplicated::Request,
    r: Result<Vec<u8>, Error>,
)
    requires
        call_ensures(encode::<unreplicated::Request>, (request,), r),
    ensures
        r is Ok <==> request.op@.len() <= u32::MAX,
        r matches Ok(bytes) ==> {
            &&& bytes@.len() == 12 + request.op@.len()
            &&& number_at(bytes@, 0) == request.client_id
            &&& number_at(bytes@, 4) == request.request_num
            &&& number_at(bytes@, 8) == request.op@.len()
            &&& bytes@.skip(12) == request.op@
        },
{
    if let Ok(bytes) = r {
        lemma_three_numbers(
            bytes@,
            request.client_id,
            request.request_num,
            request.op@.len() as u32,
            request.op@,
        );
    }
}

/// A reply without replication is the number of its request and the result behind
/// its length.
pub proof fn law_unreplicated_reply_layout(reply: &unreplicated::Reply, r: Result<Vec<u8>, Error>)
    requires
        call_ensures(encode::<unreplicated::Reply>, (reply,), r),
    ensures
        r is Ok <==> reply.result@.len() <= u32::MAX,
        r matches Ok(bytes) ==> {
            &&& bytes@.len() == 8 + reply.result@.len()
            &&& number_at(bytes@, 0) == reply.request_num
            &&& number_at(bytes@, 4) == reply.result@.len()
            &&& bytes@.skip(8) == reply.result@
        },
{
    if let Ok(bytes) = r {
        let n = reply.result@.len() as u32;
        let (a, b) = (crate::wire::u32_bytes(reply.request_num), crate::wire::u32_bytes(n));
        lemma_number_at(Seq::empty(), reply.request_num, b + reply.result@);
        assert(Seq::<u8>::empty() + (a + (b + reply.result@)) =~= bytes@);
        lemma_number_at(a, n, reply.result@);
        assert(a + (b + reply.result@) =~= bytes@);
        assert(bytes@.skip(8) =~= reply.result@);
    }
}

/// Values are encoded one after the other.
pub proof fn law_values_follow_each_other<M: Format>(a: Seq<M::V>, b: Seq<M::V>, v: M::V)
    ensures
        concat_encodings::<M>(a + b) == concat_encodings::<M>(a) + concat_encodings::<M>(b),
        concat_encodings::<M>(seq![v]) == M::encoding(v),
        concat_encodings::<M>(Seq::<M::V>::empty()) == Seq::<u8>::empty(),
    decreases a.len() + b.len(),
{
    let one = seq![v];
    let none = Seq::<M::V>::empty();
    reveal_with_fuel(concat_encodings, 2);
    assert(one.drop_last() =~= none);
    assert(one.drop_first() =~= none);
    assert(concat_encodings::<M>(none) == Seq::<u8>::empty());
    assert(concat_encodings::<M>(one) =~= M::encoding(v));
    if b.len() == 0 {
        assert(a + b =~= a);
        assert(concat_encodings::<M>(a + b) =~= concat_encodings::<M>(a) + concat_encodings::<M>(
            b,
        ));
    } else if a.len() == 0 {
        assert(a + b =~= b);
        assert(concat_encodings::<M>(a + b) =~= concat_encodings::<M>(a) + concat_encodings::<M>(
            b,
        ));
    } else {
        law_values_follow_each_other::<M>(a, b.drop_last(), v);
        law_values_follow_each_other::<M>(a.drop_first(), b, v);
        assert((a + b).drop_last() =~= a + b.drop_last());
        assert((a + b).drop_first() =~= a.drop_first() + b);
        assert(concat_encodings::<M>(a + b) =~= concat_encodings::<M>(a) + concat_encodings::<M>(
            b,
        ));
    }
}

/// A sequence is its length and then its values one after the other.
pub proof fn law_sequence_layout<M: Encode>(values: &Vec<M>, r: Result<Vec<u8>, Error>)
    requires
        call_ensures(encode::<Vec<M>>, (values,), r),
    ensures
        r matches Ok(bytes) ==> bytes@.len() >= 4 && number_at(bytes@, 0) == values@.len()
            && bytes@.skip(4) == concat_encodings::<M>(values.deep_view()),
        r is Ok <==> values@.len() <= u32::MAX && forall|i: int|
            0 <= i < values@.len() ==> M::encodable((#[trigger] values@[i]).deep_view()),
{
    let v = values.deep_view();
    assert(v.len() == values@.len());
    if let Ok(bytes) = r {
        lemma_number_at(Seq::empty(), v.len() as u32, concat_encodings::<M>(v));
        assert(Seq::<u8>::empty() + (crate::wire::u32_bytes(v.len() as u32) + concat_encodings::<M>(
            v,
        )) =~= bytes@);
        assert(bytes@.skip(4) =~= concat_encodings::<M>(v));
    }
    assert((forall|i: int| 0 <= i < v.len() ==> M::encodable(#[trigger] v[i])) <==> (forall|i: int|
        0 <= i < values@.len() ==> M::encodable((#[trigger] values@[i]).deep_view()))) by {
        if forall|i: int| 0 <= i < v.len() ==> M::encodable(#[trigger] v[i]) {
            assert forall|i: int| 0 <= i < values@.len() implies M::encodable(
                (#[trigger] values@[i]).deep_view(),
            ) by {
                assert(v[i] == values@[i].deep_view());
            }
        }
        if forall|i: int|
            0 <= i < values@.len() ==> M::encodable((#[trigger] values@[i]).deep_view()) {
            assert forall|i: int| 0 <= i < v.len() implies M::encodable(#[trigger] v[i]) by {
                assert(v[i] == values@[i].deep_view());
            }
        }
    }
}

/// A packet is its signature of 64 bytes and then the message.
pub proof fn law_packet_layout(packet: &Packet, out: &mut Vec<u8>)
    requires
        call_ensures(Packet::serialize, (packet, out), ()),
    ensures
        final(out)@ == old(out)@ + packet.signature@ + packet.inner@,
{
    assert(final(out)@ =~= old(out)@ + packet.signature@ + packet.inner@);
}

/// A message to a replica is a tag and then its parts.
pub proof fn law_message_to_replica_layout(message: &ToReplica, r: Result<Vec<u8>, Error>)
    requires
        call_ensures(ToReplica::to_vec, (message,), r),
    ensures
        r matches Ok(bytes) ==> bytes@.len() > 0 && match message {
            ToReplica::Request(request) => bytes@[0] == 0 && bytes@.skip(1) == Request::encoding(
                request@,
            ),
            ToReplica::PrePrepare(packet, requests) => bytes@[0] == 1 && bytes@.skip(1)
                == packet.signature@ + packet.inner@ + Vec::<Request>::encoding(
                requests.deep_view(),
            ),
            ToReplica::Prepare(packet) => bytes@[0] == 2 && bytes@.skip(1) == packet.signature@
                + packet.inner@,
            ToReplica::Commit(packet) => bytes@[0] == 3 && bytes@.skip(1) == packet.signature@
                + packet.inner@,
        },
{
    if let Ok(bytes) = r {
        match message {
            ToReplica::Request(request) => {
                assert(bytes@.skip(1) =~= Request::encoding(request@));
            },
            ToReplica::PrePrepare(packet, requests) => {
                assert(bytes@.skip(1) =~= packet.signature@ + packet.inner@ + Vec::<
                    Request,
                >::encoding(requests.deep_view()));
            },
            ToReplica::Prepare(packet) => {
                assert(bytes@.skip(1) =~= packet.signature@ + packet.inner@);
            },
            ToReplica::Commit(packet) => {
                assert(bytes@.skip(1) =~= packet.signature@ + packet.inner@);
            },
        }
    }
}

/// A message of a peer is a tag and then a packet.
pub proof fn law_peer_message_layout(message: &Message, r: Vec<u8>)
    requires
        call_ensures(Message::to_vec, (message,), r),
    ensures
        r@.len() > 0,
        match message {
            Message::FindPeer(packet) => r@[0] == 0 && r@.skip(1) == packet.signature@
                + packet.inner@,
            Message::FindPeerOk(packet) => r@[0] == 1 && r@.skip(1) == packet.signature@
                + packet.inner@,
        },
{
    match message {
        Message::FindPeer(packet) => {
            assert(r@.skip(1) =~= packet.signature@ + packet.inner@);
        },
        Message::FindPeerOk(packet) => {
            assert(r@.skip(1) =~= packet.signature@ + packet.inner@);
        },
    }
}

/// A question is its location and the key of its peer, a record is its identifier,
/// its key and its address, and an answer is its location, its records behind their
/// number, and the key of its peer.
pub proof fn law_lookup_layouts(question: FindPeer, record: PeerRecord, answer: FindPeerOk)
    ensures
        FindPeer::encoding(question.deep_view()) == question.target@ + question.peer_key@,
        PeerRecord::encoding(record.deep_view()) == record.id@ + record.key@ + Addr::encoding(
            record.addr.deep_view(),
        ),
        FindPeerOk::encoding(answer.deep_view()) == answer.target@ + Vec::<PeerRecord>::encoding(
            answer.closest.deep_view(),
        ) + answer.peer_key@,
{
    assert(PeerRecord::encoding(record.deep_view()) =~= record.id@ + record.key@ + Addr::encoding(
        record.addr.deep_view(),
    ));
    assert(FindPeerOk::encoding(answer.deep_view()) =~= answer.target@ + Vec::<
        PeerRecord,
    >::encoding(answer.closest.deep_view()) + answer.peer_key@);
}

/// A socket is a tag for its version, its IP address with the most significant byte
/// first, and its port with the least significant byte first. An address is a tag
/// and a socket, or a tag and a name behind its length.
pub proof fn law_address_layout(addr: &Addr, r: Result<Vec<u8>, Error>)
    requires
        call_ensures(encode::<Addr>, (addr,), r),
    ensures
        addr matches Addr::Socket(SocketAddr::V4(at)) ==> {
            &&& r matches Ok(bytes)
            &&& bytes@.len() == 8
            &&& bytes@[0] == 0 && bytes@[1] == 0
            &&& 16777216 * bytes@[2] + 65536 * bytes@[3] + 256 * bytes@[4] + bytes@[5] == at.ip
            &&& bytes@[6] + 256 * bytes@[7] == at.port
        },
        addr matches Addr::Socket(SocketAddr::V6(at)) ==> {
            &&& r matches Ok(bytes)
            &&& bytes@.len() == 20
            &&& bytes@[0] == 0 && bytes@[1] == 1
            &&& bytes@.subrange(2, 18) == be_bytes(at.ip as nat, 16)
            &&& bytes@[18] + 256 * bytes@[19] == at.port
        },
        addr matches Addr::Untyped(name) ==> (r matches Ok(bytes) ==> bytes@[0] == 1 && number_at(
            bytes@,
            1,
        ) == bytes@.len() - 5 && bytes@.skip(5) == vstd::utf8::encode_utf8(name@)),
{
    match addr {
        Addr::Socket(SocketAddr::V4(at)) => {
            let bytes = r.unwrap()@;
            crate::wire::lemma_be_bytes(at.ip as nat, 4);
            reveal_with_fuel(be_bytes, 5);
            let ip = be_bytes(at.ip as nat, 4);
            let n = at.ip as nat;
            assert(ip.len() == 4);
            assert(bytes.subrange(2, 6) =~= ip);
            assert(bytes[2] == ip[0] && bytes[3] == ip[1] && bytes[4] == ip[2] && bytes[5]
                == ip[3]);
            assert(ip[3] == n % 256);
            assert(ip[2] == (n / 256) % 256);
            assert(ip[1] == (n / 256 / 256) % 256);
            assert(ip[0] == (n / 256 / 256 / 256) % 256);
        },
        Addr::Socket(SocketAddr::V6(at)) => {
            let bytes = r.unwrap()@;
            crate::wire::lemma_be_bytes(at.ip as nat, 16);
            assert(bytes.subrange(2, 18) =~= be_bytes(at.ip as nat, 16));
        },
        Addr::Untyped(name) => {
            if let Ok(bytes) = r {
                let text = vstd::utf8::encode_utf8(name@);
                lemma_number_at(seq![1u8], text.len() as u32, text);
                assert(seq![1u8] + (crate::wire::u32_bytes(text.len() as u32) + text) =~= bytes@);
                assert(bytes@.skip(5) =~= text);
            }
        },
    }
}

/// A pair is its two parts one after the other, a byte is itself, an array is its
/// bytes, and bytes of any length stand behind their length.
pub proof fn law_part_layouts<A: Encode, B: Encode, const N: usize>(
    pair: (A, B),
    byte: u8,
    array: [u8; N],
    blob: Blob,
)
    ensures
        <(A, B)>::encoding(pair.deep_view()) == A::encoding(pair.0.deep_view()) + B::encoding(
            pair.1.deep_view(),
        ),
        u8::encoding(byte.deep_view()) == seq![byte],
        <[u8; N]>::encoding(array.deep_view()) == array@,
        Blob::encoding(blob.deep_view()).skip(4) == blob.0@,
        blob.0@.len() <= u32::MAX ==> number_at(Blob::encoding(blob.deep_view()), 0)
            == blob.0@.len(),
{
    assert(array.deep_view() =~= array@);
    let n = blob.0@.len() as u32;
    let all = Blob::encoding(blob.deep_view());
    lemma_number_at(Seq::empty(), n, blob.0@);
    assert(Seq::<u8>::empty() + (crate::wire::u32_bytes(n) + blob.0@) =~= all);
    assert(all.skip(4) =~= blob.0@);
}

/// What is seen of messages is all that is in them.
pub proof fn law_views_are_complete(
    request: Request,
    reply: Reply,
    record: PeerRecord,
    packet: Packet,
)
    ensures
        request@.client_id == request.client_id && request@.request_num == request.request_num
            && request@.op == request.op@,
        reply@.request_num == reply.request_num && reply@.result == reply.result@
            && reply@.replica_id == reply.replica_id && reply@.view_num == reply.view_num,
        record@.id == record.id@ && record@.key == record.key@ && record@.addr == record.addr@,
        packet@.signature == packet.signature@ && packet@.inner == packet.inner@,
        record.addr matches Addr::Socket(at) ==> record.addr@ == AddrView::Socket(at),
        record.addr matches Addr::Untyped(name) ==> record.addr@ == AddrView::Untyped(name@),
{
}

} // verus!
