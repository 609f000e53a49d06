//! Practical Byzantine fault tolerance: the messages, and the decisions of each
//! session that exchanges them.

use vstd::prelude::*;

use crate::crypto::{law_packet_round_trip, Digest, Packet, PacketView};
use crate::error::Error;
use crate::wire::{
    blob_bytes, decode, is_encoded, put_blob, put_bytes, put_u32, take_u8, u32_bytes, Blob, Encode,
    Format,
};

pub mod batch;
pub mod client;
pub mod client_laws;
pub mod commit;
pub mod laws;
pub mod prepare;
pub mod progress;
pub mod quorum;
pub mod view;
pub mod view_laws;

verus! {

/// An operation that a client asks for.
#[derive(Debug, PartialEq, Eq)]
pub struct Request {
    pub client_id: u32,
    pub request_num: u32,
    pub op: Vec<u8>,
}

pub ghost struct RequestView {
    pub client_id: u32,
    pub request_num: u32,
    pub op: Seq<u8>,
}

impl View for Request {
    type V = RequestView;

    open spec fn view(&self) -> RequestView {
        RequestView { client_id: self.client_id, request_num: self.request_num, op: self.op@ }
    }
}

impl DeepView for Request {
    type V = RequestView;

    open spec fn deep_view(&self) -> RequestView {
        self@
    }
}

impl Clone for Request {
    fn clone(&self) -> (r: Self)
        ensures
            r@ == self@,
    {
        Request {
            client_id: self.client_id,
            request_num: self.request_num,
            op: self.op.clone(),
        }
    }
}

impl Format for Request {
    open spec fn encodable(v: RequestView) -> bool {
        v.op.len() <= u32::MAX
    }

    open spec fn encoding(v: RequestView) -> Seq<u8> {
        u32_bytes(v.client_id) + (u32_bytes(v.request_num) + blob_bytes(v.op))
    }
}

impl Encode for Request {
    proof fn encoding_prefix(a: RequestView, ra: Seq<u8>, b: RequestView, rb: Seq<u8>) {
        <(u32, (u32, Blob))>::encoding_prefix(
            (a.client_id, (a.request_num, a.op)),
            ra,
            (b.client_id, (b.request_num, b.op)),
            rb,
        );
    }

    fn put(&self, out: &mut Vec<u8>) -> (r: Result<(), Error>) {
        let ghost before = out@;
        put_u32(out, self.client_id);
        put_u32(out, self.request_num);
        let r = put_blob(out, &self.op);
        assert(before + u32_bytes(self.client_id) + u32_bytes(self.request_num) + blob_bytes(
            self.op@,
        ) =~= before + Self::encoding(self@));
        r
    }

    fn take<'a>(bytes: &'a [u8]) -> (r: Option<(Self, &'a [u8])>) {
        match <(u32, (u32, Blob))>::take(bytes) {
            Some(((client_id, (request_num, op)), rest)) => {
                Some((Request { client_id, request_num, op: op.0 }, rest))
            },
            None => {
                assert forall|v: RequestView, rest: Seq<u8>| !#[trigger] is_encoded::<Self>(
                    bytes@,
                    v,
                    rest,
                ) by {
                    assert(!is_encoded::<(u32, (u32, Blob))>(
                        bytes@,
                        (v.client_id, (v.request_num, v.op)),
                        rest,
                    ));
                }
                None
            },
        }
    }
}

/// What a replica answers to a request.
#[derive(Debug, PartialEq, Eq)]
pub struct Reply {
    pub request_num: u32,
    pub result: Vec<u8>,
    pub replica_id: u8,
    pub view_num: u32,
}

pub ghost struct ReplyView {
    pub request_num: u32,
    pub result: Seq<u8>,
    pub replica_id: u8,
    pub view_num: u32,
}

impl View for Reply {
    type V = ReplyView;

    open spec fn view(&self) -> ReplyView {
        ReplyView {
            request_num: self.request_num,
            result: self.result@,
            replica_id: self.replica_id,
            view_num: self.view_num,
        }
    }
}

impl DeepView for Reply {
    type V = ReplyView;

    open spec fn deep_view(&self) -> ReplyView {
        self@
    }
}

impl Clone for Reply {
    fn clone(&self) -> (r: Self)
        ensures
            r@ == self@,
    {
        Reply {
            request_num: self.request_num,
            result: self.result.clone(),
            replica_id: self.replica_id,
            view_num: self.view_num,
        }
    }
}

impl Format for Reply {
    open spec fn encodable(v: ReplyView) -> bool {
        v.result.len() <= u32::MAX
    }

    open spec fn encoding(v: ReplyView) -> Seq<u8> {
        u32_bytes(v.request_num) + (blob_bytes(v.result) + (seq![v.replica_id] + u32_bytes(v.view_num)))
    }
}

impl Encode for Reply {
    proof fn encoding_prefix(a: ReplyView, ra: Seq<u8>, b: ReplyView, rb: Seq<u8>) {
        <(u32, (Blob, (u8, u32)))>::encoding_prefix(
            (a.request_num, (a.result, (a.replica_id, a.view_num))),
            ra,
            (b.request_num, (b.result, (b.replica_id, b.view_num))),
            rb,
        );
    }

    fn put(&self, out: &mut Vec<u8>) -> (r: Result<(), Error>) {
        let ghost before = out@;
        put_u32(out, self.request_num);
        match put_blob(out, &self.result) {
            Ok(_) => {},
            Err(e) => return Err(e),
        }
        out.push(self.replica_id);
        put_u32(out, self.view_num);
        assert(out@ =~= before + Self::encoding(self@));
        Ok(())
    }

    fn take<'a>(bytes: &'a [u8]) -> (r: Option<(Self, &'a [u8])>) {
        match <(u32, (Blob, (u8, u32)))>::take(bytes) {
            Some(((request_num, (result, (replica_id, view_num))), rest)) => {
                Some((Reply { request_num, result: result.0, replica_id, view_num }, rest))
            },
            None => {
                assert forall|v: ReplyView, rest: Seq<u8>| !#[trigger] is_encoded::<Self>(
                    bytes@,
                    v,
                    rest,
                ) by {
                    assert(!is_encoded::<(u32, (Blob, (u8, u32)))>(
                        bytes@,
                        (v.request_num, (v.result, (v.replica_id, v.view_num))),
                        rest,
                    ));
                }
                None
            },
        }
    }
}

/// The order that a primary proposes for the requests with a digest.
#[derive(Debug, Clone, Copy, PartialEq, Eq)]
pub struct PrePrepare {
    pub view_num: u32,
    pub op_num: u32,
    pub digest: Digest,
}

pub ghost struct PrePrepareView {
    pub view_num: u32,
    pub op_num: u32,
    pub digest: Seq<u8>,
}

impl View for PrePrepare {
    type V = PrePrepareView;

    open spec fn view(&self) -> PrePrepareView {
        PrePrepareView {
            view_num: self.view_num,
            op_num: self.op_num,
            digest: self.digest@,
        }
    }
}

impl DeepView for PrePrepare {
    type V = PrePrepareView;

    open spec fn deep_view(&self) -> PrePrepareView {
        self@
    }
}

impl Format for PrePrepare {
    open spec fn encodable(v: PrePrepareView) -> bool {
        v.digest.len() == 32
    }

    open spec fn encoding(v: PrePrepareView) -> Seq<u8> {
        u32_bytes(v.view_num) + (u32_bytes(v.op_num) + v.digest)
    }
}

impl Encode for PrePrepare {
    proof fn encoding_prefix(a: PrePrepareView, ra: Seq<u8>, b: PrePrepareView, rb: Seq<u8>) {
        <(u32, (u32, [u8; 32]))>::encoding_prefix(
            (a.view_num, (a.op_num, a.digest)),
            ra,
            (b.view_num, (b.op_num, b.digest)),
            rb,
        );
    }

    fn put(&self, out: &mut Vec<u8>) -> (r: Result<(), Error>) {
        let ghost before = out@;
        put_u32(out, self.view_num);
        put_u32(out, self.op_num);
        put_bytes(out, self.digest.as_slice());
        assert(out@ =~= before + Self::encoding(self@));
        Ok(())
    }

    fn take<'a>(bytes: &'a [u8]) -> (r: Option<(Self, &'a [u8])>) {
        match <(u32, (u32, [u8; 32]))>::take(bytes) {
            Some(((view_num, (op_num, digest)), rest)) => {
                assert(digest.deep_view() =~= digest@);
                Some((PrePrepare { view_num, op_num, digest }, rest))
            },
            None => {
                assert forall|v: PrePrepareView, rest: Seq<u8>| !#[trigger] is_encoded::<Self>(
                    bytes@,
                    v,
                    rest,
                ) by {
                    assert(!is_encoded::<(u32, (u32, [u8; 32]))>(
                        bytes@,
                        (v.view_num, (v.op_num, v.digest)),
                        rest,
                    ));
                }
                None
            },
        }
    }
}

/// The vote of a backup for a proposed order.
#[derive(Debug, Clone, Copy, PartialEq, Eq)]
pub struct Prepare {
    pub view_num: u32,
    pub op_num: u32,
    pub digest: Digest,
    pub replica_id: u8,
}

pub ghost struct PrepareView {
    pub view_num: u32,
    pub op_num: u32,
    pub digest: Seq<u8>,
    pub replica_id: u8,
}

impl View for Prepare {
    type V = PrepareView;

    open spec fn view(&self) -> PrepareView {
        PrepareView {
            view_num: self.view_num,
            op_num: self.op_num,
            digest: self.digest@,
            replica_id: self.replica_id,
        }
    }
}

impl DeepView for Prepare {
    type V = PrepareView;

    open spec fn deep_view(&self) -> PrepareView {
        self@
    }
}

impl Format for Prepare {
    open spec fn encodable(v: PrepareView) -> bool {
        v.digest.len() == 32
    }

    open spec fn encoding(v: PrepareView) -> Seq<u8> {
        u32_bytes(v.view_num) + (u32_bytes(v.op_num) + (v.digest + seq![v.replica_id]))
    }
}

impl Encode for Prepare {
    proof fn encoding_prefix(a: PrepareView, ra: Seq<u8>, b: PrepareView, rb: Seq<u8>) {
        <(u32, (u32, ([u8; 32], u8)))>::encoding_prefix(
            (a.view_num, (a.op_num, (a.digest, a.replica_id))),
            ra,
            (b.view_num, (b.op_num, (b.digest, b.replica_id))),
            rb,
        );
    }

    fn put(&self, out: &mut Vec<u8>) -> (r: Result<(), Error>) {
        let ghost before = out@;
        put_u32(out, self.view_num);
        put_u32(out, self.op_num);
        put_bytes(out, self.digest.as_slice());
        out.push(self.replica_id);
        assert(out@ =~= before + Self::encoding(self@));
        Ok(())
    }

    fn take<'a>(bytes: &'a [u8]) -> (r: Option<(Self, &'a [u8])>) {
        match <(u32, (u32, ([u8; 32], u8)))>::take(bytes) {
            Some(((view_num, (op_num, (digest, replica_id))), rest)) => {
                assert(digest.deep_view() =~= digest@);
                Some((Prepare { view_num, op_num, digest, replica_id }, rest))
            },
            None => {
                assert forall|v: PrepareView, rest: Seq<u8>| !#[trigger] is_encoded::<Self>(
                    bytes@,
                    v,
                    rest,
                ) by {
                    assert(!is_encoded::<(u32, (u32, ([u8; 32], u8)))>(
                        bytes@,
                        (v.view_num, (v.op_num, (v.digest, v.replica_id))),
                        rest,
                    ));
                }
                None
            },
        }
    }
}

/// The vote of a replica to execute a prepared order.
#[derive(Debug, Clone, Copy, PartialEq, Eq)]
pub struct Commit {
    pub view_num: u32,
    pub op_num: u32,
    pub digest: Digest,
    pub replica_id: u8,
}

pub ghost struct CommitView {
    pub view_num: u32,
    pub op_num: u32,
    pub digest: Seq<u8>,
    pub replica_id: u8,
}

impl View for Commit {
    type V = CommitView;

    open spec fn view(&self) -> CommitView {
        CommitView {
            view_num: self.view_num,
            op_num: self.op_num,
            digest: self.digest@,
            replica_id: self.replica_id,
        }
    }
}

impl DeepView for Commit {
    type V = CommitView;

    open spec fn deep_view(&self) -> CommitView {
        self@
    }
}

impl Format for Commit {
    open spec fn encodable(v: CommitView) -> bool {
        v.digest.len() == 32
    }

    open spec fn encoding(v: CommitView) -> Seq<u8> {
        u32_bytes(v.view_num) + (u32_bytes(v.op_num) + (v.digest + seq![v.replica_id]))
    }
}

impl Encode for Commit {
    proof fn encoding_prefix(a: CommitView, ra: Seq<u8>, b: CommitView, rb: Seq<u8>) {
        <(u32, (u32, ([u8; 32], u8)))>::encoding_prefix(
            (a.view_num, (a.op_num, (a.digest, a.replica_id))),
            ra,
            (b.view_num, (b.op_num, (b.digest, b.replica_id))),
            rb,
        );
    }

    fn put(&self, out: &mut Vec<u8>) -> (r: Result<(), Error>) {
        let ghost before = out@;
        put_u32(out, self.view_num);
        put_u32(out, self.op_num);
        put_bytes(out, self.digest.as_slice());
        out.push(self.replica_id);
        assert(out@ =~= before + Self::encoding(self@));
        Ok(())
    }

    fn take<'a>(bytes: &'a [u8]) -> (r: Option<(Self, &'a [u8])>) {
        match <(u32, (u32, ([u8; 32], u8)))>::take(bytes) {
            Some(((view_num, (op_num, (digest, replica_id))), rest)) => {
                assert(digest.deep_view() =~= digest@);
                Some((Commit { view_num, op_num, digest, replica_id }, rest))
            },
            None => {
                assert forall|v: CommitView, rest: Seq<u8>| !#[trigger] is_encoded::<Self>(
                    bytes@,
                    v,
                    rest,
                ) by {
                    assert(!is_encoded::<(u32, (u32, ([u8; 32], u8)))>(
                        bytes@,
                        (v.view_num, (v.op_num, (v.digest, v.replica_id))),
                        rest,
                    ));
                }
                None
            },
        }
    }
}

/// What replicas receive.
#[derive(Debug, PartialEq, Eq)]
pub enum ToReplica {
    Request(Request),
    PrePrepare(Packet, Vec<Request>),
    Prepare(Packet),
    Commit(Packet),
}

pub ghost enum ToReplicaView {
    Request(RequestView),
    PrePrepare(PacketView, Seq<RequestView>),
    Prepare(PacketView),
    Commit(PacketView),
}

impl View for ToReplica {
    type V = ToReplicaView;

    open spec fn view(&self) -> ToReplicaView {
        match self {
            ToReplica::Request(request) => ToReplicaView::Request(request@),
            ToReplica::PrePrepare(packet, requests) => ToReplicaView::PrePrepare(
                packet@,
                requests.deep_view(),
            ),
            ToReplica::Prepare(packet) => ToReplicaView::Prepare(packet@),
            ToReplica::Commit(packet) => ToReplicaView::Commit(packet@),
        }
    }
}

impl ToReplicaView {
    /// Whether the message can be put in bytes.
    pub open spec fn encodable(self) -> bool {
        match self {
            ToReplicaView::Request(request) => Request::encodable(request),
            ToReplicaView::PrePrepare(packet, requests) => packet.wf() && Vec::<
                Request,
            >::encodable(requests),
            ToReplicaView::Prepare(packet) => packet.wf(),
            ToReplicaView::Commit(packet) => packet.wf(),
        }
    }

    /// The wire form: a tag, then the parts. A packet has no length in front.
    pub open spec fn bytes(self) -> Seq<u8> {
        match self {
            ToReplicaView::Request(request) => seq![0u8] + Request::encoding(request),
            ToReplicaView::PrePrepare(packet, requests) => seq![1u8] + (packet.bytes() + Vec::<
                Request,
            >::encoding(requests)),
            ToReplicaView::Prepare(packet) => seq![2u8] + packet.bytes(),
            ToReplicaView::Commit(packet) => seq![3u8] + packet.bytes(),
        }
    }

    /// Whether the wire form can be read. A packet extends to the end of its
    /// message, so that requests behind one are out of reach.
    pub open spec fn readable(self) -> bool {
        self.encodable() && !(self is PrePrepare)
    }
}

impl ToReplica {
    /// The wire form of the message.
    pub fn to_vec(&self) -> (r: Result<Vec<u8>, Error>)
        ensures
            match r {
                Ok(bytes) => self@.encodable() && bytes@ == self@.bytes(),
                Err(e) => e == Error::Encoding && !self@.encodable(),
            },
    {
        let mut out: Vec<u8> = Vec::new();
        match self {
            ToReplica::Request(request) => {
                out.push(0);
                match request.put(&mut out) {
                    Ok(_) => {},
                    Err(e) => return Err(e),
                }
            },
            ToReplica::PrePrepare(packet, requests) => {
                out.push(1);
                packet.serialize(&mut out);
                match requests.put(&mut out) {
                    Ok(_) => {},
                    Err(e) => return Err(e),
                }
            },
            ToReplica::Prepare(packet) => {
                out.push(2);
                packet.serialize(&mut out);
            },
            ToReplica::Commit(packet) => {
                out.push(3);
                packet.serialize(&mut out);
            },
        }
        assert(out@ =~= self@.bytes());
        Ok(out)
    }

    /// The message with the wire form `bytes`.
    pub fn from_slice(bytes: &[u8]) -> (r: Result<ToReplica, Error>)
        ensures
            match r {
                Ok(message) => message@.readable() && bytes@ == message@.bytes(),
                Err(e) => e == Error::Decoding && forall|v: ToReplicaView|
                    v.readable() ==> bytes@ != #[trigger] v.bytes(),
            },
    {
        let (tag, rest) = match take_u8(bytes) {
            Some(r) => r,
            None => return Err(Error::Decoding),
        };
        proof {
            assert forall|v: ToReplicaView| v.readable() && bytes@ == #[trigger] v.bytes() implies {
                &&& v is Request ==> tag == 0 && rest@ == Request::encoding(v->Request_0)
                &&& v is Prepare ==> tag == 2 && rest@ == v->Prepare_0.bytes()
                &&& v is Commit ==> tag == 3 && rest@ == v->Commit_0.bytes()
            } by {
                assert(v.bytes()[0] == bytes@[0]);
                assert(v.bytes().skip(1) =~= rest@);
                match v {
                    ToReplicaView::Request(request) => {
                        assert(v.bytes().skip(1) =~= Request::encoding(request));
                    },
                    ToReplicaView::PrePrepare(packet, requests) => {},
                    ToReplicaView::Prepare(packet) => {
                        assert(v.bytes().skip(1) =~= packet.bytes());
                    },
                    ToReplicaView::Commit(packet) => {
                        assert(v.bytes().skip(1) =~= packet.bytes());
                    },
                }
            }
        }
        if tag == 0 {
            match decode::<Request>(rest) {
                Ok(request) => Ok(ToReplica::Request(request)),
                Err(e) => Err(e),
            }
        } else if tag == 2 {
            match Packet::deserialize_reader(rest) {
                Ok(packet) => Ok(ToReplica::Prepare(packet)),
                Err(e) => Err(e),
            }
        } else if tag == 3 {
            match Packet::deserialize_reader(rest) {
                Ok(packet) => Ok(ToReplica::Commit(packet)),
                Err(e) => Err(e),
            }
        } else {
            Err(Error::Decoding)
        }
    }
}

/// Reading a message for replicas gives back the one that was written, for
/// every message that can be read at all.
pub proof fn law_to_replica_round_trip(written: ToReplicaView, read: ToReplicaView)
    requires
        written.readable(),
        read.readable(),
        read.bytes() == written.bytes(),
    ensures
        read == written,
{
    let tag = written.bytes()[0];
    assert(read.bytes()[0] == tag);
    let rest = written.bytes().skip(1);
    match written {
        ToReplicaView::Request(a) => {
            let b = read->Request_0;
            assert(rest =~= Request::encoding(a));
            assert(read.bytes().skip(1) =~= Request::encoding(b));
            Request::encoding_prefix(a, Seq::empty(), b, Seq::empty());
        },
        ToReplicaView::PrePrepare(_, _) => {},
        ToReplicaView::Prepare(a) => {
            let b = read->Prepare_0;
            assert(rest =~= a.bytes());
            assert(read.bytes().skip(1) =~= b.bytes());
            law_packet_round_trip(a, b);
        },
        ToReplicaView::Commit(a) => {
            let b = read->Commit_0;
            assert(rest =~= a.bytes());
            assert(read.bytes().skip(1) =~= b.bytes());
            law_packet_round_trip(a, b);
        },
    }
}

/// What happens to a replica.
#[derive(Debug)]
pub enum ReplicaEvent {
    Message(ToReplica),
    ReplyReady(u32, Reply),
}

} // verus!
