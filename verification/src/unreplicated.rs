//! The baseline without replication: one replica that executes each request of
//! a client at most once at a time and keeps the latest reply.

use std::collections::HashMap;

use vstd::prelude::*;

use crate::error::Error;
use crate::replication::{Client, Replica};
use crate::transport::SendTo;
use crate::wire::{
    blob_bytes, is_encoded, put_blob, put_u32, u32_bytes, Blob, Encode, Format,
};

pub mod laws;

verus! {

/// An operation that a client asks for.
#[derive(Debug, PartialEq, Eq, Hash)]
pub struct Request {
    pub client_id: u32,
    pub request_num: u32,
    pub op: Vec<u8>,
}

pub ghost struct RequestView {
    pub client_id: u32,
    pub request_num: u32,
    pub op: Seq<u8>,
}

impl View for Request {
    type V = RequestView;

    open spec fn view(&self) -> RequestView {
        RequestView { client_id: self.client_id, request_num: self.request_num, op: self.op@ }
    }
}

impl DeepView for Request {
    type V = RequestView;

    open spec fn deep_view(&self) -> RequestView {
        self@
    }
}

impl Clone for Request {
    fn clone(&self) -> (r: Self)
        ensures
            r@ == self@,
    {
        Request {
            client_id: self.client_id,
            request_num: self.request_num,
            op: self.op.clone(),
        }
    }
}

impl Format for Request {
    open spec fn encodable(v: RequestView) -> bool {
        v.op.len() <= u32::MAX
    }

    open spec fn encoding(v: RequestView) -> Seq<u8> {
        u32_bytes(v.client_id) + (u32_bytes(v.request_num) + blob_bytes(v.op))
    }
}

impl Encode for Request {
    proof fn encoding_prefix(a: RequestView, ra: Seq<u8>, b: RequestView, rb: Seq<u8>) {
        <(u32, (u32, Blob))>::encoding_prefix(
            (a.client_id, (a.request_num, a.op)),
            ra,
            (b.client_id, (b.request_num, b.op)),
            rb,
        );
    }

    fn put(&self, out: &mut Vec<u8>) -> (r: Result<(), Error>) {
        let ghost before = out@;
        put_u32(out, self.client_id);
        put_u32(out, self.request_num);
        match put_blob(out, &self.op) {
            Ok(_) => {},
            Err(e) => return Err(e),
        }
        assert(out@ =~= before + Self::encoding(self@));
        Ok(())
    }

    fn take<'a>(bytes: &'a [u8]) -> (r: Option<(Self, &'a [u8])>) {
        match <(u32, (u32, Blob))>::take(bytes) {
            Some(((client_id, (request_num, op)), rest)) => {
                Some((Request { client_id, request_num, op: op.0 }, rest))
            },
            None => {
                assert forall|v: RequestView, rest: Seq<u8>| !#[trigger] is_encoded::<Self>(
                    bytes@,
                    v,
                    rest,
                ) by {
                    assert(!is_encoded::<(u32, (u32, Blob))>(
                        bytes@,
                        (v.client_id, (v.request_num, v.op)),
                        rest,
                    ));
                }
                None
            },
        }
    }
}

/// What the replica answers to a request.
#[derive(Debug, PartialEq, Eq, Hash)]
pub struct Reply {
    pub request_num: u32,
    pub result: Vec<u8>,
}

pub ghost struct ReplyView {
    pub request_num: u32,
    pub result: Seq<u8>,
}

impl View for Reply {
    type V = ReplyView;

    open spec fn view(&self) -> ReplyView {
        ReplyView { request_num: self.request_num, result: self.result@ }
    }
}

impl DeepView for Reply {
    type V = ReplyView;

    open spec fn deep_view(&self) -> ReplyView {
        self@
    }
}

impl Clone for Reply {
    fn clone(&self) -> (r: Self)
        ensures
            r@ == self@,
    {
        Reply { request_num: self.request_num, result: self.result.clone() }
    }
}

impl Format for Reply {
    open spec fn encodable(v: ReplyView) -> bool {
        v.result.len() <= u32::MAX
    }

    open spec fn encoding(v: ReplyView) -> Seq<u8> {
        u32_bytes(v.request_num) + blob_bytes(v.result)
    }
}

impl Encode for Reply {
    proof fn encoding_prefix(a: ReplyView, ra: Seq<u8>, b: ReplyView, rb: Seq<u8>) {
        <(u32, Blob)>::encoding_prefix((a.request_num, a.result), ra, (b.request_num, b.result), rb);
    }

    fn put(&self, out: &mut Vec<u8>) -> (r: Result<(), Error>) {
        let ghost before = out@;
        put_u32(out, self.request_num);
        match put_blob(out, &self.result) {
            Ok(_) => {},
            Err(e) => return Err(e),
        }
        assert(out@ =~= before + Self::encoding(self@));
        Ok(())
    }

    fn take<'a>(bytes: &'a [u8]) -> (r: Option<(Self, &'a [u8])>) {
        match <(u32, Blob)>::take(bytes) {
            Some(((request_num, result), rest)) => {
                Some((Reply { request_num, result: result.0 }, rest))
            },
            None => {
                assert forall|v: ReplyView, rest: Seq<u8>| !#[trigger] is_encoded::<Self>(
                    bytes@,
                    v,
                    rest,
                ) by {
                    assert(!is_encoded::<(u32, Blob)>(bytes@, (v.request_num, v.result), rest));
                }
                None
            },
        }
    }
}

/// What a client carries from one operation to the next.
#[derive(Debug, Clone, Copy, PartialEq, Eq, Structural)]
pub struct ClientSession {
    pub request_num: u32,
}

impl ClientSession {
    pub fn new() -> (r: Self)
        ensures
            r.request_num == 0,
    {
        ClientSession { request_num: 0 }
    }

    /// The request for the next operation. Requests are numbered from one.
    pub fn submit(&mut self, client: &Client, op: Vec<u8>) -> (r: Request)
        requires
            old(self).request_num < u32::MAX,
        ensures
            final(self).request_num == old(self).request_num + 1,
            r.client_id == client.id,
            r.request_num == final(self).request_num,
            r.op == op,
    {
        self.request_num += 1;
        Request { client_id: client.id, request_num: self.request_num, op }
    }
}

/// A request that is waiting for its reply.
#[derive(Debug)]
pub struct RequestSession {
    pub request: Request,
}

impl RequestSession {
    /// Sends the request to the replica: at first, and after each interval
    /// without a reply.
    pub fn send(&self, client: &Client) -> (r: SendTo<Request>)
        requires
            client.addr_book.knows_replica(0),
        ensures
            r.destination@ == client.addr_book.replica_view(0),
            r.message@ == self.request@,
    {
        SendTo { destination: client.addr_book.replica_addr(0), message: self.request.clone() }
    }

    /// The result in a reply, unless it is to an earlier request.
    pub fn on_reply(&self, reply: Reply) -> (r: Option<Vec<u8>>)
        requires
            reply.request_num <= self.request.request_num,
        ensures
            r == if reply.request_num == self.request.request_num {
                Some(reply.result)
            } else {
                None
            },
    {
        if reply.request_num == self.request.request_num {
            Some(reply.result)
        } else {
            None
        }
    }
}

/// What happens to the replica besides requests.
#[derive(Debug)]
pub enum ReplicaEvent {
    ReplyReady(u32, Reply),
}

/// The latest request of a client, and how far it is.
#[derive(Debug, PartialEq, Eq)]
pub enum ClientEntry {
    Submitted(u32),
    Replied(Reply),
}

pub ghost enum ClientEntryView {
    Submitted(u32),
    Replied(ReplyView),
}

impl View for ClientEntry {
    type V = ClientEntryView;

    open spec fn view(&self) -> ClientEntryView {
        match self {
            ClientEntry::Submitted(request_num) => ClientEntryView::Submitted(*request_num),
            ClientEntry::Replied(reply) => ClientEntryView::Replied(reply@),
        }
    }
}

/// What the replica is to do about a request.
#[derive(Debug)]
pub enum Action {
    Ignore,
    Resend(SendTo<Reply>),
    Execute(Request),
}

/// What a request calls for.
pub ghost enum Verdict {
    Ignore,
    Resend(ReplyView),
    Execute,
}

/// A request is new when it is later than all that its client has sent. One that
/// is being executed and all earlier ones are ignored, and the latest reply is
/// sent again to whoever asks for it again.
pub open spec fn verdict(entries: Map<u32, ClientEntryView>, request: RequestView) -> Verdict {
    if !entries.contains_key(request.client_id) {
        Verdict::Execute
    } else {
        match entries[request.client_id] {
            ClientEntryView::Submitted(request_num) => if request_num >= request.request_num {
                Verdict::Ignore
            } else {
                Verdict::Execute
            },
            ClientEntryView::Replied(reply) => if reply.request_num > request.request_num {
                Verdict::Ignore
            } else if reply.request_num == request.request_num {
                Verdict::Resend(reply)
            } else {
                Verdict::Execute
            },
        }
    }
}

/// The state of the replica: the latest request of each client.
#[derive(Debug)]
pub struct ReplicaSession {
    pub client_entries: HashMap<u32, ClientEntry>,
}

impl ReplicaSession {
    pub open spec fn entries(&self) -> Map<u32, ClientEntryView> {
        self.client_entries@.map_values(|entry: ClientEntry| entry@)
    }

    pub fn new() -> (r: Self)
        ensures
            r.entries() == Map::<u32, ClientEntryView>::empty(),
    {
        let r = ReplicaSession { client_entries: HashMap::new() };
        assert(r.entries() =~= Map::<u32, ClientEntryView>::empty());
        r
    }

    /// Takes a request in. A new one is to be executed.
    pub fn on_request(&mut self, replica: &Replica, request: Request) -> (r: Action)
        requires
            verdict(old(self).entries(), request@) is Resend ==> replica.addr_book.knows_client(
                request.client_id,
            ),
        ensures
            match verdict(old(self).entries(), request@) {
                Verdict::Ignore => r is Ignore && final(self).entries() == old(self).entries(),
                Verdict::Resend(reply) => {
                    &&& r matches Action::Resend(send)
                    &&& replica.addr_book.is_client(request.client_id, send.destination@)
                    &&& send.message@ == reply
                    &&& final(self).entries() == old(self).entries()
                },
                Verdict::Execute => {
                    &&& r == Action::Execute(request)
                    &&& final(self).entries() == old(self).entries().insert(
                        request.client_id,
                        ClientEntryView::Submitted(request.request_num),
                    )
                },
            },
            final(self).entries() == after_event(old(self).entries(), Event::Request(request@)),
    {
        match self.client_entries.get(&request.client_id) {
            Some(ClientEntry::Submitted(request_num)) => {
                if *request_num >= request.request_num {
                    return Action::Ignore;
                }
            },
            Some(ClientEntry::Replied(reply)) => {
                if reply.request_num > request.request_num {
                    return Action::Ignore;
                }
                if reply.request_num == request.request_num {
                    return Action::Resend(
                        replica.send_to_client(request.client_id, reply.clone()),
                    );
                }
            },
            None => {},
        }
        let ghost before = self.entries();
        let num: u32 = request.request_num;
        self.client_entries.insert(request.client_id, ClientEntry::Submitted(num));
        assert(self.entries() =~= before.insert(
            request.client_id,
            ClientEntryView::Submitted(num),
        ));
        Action::Execute(request)
    }

    /// The reply to an executed request.
    pub fn reply(request_num: u32, result: Vec<u8>) -> (r: Reply)
        ensures
            r.request_num == request_num,
            r.result == result,
    {
        Reply { request_num, result }
    }

    /// Notes the reply to the request that was being executed, and sends it.
    pub fn on_reply_ready(&mut self, replica: &Replica, client_id: u32, reply: Reply) -> (r: SendTo<
        Reply,
    >)
        requires
            can_happen(old(self).entries(), Event::ReplyReady(client_id, reply@)),
            replica.addr_book.knows_client(client_id),
        ensures
            final(self).entries() == after_event(
                old(self).entries(),
                Event::ReplyReady(client_id, reply@),
            ),
            final(self).entries() == old(self).entries().insert(
                client_id,
                ClientEntryView::Replied(reply@),
            ),
            replica.addr_book.is_client(client_id, r.destination@),
            r.message@ == reply@,
    {
        let ghost before = self.entries();
        let copy = reply.clone();
        self.client_entries.insert(client_id, ClientEntry::Replied(copy));
        assert(self.entries() =~= before.insert(client_id, ClientEntryView::Replied(reply@)));
        replica.send_to_client(client_id, reply)
    }
}

/// What a replica has gone through: it took a request in, or a request that was
/// being executed got its reply.
pub ghost enum Event {
    Request(RequestView),
    ReplyReady(u32, ReplyView),
}

/// Whether an event can happen to a replica: there is a reply only to the request
/// that is being executed.
pub open spec fn can_happen(entries: Map<u32, ClientEntryView>, event: Event) -> bool {
    match event {
        Event::Request(_) => true,
        Event::ReplyReady(client_id, reply) => entries.contains_key(client_id)
            && entries[client_id] == ClientEntryView::Submitted(reply.request_num),
    }
}

/// The entries after an event, as `on_request` and `on_reply_ready` leave them.
pub open spec fn after_event(entries: Map<u32, ClientEntryView>, event: Event) -> Map<
    u32,
    ClientEntryView,
> {
    match event {
        Event::Request(request) => if verdict(entries, request) is Execute {
            entries.insert(request.client_id, ClientEntryView::Submitted(request.request_num))
        } else {
            entries
        },
        Event::ReplyReady(client_id, reply) => entries.insert(
            client_id,
            ClientEntryView::Replied(reply),
        ),
    }
}

/// The entries after events, one after the other.
pub open spec fn after_events(entries: Map<u32, ClientEntryView>, events: Seq<Event>) -> Map<
    u32,
    ClientEntryView,
>
    decreases events.len(),
{
    if events.len() == 0 {
        entries
    } else {
        after_event(after_events(entries, events.drop_last()), events.last())
    }
}

/// Whether events can happen to a replica, one after the other.
pub open spec fn can_happen_all(entries: Map<u32, ClientEntryView>, events: Seq<Event>) -> bool
    decreases events.len(),
{
    events.len() > 0 ==> can_happen_all(entries, events.drop_last()) && can_happen(
        after_events(entries, events.drop_last()),
        events.last(),
    )
}

/// The number of the latest request of a client.
pub open spec fn newest(entries: Map<u32, ClientEntryView>, client_id: u32) -> Option<u32> {
    if entries.contains_key(client_id) {
        Some(
            match entries[client_id] {
                ClientEntryView::Submitted(request_num) => request_num,
                ClientEntryView::Replied(reply) => reply.request_num,
            },
        )
    } else {
        None
    }
}

/// The number of the latest request of a client never falls.
pub proof fn law_newest_never_falls(
    entries: Map<u32, ClientEntryView>,
    events: Seq<Event>,
    client_id: u32,
)
    requires
        can_happen_all(entries, events),
        newest(entries, client_id) is Some,
    ensures
        newest(after_events(entries, events), client_id) is Some,
        newest(after_events(entries, events), client_id).unwrap() >= newest(
            entries,
            client_id,
        ).unwrap(),
    decreases events.len(),
{
    if events.len() > 0 {
        law_newest_never_falls(entries, events.drop_last(), client_id);
    }
}

/// A request is executed at most once: after it was taken in, neither it nor an
/// earlier one of its client is executed, whatever happens in between.
pub proof fn law_executed_at_most_once(
    entries: Map<u32, ClientEntryView>,
    request: RequestView,
    between: Seq<Event>,
    again: RequestView,
)
    requires
        can_happen_all(after_event(entries, Event::Request(request)), between),
        again.client_id == request.client_id,
        again.request_num <= request.request_num,
    ensures
        !(verdict(
            after_events(after_event(entries, Event::Request(request)), between),
            again,
        ) is Execute),
{
    law_newest_never_falls(
        after_event(entries, Event::Request(request)),
        between,
        request.client_id,
    );
}

/// Once a request has its reply, asking again gives that reply again.
pub proof fn law_reply_is_repeated(
    entries: Map<u32, ClientEntryView>,
    request: RequestView,
    reply: ReplyView,
)
    requires
        reply.request_num == request.request_num,
    ensures
        verdict(
            entries.insert(request.client_id, ClientEntryView::Replied(reply)),
            request,
        ) == Verdict::Resend(reply),
{
}

} // verus!
