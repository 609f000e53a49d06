//! What holds of the service with a single replica, from request to reply.

use vstd::prelude::*;

use crate::replication::{Client, Replica};
use crate::transport::SendTo;
use crate::unreplicated::{
    Action, ClientEntry, ClientSession, ReplicaSession, Reply, Request, RequestSession,
};

verus! {

/// Whether a client that is not concerned has the same entry as before.
pub open spec fn same_entry(before: ReplicaSession, after: ReplicaSession, client_id: u32) -> bool {
    &&& after.client_entries@.contains_key(client_id) <==> before.client_entries@.contains_key(
        client_id,
    )
    &&& before.client_entries@.contains_key(client_id) ==> after.client_entries@[client_id]@
        == before.client_entries@[client_id]@
}

proof fn lemma_entry(session: ReplicaSession, id: u32)
    ensures
        session.entries().contains_key(id) <==> session.client_entries@.contains_key(id),
        session.client_entries@.contains_key(id) ==> session.entries()[id]
            == session.client_entries@[id]@,
{
}

/// A request that is later than all of its client is executed, and is the latest
/// one then. The latest one that was replied gets its reply again. All others are
/// ignored. Other clients are not concerned.
pub proof fn law_later_requests_are_executed(
    session: &mut ReplicaSession,
    replica: &Replica,
    request: Request,
    r: Action,
    other: u32,
)
    requires
        call_ensures(ReplicaSession::on_request, (session, replica, request), r),
    ensures
        ({
            let id = request.client_id;
            let (before, after) = (*old(session), *final(session));
            let latest = before.client_entries@[id];
            let is_new = !before.client_entries@.contains_key(id) || match latest {
                ClientEntry::Submitted(n) => n < request.request_num,
                ClientEntry::Replied(reply) => reply.request_num < request.request_num,
            };
            &&& is_new ==> {
                &&& r == Action::Execute(request)
                &&& after.client_entries@.contains_key(id)
                &&& after.client_entries@[id] == ClientEntry::Submitted(request.request_num)
            }
            &&& !is_new && latest is Replied && latest->Replied_0.request_num
                == request.request_num ==> {
                &&& r matches Action::Resend(send)
                &&& send.message@ == latest->Replied_0@
                &&& replica.addr_book.is_client(id, send.destination@)
            }
            &&& !is_new && !(latest is Replied && latest->Replied_0.request_num
                == request.request_num) ==> r is Ignore
            &&& !is_new || other != id ==> same_entry(before, after, other)
        }),
{
    lemma_entry(*old(session), request.client_id);
    lemma_entry(*final(session), request.client_id);
    lemma_entry(*old(session), other);
    lemma_entry(*final(session), other);
}

/// A reply is noted for its client alone and sent.
pub proof fn law_reply_is_noted_and_sent(
    session: &mut ReplicaSession,
    replica: &Replica,
    client_id: u32,
    reply: Reply,
    r: SendTo<Reply>,
    other: u32,
)
    requires
        call_ensures(ReplicaSession::on_reply_ready, (session, replica, client_id, reply), r),
    ensures
        r.message@ == reply@,
        replica.addr_book.is_client(client_id, r.destination@),
        final(session).client_entries@.contains_key(client_id),
        final(session).client_entries@[client_id] matches ClientEntry::Replied(noted) && noted@
            == reply@,
        other != client_id ==> same_entry(*old(session), *final(session), other),
{
    lemma_entry(*final(session), client_id);
    lemma_entry(*old(session), other);
    lemma_entry(*final(session), other);
}

/// A client that got its reply goes on: its next request is executed.
pub proof fn law_next_request_is_executed(
    session: &mut ReplicaSession,
    replica: &Replica,
    client_id: u32,
    reply: Reply,
    sent: SendTo<Reply>,
    later: &mut ReplicaSession,
    request: Request,
    r: Action,
)
    requires
        call_ensures(ReplicaSession::on_reply_ready, (session, replica, client_id, reply), sent),
        *old(later) == *final(session),
        call_ensures(ReplicaSession::on_request, (later, replica, request), r),
        request.client_id == client_id,
        request.request_num > reply.request_num,
    ensures
        r == Action::Execute(request),
{
    law_reply_is_noted_and_sent(session, replica, client_id, reply, sent, client_id);
    law_later_requests_are_executed(later, replica, request, r, client_id);
}

/// A replica starts without entries.
pub proof fn law_replica_starts_empty(r: ReplicaSession, id: u32)
    requires
        call_ensures(ReplicaSession::new, (), r),
    ensures
        !r.client_entries@.contains_key(id),
{
    lemma_entry(r, id);
}

/// A client takes the result of the reply to its request, whatever it is, and of no
/// other.
pub proof fn law_result_is_that_of_the_request(
    session: &RequestSession,
    reply: Reply,
    r: Option<Vec<u8>>,
)
    requires
        call_ensures(RequestSession::on_reply, (session, reply), r),
    ensures
        reply.request_num == session.request.request_num ==> r == Some(reply.result),
        reply.request_num != session.request.request_num ==> r is None,
{
}

/// A request goes to the only replica.
pub proof fn law_request_goes_to_the_replica(
    session: &RequestSession,
    client: &Client,
    r: SendTo<Request>,
)
    requires
        call_ensures(RequestSession::send, (session, client), r),
    ensures
        r.message@ == session.request@,
        r.destination@ == client.addr_book.replica_view(0),
{
}

/// The operations of a client get ascending numbers.
pub proof fn law_requests_are_numbered(
    session: &mut ClientSession,
    client: &Client,
    op: Vec<u8>,
    r: Request,
)
    requires
        call_ensures(ClientSession::submit, (session, client, op), r),
    ensures
        r.request_num > old(session).request_num,
        r.request_num == final(session).request_num,
        r.client_id == client.id,
        r.op == op,
{
}

} // verus!
