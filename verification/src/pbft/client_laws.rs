//! What holds of the results that a client accepts.

use vstd::prelude::*;

use crate::pbft::client::{voters, ClientSession, RequestSession};
use crate::pbft::{Reply, ReplyView, Request};
use crate::replication::Client;
use crate::transport::{SendTo, SendToAll};

verus! {

/// A replica votes for a result just if its latest reply has it, whatever the
/// result is.
pub proof fn law_voters_are_those_who_replied(votes: Map<u8, ReplyView>, result: Seq<u8>, id: u8)
    ensures
        voters(votes, result).contains(id) <==> votes.contains_key(id) && votes[id].result
            == result,
{
}

/// The replicas whose latest reply in a session has a result.
pub open spec fn replied(session: RequestSession, result: Seq<u8>) -> Set<u8> {
    Set::new(
        |id: u8| session.replies@.contains_key(id) && session.replies@[id].result@ == result,
    )
}

proof fn lemma_replied(session: RequestSession, result: Seq<u8>)
    ensures
        voters(session.votes(), result) == replied(session, result),
{
    assert forall|id: u8| voters(session.votes(), result).contains(id) <==> replied(
        session,
        result,
    ).contains(id) by {
        if session.replies@.contains_key(id) {
            assert(session.votes()[id] == session.replies@[id]@);
        }
    }
    assert(voters(session.votes(), result) =~= replied(session, result));
}

/// A reply to the request at hand is the latest one of its replica from then on.
/// Its result is accepted just when it makes as many replicas that replied it as
/// there may be faulty ones, and one more. Then the client turns to the primary
/// of the view of the reply, and else it stays with its own.
pub proof fn law_result_is_accepted_from_enough_replicas(
    session: &mut RequestSession,
    client: &Client,
    reply: Reply,
    primary_replica: &mut u8,
    r: Option<Vec<u8>>,
    other: u8,
)
    requires
        call_ensures(RequestSession::on_reply, (session, client, reply, primary_replica), r),
        reply.request_num == old(session).request.request_num,
    ensures
        final(session).request == old(session).request,
        final(session).replies@.contains_key(reply.replica_id),
        final(session).replies@[reply.replica_id]@ == reply@,
        other != reply.replica_id ==> {
            &&& final(session).replies@.contains_key(other) <==> old(session).replies@.contains_key(other)
            &&& old(session).replies@.contains_key(other) ==> final(session).replies@[other]@
                == old(session).replies@[other]@
        },
        r is Some <==> replied(*final(session), reply.result@).len() == client.num_faulty + 1,
        r matches Some(result) ==> {
            &&& result@ == reply.result@
            &&& *final(primary_replica) == (reply.view_num as int % client.num_replica as int) % 256
        },
        r is None ==> *final(primary_replica) == *old(primary_replica),
{
    lemma_replied(*final(session), reply.result@);
    let (before, after) = (old(session).votes(), final(session).votes());
    let id = reply.replica_id;
    assert(after.contains_key(id) && after[id] == reply@);
    assert(final(session).votes()[id] == final(session).replies@[id]@);
    if other != id {
        assert(after.contains_key(other) <==> before.contains_key(other));
        assert(after.contains_key(other) <==> final(session).replies@.contains_key(other));
        assert(before.contains_key(other) <==> old(session).replies@.contains_key(other));
        if before.contains_key(other) {
            assert(after[other] == before[other]);
            assert(after[other] == final(session).replies@[other]@);
            assert(before[other] == old(session).replies@[other]@);
        }
    }
}

/// Once as many replicas as may be faulty have replied a result, the same reply of
/// one more gets it accepted, whatever the result is.
pub proof fn law_one_more_replica_decides(
    session: &mut RequestSession,
    client: &Client,
    reply: Reply,
    primary_replica: &mut u8,
    r: Option<Vec<u8>>,
    ids: Set<u8>,
)
    requires
        old(session).wf(client),
        call_ensures(RequestSession::on_reply, (session, client, reply, primary_replica), r),
        reply.request_num == old(session).request.request_num,
        ids.finite(),
        ids.len() == client.num_faulty,
        forall|id: u8| #[trigger]
            ids.contains(id) ==> old(session).replies@.contains_key(id) && old(session).replies@[id].result@ == reply.result@,
        !ids.contains(reply.replica_id),
    ensures
        r matches Some(result) && result@ == reply.result@,
{
    let result = reply.result@;
    let id = reply.replica_id;
    lemma_replied(*old(session), result);
    lemma_replied(*final(session), result);
    let before = voters(old(session).votes(), result);
    assert(before.len() <= client.num_faulty);
    assert(old(session).replies@.dom().finite());
    assert(old(session).votes().dom() =~= old(session).replies@.dom());
    assert(before.subset_of(old(session).votes().dom()));
    vstd::set_lib::lemma_set_subset_finite(old(session).votes().dom(), before);
    assert(ids.subset_of(before));
    vstd::set_lib::lemma_len_subset(ids, before);
    vstd::set_lib::lemma_subset_equality(ids, before);
    assert forall|other: u8| #[trigger]
        replied(*final(session), result).contains(other) <==> ids.insert(id).contains(other) by {
        law_result_is_accepted_from_enough_replicas(
            session,
            client,
            reply,
            primary_replica,
            r,
            other,
        );
        assert(before.contains(other) <==> replied(*old(session), result).contains(other));
    }
    assert(replied(*final(session), result) =~= ids.insert(id));
}

/// A reply to an earlier request changes nothing.
pub proof fn law_old_reply_changes_nothing(
    session: &mut RequestSession,
    client: &Client,
    reply: Reply,
    primary_replica: &mut u8,
    r: Option<Vec<u8>>,
    id: u8,
)
    requires
        call_ensures(RequestSession::on_reply, (session, client, reply, primary_replica), r),
        reply.request_num != old(session).request.request_num,
    ensures
        r is None,
        *final(primary_replica) == *old(primary_replica),
        final(session).request == old(session).request,
        final(session).replies@.contains_key(id) <==> old(session).replies@.contains_key(id),
        old(session).replies@.contains_key(id) ==> final(session).replies@[id]@ == old(session).replies@[id]@,
{
    let (before, after) = (old(session).votes(), final(session).votes());
    assert(after.contains_key(id) <==> final(session).replies@.contains_key(id));
    assert(before.contains_key(id) <==> old(session).replies@.contains_key(id));
    if before.contains_key(id) {
        assert(after[id] == final(session).replies@[id]@);
        assert(before[id] == old(session).replies@[id]@);
    }
}

/// A request starts with no reply to it, on its way to the replica that is thought
/// to lead.
pub proof fn law_request_starts_without_replies(
    client: &Client,
    request: Request,
    primary_replica: u8,
    r: (RequestSession, SendTo<Request>),
    id: u8,
)
    requires
        call_ensures(RequestSession::start, (client, request, primary_replica), r),
    ensures
        r.0.request == request,
        !r.0.replies@.contains_key(id),
        r.1.message@ == request@,
        r.1.destination@ == client.addr_book.replica_view(primary_replica),
{
    assert(r.0.votes().contains_key(id) <==> r.0.replies@.contains_key(id));
}

/// The operations of a client get ascending numbers, and their requests say whose
/// they are and what is asked.
pub proof fn law_requests_are_numbered(
    session: &mut ClientSession,
    client: &Client,
    op: Vec<u8>,
    r: Request,
)
    requires
        call_ensures(ClientSession::submit, (session, client, op), r),
    ensures
        r.request_num > old(session).request_num,
        r.request_num == final(session).request_num,
        final(session).primary_replica == old(session).primary_replica,
        r.client_id == client.id,
        r.op == op,
{
}

/// A request that is tried again is the same request, on its way to all replicas.
pub proof fn law_retry_repeats_the_request(
    session: &RequestSession,
    client: &Client,
    r: SendToAll<Request>,
)
    requires
        call_ensures(RequestSession::retry, (session, client), r),
    ensures
        r.message@ == session.request@,
        r.sent == 0,
        client.addr_book.lists_replicas(r.destinations@),
{
}

} // verus!
