//! What holds of a replica in one view, from request to reply.

use std::collections::HashMap;

use vstd::prelude::*;

use crate::crypto::{Message, Packet};
use crate::error::Error;
use crate::pbft::batch::fill;
use crate::pbft::prepare::LogEntry;
use crate::pbft::progress::logged_requests;
use crate::pbft::quorum::{CommitStage, PrepareStage, QuorumState};
use crate::pbft::view::{is_stale, Action, ClientEntry, ClientEntryView, ViewState};
use crate::pbft::{
    Commit, PrePrepare, Prepare, ReplicaEvent, Reply, Request, RequestView, ToReplica,
};
use crate::transport::SendTo;
use crate::wire::{decodes, law_decode_encode, Format};

verus! {

/// The number of the request that an entry of a client is about.
pub open spec fn entry_num(entry: ClientEntryView) -> u32 {
    match entry {
        ClientEntryView::Committing(request_num) => request_num,
        ClientEntryView::Committed(reply) => reply.request_num,
    }
}

/// A request with a number above that of the latest one of its client is never
/// ignored, and neither is the first request of a client. One with a number below
/// it always is, and one with the same number as long as there is no reply.
pub proof fn law_only_old_requests_are_ignored(
    entries: Map<u32, ClientEntryView>,
    request: RequestView,
)
    ensures
        !entries.contains_key(request.client_id) ==> !is_stale(entries, request),
        entries.contains_key(request.client_id) ==> {
            let latest = entries[request.client_id];
            &&& request.request_num > entry_num(latest) ==> !is_stale(entries, request)
            &&& request.request_num < entry_num(latest) ==> is_stale(entries, request)
            &&& request.request_num == entry_num(latest) ==> (is_stale(entries, request)
                <==> latest is Committing)
        },
{
}

/// The same of what a replica says of a request.
pub proof fn law_new_request_is_not_stale(view: &ViewState, request: &Request, r: bool)
    requires
        call_ensures(ViewState::stale, (view, request), r),
    ensures
        !view.client_entries@.contains_key(request.client_id) ==> !r,
        view.client_entries@.contains_key(request.client_id) ==> match view.client_entries@[request.client_id] {
            ClientEntry::Committing(n) => r <==> request.request_num <= n,
            ClientEntry::Committed(reply) => r <==> request.request_num < reply.request_num,
        },
{
    let id = request.client_id;
    assert(view.entries().contains_key(id) <==> view.client_entries@.contains_key(id));
    if view.client_entries@.contains_key(id) {
        assert(view.entries()[id] == view.client_entries@[id]@);
    }
}

/// Whether a client that is not concerned has the same entry as before.
pub open spec fn same_entry(before: ViewState, after: ViewState, client_id: u32) -> bool {
    &&& after.client_entries@.contains_key(client_id) <==> before.client_entries@.contains_key(
        client_id,
    )
    &&& before.client_entries@.contains_key(client_id) ==> after.client_entries@[client_id]@
        == before.client_entries@[client_id]@
}

proof fn lemma_entry(view: ViewState, id: u32)
    ensures
        view.entries().contains_key(id) <==> view.client_entries@.contains_key(id),
        view.client_entries@.contains_key(id) ==> view.entries()[id] == view.client_entries@[id]@,
{
}

/// Whether a request was taken in: it is the latest of its client if the client
/// has no entry, or one with a lower number, or the reply to this very request.
/// Else nothing has changed. Other clients are not concerned.
pub open spec fn is_taken_in(
    before: ViewState,
    after: ViewState,
    request: Request,
    taken: bool,
    other: u32,
) -> bool {
    let id = request.client_id;
    &&& taken <==> !before.client_entries@.contains_key(id)
        || match before.client_entries@[id] {
        ClientEntry::Committing(n) => n < request.request_num,
        ClientEntry::Committed(reply) => reply.request_num <= request.request_num,
    }
    &&& taken ==> after.client_entries@.contains_key(id) && after.client_entries@[id]
        == ClientEntry::Committing(request.request_num)
    &&& !taken || other != id ==> same_entry(before, after, other)
    &&& after.propose_op == before.propose_op
    &&& after.prepare_op == before.prepare_op
    &&& after.commit_op == before.commit_op
    &&& after.log_entries == before.log_entries
    &&& after.permits == before.permits
}

/// Every request is either new to the replica, and goes to the next batch as the
/// latest one of its client, or it is old and nothing comes of it.
pub proof fn law_new_request_is_batched(
    view: &mut ViewState,
    request: Request,
    r: Result<Action, Error>,
    other: u32,
)
    requires
        call_ensures(
            ViewState::on_event,
            (view, ReplicaEvent::Message(ToReplica::Request(request))),
            r,
        ),
    ensures
        is_taken_in(
            *old(view),
            *final(view),
            request,
            r == Ok::<Action, Error>(Action::Batch(request)),
            other,
        ),
        r != Ok::<Action, Error>(Action::Batch(request)) ==> r == Ok::<Action, Error>(
            Action::Nothing,
        ),
{
    lemma_entry(*old(view), request.client_id);
    lemma_entry(*final(view), request.client_id);
    lemma_entry(*old(view), other);
    lemma_entry(*final(view), other);
}

/// The same of a request that is handed in directly.
pub proof fn law_new_request_is_taken_in(
    view: &mut ViewState,
    request: Request,
    r: Option<Request>,
    other: u32,
)
    requires
        call_ensures(ViewState::handle_request, (view, request), r),
    ensures
        is_taken_in(*old(view), *final(view), request, r == Some(request), other),
        r != Some(request) ==> r is None,
{
    lemma_entry(*old(view), request.client_id);
    lemma_entry(*final(view), request.client_id);
    lemma_entry(*old(view), other);
    lemma_entry(*final(view), other);
}

/// The reply to the request that a client waits for is sent to it, one to an
/// earlier request is not, and either is noted for that client alone.
pub proof fn law_reply_is_sent_to_waiting_client(
    view: &mut ViewState,
    client_id: u32,
    reply: Reply,
    r: Result<Action, Error>,
    other: u32,
)
    requires
        old(view).client_entries@.contains_key(client_id),
        call_ensures(ViewState::on_event, (view, ReplicaEvent::ReplyReady(client_id, reply)), r),
    ensures
        final(view).client_entries@.contains_key(client_id),
        final(view).client_entries@[client_id] matches ClientEntry::Committed(noted) && noted@
            == reply@,
        other != client_id ==> same_entry(*old(view), *final(view), other),
        old(view).client_entries@[client_id] == ClientEntry::Committing(reply.request_num) ==> (
        r matches Ok(Action::Reply(send)) && send.message@ == reply@ && old(view).replica.addr_book.is_client(client_id, send.destination@)),
        old(view).client_entries@[client_id] != ClientEntry::Committing(reply.request_num)
            ==> r == Ok::<Action, Error>(Action::Nothing),
{
    lemma_entry(*old(view), client_id);
    lemma_entry(*final(view), client_id);
    lemma_entry(*old(view), other);
    lemma_entry(*final(view), other);
    let entry = old(view).client_entries@[client_id];
    assert(entry@ == ClientEntryView::Committing(reply.request_num) <==> entry
        == ClientEntry::Committing(reply.request_num));
}

/// A client that got its reply goes on: its next request is taken in.
pub proof fn law_client_goes_on_after_reply(
    view: &mut ViewState,
    client_id: u32,
    reply: Reply,
    sent: Option<SendTo<Reply>>,
    later: &mut ViewState,
    request: Request,
    r: Option<Request>,
)
    requires
        call_ensures(ViewState::handle_reply_ready, (view, client_id, reply), sent),
        *old(later) == *final(view),
        call_ensures(ViewState::handle_request, (later, request), r),
        request.client_id == client_id,
        request.request_num > reply.request_num,
    ensures
        r == Some(request),
        final(later).client_entries@[client_id] == ClientEntry::Committing(request.request_num),
{
    lemma_entry(*final(view), client_id);
    lemma_entry(*final(later), client_id);
}

/// A prepared operation comes into the log behind the others and nothing else
/// changes there. On a backup the last request of each client in it becomes the
/// one that is on its way; clients without a request in it, and all clients on a
/// primary, keep what they had.
pub proof fn law_prepared_operation_comes_into_the_log(
    view: &mut ViewState,
    entry: LogEntry,
    op: u32,
    i: int,
    client_id: u32,
)
    requires
        old(view).prepare_op < u32::MAX,
        call_ensures(ViewState::on_prepare_quorum, (view, entry), ()),
    ensures
        final(view).prepare_op == old(view).prepare_op + 1,
        final(view).commit_op == old(view).commit_op,
        final(view).propose_op == old(view).propose_op,
        final(view).permits == old(view).permits,
        final(view).log_entries@.contains_key(final(view).prepare_op),
        final(view).log_entries@[final(view).prepare_op] == entry,
        op != final(view).prepare_op ==> {
            &&& final(view).log_entries@.contains_key(op) <==> old(view).log_entries@.contains_key(
                op,
            )
            &&& final(view).log_entries@[op] == old(view).log_entries@[op]
        },
        ({
            let leader = ((old(view).view_num as int % old(view).replica.num_replica as int) % 256)
                as u8;
            let requests = entry.requests@;
            &&& leader == old(view).replica.id ==> same_entry(
                *old(view),
                *final(view),
                client_id,
            )
            &&& (forall|j: int|
                0 <= j < requests.len() ==> (#[trigger] requests[j]).client_id != client_id)
                ==> same_entry(*old(view), *final(view), client_id)
            &&& leader != old(view).replica.id && 0 <= i < requests.len() && (forall|j: int|
                i < j < requests.len() ==> (#[trigger] requests[j]).client_id
                    != requests[i].client_id) ==> {
                &&& final(view).client_entries@.contains_key(requests[i].client_id)
                &&& final(view).client_entries@[requests[i].client_id] == ClientEntry::Committing(
                    requests[i].request_num,
                )
            }
        }),
{
    let requests = entry.requests@;
    let views = entry.requests.deep_view();
    lemma_entry(*old(view), client_id);
    lemma_entry(*final(view), client_id);
    assert(final(view).log_entries@ == old(view).log_entries@.insert(
        final(view).prepare_op,
        entry,
    ));
    if forall|j: int| 0 <= j < requests.len() ==> (#[trigger] requests[j]).client_id != client_id {
        assert forall|j: int| 0 <= j < views.len() implies (#[trigger] views[j]).client_id
            != client_id by {
            assert(views[j] == requests[j]@);
        }
        crate::pbft::view::law_batch_leaves_others(old(view).entries(), views, client_id);
    }
    if 0 <= i < requests.len() && (forall|j: int|
        i < j < requests.len() ==> (#[trigger] requests[j]).client_id != requests[i].client_id) {
        assert(views[i] == requests[i]@);
        assert forall|j: int| i < j < views.len() implies (#[trigger] views[j]).client_id
            != views[i].client_id by {
            assert(views[j] == requests[j]@);
        }
        crate::pbft::view::law_batch_is_noted(old(view).entries(), views, i);
        lemma_entry(*final(view), requests[i].client_id);
    }
}

/// The next operation in the log is committed: its requests are handed out in
/// their order, its votes are noted, and a primary may propose once more. The rest
/// of the log stays as it was.
pub proof fn law_next_operation_is_committed(
    view: &mut ViewState,
    commits: HashMap<u8, Message<Commit>>,
    r: Vec<Request>,
    op: u32,
)
    requires
        old(view).commit_op < u32::MAX,
        call_ensures(ViewState::on_commit_quorum, (view, commits), r),
    ensures
        final(view).commit_op == old(view).commit_op + 1,
        final(view).prepare_op == old(view).prepare_op,
        final(view).propose_op == old(view).propose_op,
        final(view).client_entries == old(view).client_entries,
        ({
            let next = (old(view).commit_op + 1) as u32;
            let (before, after) = (old(view).log_entries@, final(view).log_entries@);
            &&& r@.len() == before[next].requests@.len()
            &&& forall|i: int|
                0 <= i < r@.len() ==> (#[trigger] r@[i])@ == before[next].requests@[i]@
            &&& after.contains_key(next)
            &&& after[next].commits@ == commits@
            &&& after[next].requests == before[next].requests
            &&& after[next].pre_prepare == before[next].pre_prepare
            &&& after[next].prepares == before[next].prepares
            &&& op != next ==> (after.contains_key(op) <==> before.contains_key(op)) && after[op]
                == before[op]
        }),
        final(view).permits == old(view).permits + if (old(view).view_num as int % old(view).replica.num_replica as int) % 256 == old(view).replica.id {
            1int
        } else {
            0int
        },
{
    let next = (old(view).commit_op + 1) as u32;
    let before = old(view).log_entries@[next].requests;
    assert(r.deep_view() == before.deep_view());
    assert(r.deep_view().len() == r@.len() && before.deep_view().len() == before@.len());
    assert forall|i: int| 0 <= i < r@.len() implies (#[trigger] r@[i])@ == before@[i]@ by {
        assert(r.deep_view()[i] == r@[i]@);
        assert(before.deep_view()[i] == before@[i]@);
    }
}

/// A batch has its first request and those that wait, in their order, up to a
/// hundred in all. What does not fit goes on waiting.
pub proof fn law_batch_takes_up_to_a_hundred(
    first: Request,
    waiting: &mut Vec<Request>,
    r: Vec<Request>,
)
    requires
        call_ensures(fill, (first, waiting), r),
    ensures
        r@ + final(waiting)@ == seq![first] + old(waiting)@,
        1 <= r@.len() <= 100,
        final(waiting)@.len() > 0 ==> r@.len() == 100,
{
    assert(r@ + final(waiting)@ =~= seq![first] + old(waiting)@);
}

/// A permit is taken just when there is one.
pub proof fn law_permit_is_taken_once(view: &mut ViewState, r: bool)
    requires
        call_ensures(ViewState::take_permit, (view,), r),
    ensures
        r <==> old(view).permits > 0,
        r ==> final(view).permits == old(view).permits - 1,
        !r ==> final(view).permits == 0,
        final(view).propose_op == old(view).propose_op,
        final(view).commit_op == old(view).commit_op,
{
}

/// Proposals are numbered one after the other, and each one has sessions.
pub proof fn law_proposals_are_numbered(view: &mut ViewState, r: u32, op: u32)
    requires
        old(view).propose_op < u32::MAX,
        call_ensures(ViewState::on_requests, (view,), r),
    ensures
        r == old(view).propose_op + 1,
        final(view).propose_op == r,
        final(view).quorum_states@.contains_key(op) <==> op == r || old(view).quorum_states@.contains_key(op),
        final(view).log_entries == old(view).log_entries,
        final(view).prepare_op == old(view).prepare_op,
        final(view).commit_op == old(view).commit_op,
{
}

/// Whether sessions of an operation are complete for the log.
pub open spec fn has_entry(quorums: Map<u32, QuorumState>, op: int, entry: LogEntry) -> bool {
    quorums.contains_key(op as u32) && quorums[op as u32].prepare == PrepareStage::Prepared(entry)
}

/// Whether sessions of an operation have the votes to commit it.
pub open spec fn has_votes(quorums: Map<u32, QuorumState>, op: int, num_faulty: usize) -> bool {
    quorums.contains_key(op as u32) && (quorums[op as u32].commit matches CommitStage::Voting(votes)
        && votes.commits@.len() > 2 * num_faulty)
}

/// Whether the log has of an operation what its sessions had, if it came into the
/// log or was committed between two states, and else what it had before.
pub open spec fn is_logged_from(
    before: ViewState,
    quorums: Map<u32, QuorumState>,
    after: ViewState,
    op: u32,
) -> bool {
    &&& before.prepare_op < op <= after.prepare_op ==> {
        &&& after.log_entries@.contains_key(op)
        &&& quorums.contains_key(op)
        &&& quorums[op].prepare matches PrepareStage::Prepared(entry)
        &&& after.log_entries@[op].requests == entry.requests
        &&& after.log_entries@[op].pre_prepare == entry.pre_prepare
        &&& after.log_entries@[op].prepares == entry.prepares
    }
    &&& !(before.prepare_op < op <= after.prepare_op) ==> after.log_entries@[op].requests
        == before.log_entries@[op].requests
    &&& before.commit_op < op <= after.commit_op ==> {
        &&& quorums.contains_key(op)
        &&& quorums[op].commit matches CommitStage::Voting(votes)
        &&& votes.commits@.len() > 2 * before.replica.num_faulty
        &&& after.log_entries@[op].commits == votes.commits
    }
}

/// What a replica has done between two states: it took operations into the log in
/// their order, each from its sessions, and committed operations of the log in
/// their order, each with the votes from its sessions.
pub open spec fn has_progressed(
    before: ViewState,
    quorums: Map<u32, QuorumState>,
    after: ViewState,
    left: Map<u32, QuorumState>,
) -> bool {
    &&& before.prepare_op <= after.prepare_op
    &&& before.commit_op <= after.commit_op
    &&& after.commit_op <= after.prepare_op
    &&& after.view_num == before.view_num
    &&& after.replica == before.replica
    &&& after.propose_op == before.propose_op
    &&& after.quorum_states == before.quorum_states
    &&& forall|op: u32| #[trigger] is_logged_from(before, quorums, after, op)
    &&& forall|op: u32|
        #![trigger left.contains_key(op)]
        #![trigger left[op]]
        {
            &&& left.contains_key(op) <==> quorums.contains_key(op)
            &&& !(before.prepare_op < op <= after.prepare_op) ==> left[op].prepare
                == quorums[op].prepare
            &&& !(before.commit_op < op <= after.commit_op) ==> left[op].commit
                == quorums[op].commit
        }
}

proof fn lemma_progress(
    before: ViewState,
    quorums: Map<u32, QuorumState>,
    after: ViewState,
    left: Map<u32, QuorumState>,
    requests: Seq<RequestView>,
    n: nat,
)
    requires
        before.wf(),
        before.goes_to(quorums, after, left, requests, n),
    ensures
        has_progressed(before, quorums, after, left),
    decreases n,
{
    if n > 0 {
        let (middle, between, last) = choose|
            middle: ViewState,
            between: Map<u32, QuorumState>,
            last: Seq<RequestView>,
        |
            {
                &&& #[trigger] middle.steps_to(between, after, left, last)
                &&& last.len() <= requests.len()
                &&& requests.skip(requests.len() - last.len()) == last
                &&& before.goes_to(
                    quorums,
                    middle,
                    between,
                    requests.take(requests.len() - last.len()),
                    (n - 1) as nat,
                )
            };
        let done = requests.take(requests.len() - last.len());
        lemma_progress(before, quorums, middle, between, done, (n - 1) as nat);
        match middle.next_prepared(between) {
            Some(entry) => {
                let op = after.prepare_op;
                assert(between.contains_key(op) && left.contains_key(op));
                assert(quorums.contains_key(op));
                assert(between[op].prepare == quorums[op].prepare);
            },
            None => {
                let op = after.commit_op;
                assert(between.contains_key(op) && left.contains_key(op));
                assert(quorums.contains_key(op));
                assert(between[op].commit == quorums[op].commit);
            },
        }
        assert forall|op: u32| #[trigger] is_logged_from(before, quorums, after, op) by {
            assert(is_logged_from(before, quorums, middle, op));
        }
        assert forall|op: u32|
            #![trigger left.contains_key(op)]
            #![trigger left[op]]
            true implies {
            &&& left.contains_key(op) <==> quorums.contains_key(op)
            &&& !(before.prepare_op < op <= after.prepare_op) ==> left[op].prepare
                == quorums[op].prepare
            &&& !(before.commit_op < op <= after.commit_op) ==> left[op].commit
                == quorums[op].commit
        } by {
            assert(between.contains_key(op) <==> quorums.contains_key(op));
        }
    }
}

/// A replica goes on as far as votes allow, and no farther: operations come into
/// the log and are committed one after the other, none is left over that could be
/// next, and the requests of those that were committed are handed out in the order
/// of the log.
pub proof fn law_operations_are_taken_as_far_as_votes_allow(
    view: &mut ViewState,
    quorums: &mut HashMap<u32, QuorumState>,
    r: Vec<Request>,
    entry: LogEntry,
)
    requires
        old(view).wf(),
        call_ensures(ViewState::advance, (view, quorums), r),
    ensures
        has_progressed(*old(view), old(quorums)@, *final(view), final(quorums)@),
        final(view).prepare_op < u32::MAX && final(view).quorum_states@.contains_key(
            (final(view).prepare_op + 1) as u32,
        ) ==> !has_entry(final(quorums)@, final(view).prepare_op + 1, entry),
        final(view).commit_op < final(view).prepare_op && final(view).quorum_states@.contains_key(
            (final(view).commit_op + 1) as u32,
        ) ==> !has_votes(
            final(quorums)@,
            final(view).commit_op + 1,
            final(view).replica.num_faulty,
        ),
        r.deep_view() == Seq::new(
            (final(view).commit_op - old(view).commit_op) as nat,
            |i: int|
                final(view).log_entries@[(old(view).commit_op + 1 + i) as u32].requests.deep_view(),
        ).flatten(),
{
    let n = choose|n: nat| #[trigger]
        old(view).goes_to(old(quorums)@, *final(view), final(quorums)@, r.deep_view(), n);
    lemma_progress(
        *old(view),
        old(quorums)@,
        *final(view),
        final(quorums)@,
        r.deep_view(),
        n,
    );
    lemma_logged_in_order(
        final(view).log_entries@,
        old(view).commit_op as int,
        final(view).commit_op as int,
    );
    let parts = Seq::new(
        (final(view).commit_op - old(view).commit_op) as nat,
        |i: int|
            final(view).log_entries@[(old(view).commit_op + 1 + i) as u32].requests.deep_view(),
    );
    let (log, from) = (final(view).log_entries@, old(view).commit_op as int);
    assert(parts =~= Seq::new(
        (final(view).commit_op - from) as nat,
        |i: int| log[(from + 1 + i) as u32].requests.deep_view(),
    ));
}

proof fn lemma_logged_in_order(log: Map<u32, LogEntry>, from: int, to: int)
    requires
        from <= to,
    ensures
        logged_requests(log, from, to) == Seq::new(
            (to - from) as nat,
            |i: int| log[(from + 1 + i) as u32].requests.deep_view(),
        ).flatten(),
    decreases to - from,
{
    let parts = Seq::new(
        (to - from) as nat,
        |i: int| log[(from + 1 + i) as u32].requests.deep_view(),
    );
    if from < to {
        lemma_logged_in_order(log, from, to - 1);
        let shorter = Seq::new(
            (to - 1 - from) as nat,
            |i: int| log[(from + 1 + i) as u32].requests.deep_view(),
        );
        assert(parts.drop_last() =~= shorter);
        assert(parts.last() == log[to as u32].requests.deep_view());
        parts.lemma_flatten_and_flatten_alt_are_equivalent();
        shorter.lemma_flatten_and_flatten_alt_are_equivalent();
    } else {
        assert(parts =~= Seq::empty());
        assert(parts.flatten() =~= Seq::empty());
    }
}

/// Whether nothing but the table of sessions was touched, which has an operation more
/// unless it was there.
pub open spec fn only_started(before: ViewState, after: ViewState, op_num: u32) -> bool {
    &&& after.entries() == before.entries()
    &&& after.log_entries == before.log_entries
    &&& after.propose_op == before.propose_op
    &&& after.prepare_op == before.prepare_op
    &&& after.commit_op == before.commit_op
    &&& after.permits == before.permits
    &&& forall|op: u32| #[trigger]
        after.quorum_states@.contains_key(op) <==> op == op_num
            || before.quorum_states@.contains_key(op)
}

/// A vote that can be read goes to the sessions of its operation, which are started
/// unless they are there. It is still to be verified.
pub proof fn law_vote_for_order_goes_to_its_session(
    view: &mut ViewState,
    packet: Packet,
    vote: Prepare,
    r: Result<Action, Error>,
)
    requires
        call_ensures(
            ViewState::on_event,
            (view, ReplicaEvent::Message(ToReplica::Prepare(packet))),
            r,
        ),
        packet.inner@ == Prepare::encoding(vote.deep_view()),
    ensures
        r matches Ok(Action::Prepare(start, message)) && message.inner@ == vote@
            && message.signature@ == packet.signature@ && message.inner_bytes@ == packet.inner@
            && !message.verified && (start <==> !old(view).quorum_states@.contains_key(vote.op_num))
            && only_started(*old(view), *final(view), vote.op_num),
{
    assert(Prepare::encodable(vote.deep_view()));
    assert(decodes::<Prepare>(packet.inner@));
    let message = r.unwrap()->Prepare_1;
    law_decode_encode::<Prepare>(vote.deep_view(), message.inner.deep_view());
}

/// The same of a vote to commit.
pub proof fn law_vote_to_commit_goes_to_its_session(
    view: &mut ViewState,
    packet: Packet,
    vote: Commit,
    r: Result<Action, Error>,
)
    requires
        call_ensures(
            ViewState::on_event,
            (view, ReplicaEvent::Message(ToReplica::Commit(packet))),
            r,
        ),
        packet.inner@ == Commit::encoding(vote.deep_view()),
    ensures
        r matches Ok(Action::Commit(start, message)) && message.inner@ == vote@
            && message.signature@ == packet.signature@ && message.inner_bytes@ == packet.inner@
            && !message.verified && (start <==> !old(view).quorum_states@.contains_key(vote.op_num))
            && only_started(*old(view), *final(view), vote.op_num),
{
    assert(Commit::encodable(vote.deep_view()));
    assert(decodes::<Commit>(packet.inner@));
    let message = r.unwrap()->Commit_1;
    law_decode_encode::<Commit>(vote.deep_view(), message.inner.deep_view());
}

/// The same of a proposal, with the requests that came with it.
pub proof fn law_proposal_goes_to_its_session(
    view: &mut ViewState,
    packet: Packet,
    requests: Vec<Request>,
    proposal: PrePrepare,
    r: Result<Action, Error>,
)
    requires
        call_ensures(
            ViewState::on_event,
            (view, ReplicaEvent::Message(ToReplica::PrePrepare(packet, requests))),
            r,
        ),
        packet.inner@ == PrePrepare::encoding(proposal.deep_view()),
    ensures
        r matches Ok(Action::PrePrepare(start, message, passed)) && message.inner@ == proposal@
            && message.signature@ == packet.signature@ && message.inner_bytes@ == packet.inner@
            && !message.verified && passed == requests && (start <==> !old(view).quorum_states@.contains_key(proposal.op_num)) && only_started(
            *old(view),
            *final(view),
            proposal.op_num,
        ),
{
    assert(PrePrepare::encodable(proposal.deep_view()));
    assert(decodes::<PrePrepare>(packet.inner@));
    let message = r.unwrap()->PrePrepare_1;
    law_decode_encode::<PrePrepare>(proposal.deep_view(), message.inner.deep_view());
}

/// The operations that are looked after next are those behind the last prepared and
/// the last committed one, where they have sessions.
pub proof fn law_next_operations_are_looked_after(
    view: &ViewState,
    r: (Option<u32>, Option<u32>),
)
    requires
        view.prepare_op < u32::MAX,
        view.commit_op < u32::MAX,
        call_ensures(ViewState::next_sessions, (view,), r),
    ensures
        r.0 matches Some(op) ==> op == view.prepare_op + 1 && view.quorum_states@.contains_key(op),
        r.0 is None ==> !view.quorum_states@.contains_key((view.prepare_op + 1) as u32),
        r.1 matches Some(op) ==> op == view.commit_op + 1 && view.quorum_states@.contains_key(op),
        r.1 is None ==> !view.quorum_states@.contains_key((view.commit_op + 1) as u32),
{
}

} // verus!
