//! What holds of the votes on an operation, whichever way they come in.

use vstd::prelude::*;

use crate::crypto::{ecdsa_signature, ecdsa_verifies, sha256, Message};
use crate::error::Error;
use crate::pbft::commit::{commit_session, CommitSession};
use crate::pbft::prepare::PrepareSession;
use crate::pbft::quorum::{CommitStage, PrepareStage, QuorumState};
use crate::pbft::{
    Commit, CommitView, PrePrepare, Prepare, PrepareView, Request, ToReplica, ToReplicaView,
};
use crate::replication::Replica;
use crate::transport::SendToAll;
use crate::wire::Format;

verus! {

/// Whether a message was found to be signed by a replica, or is.
pub open spec fn is_from<M>(replica: &Replica, id: u8, message: Message<M>) -> bool {
    message.verified || (replica.verifiers@.contains_key(id) && ecdsa_verifies(
        replica.verifiers@[id]@,
        sha256(message.inner_bytes@),
        message.signature@,
    ))
}

/// Whether a vote to commit is one of the replica that it names, on what a session
/// votes on.
pub open spec fn is_for_commit(
    session: CommitSession,
    replica: &Replica,
    commit: Message<Commit>,
) -> bool {
    &&& is_from(replica, commit.inner.replica_id, commit)
    &&& commit.inner.view_num == session.view_num
    &&& commit.inner.op_num == session.op_num
    &&& commit.inner.digest@ == session.digest@
}

/// Whether a vote for an order is one of the replica that it names, on a proposal.
pub open spec fn is_for_order(
    pre_prepare: PrePrepare,
    replica: &Replica,
    prepare: Message<Prepare>,
) -> bool {
    &&& is_from(replica, prepare.inner.replica_id, prepare)
    &&& prepare.inner.view_num == pre_prepare.view_num
    &&& prepare.inner.op_num == pre_prepare.op_num
    &&& prepare.inner.digest@ == pre_prepare.digest@
}

/// A vote to commit on what is voted on is there afterwards, as it came, and
/// other votes stay as they were. Any other vote changes nothing, and so does
/// every vote once there are more than two for each replica that may be faulty.
pub proof fn law_vote_to_commit_is_taken_in(
    session: &mut CommitSession,
    replica: &Replica,
    commit: Message<Commit>,
    other: u8,
)
    requires
        call_ensures(CommitSession::on_commit, (session, replica, commit), ()),
    ensures
        final(session).view_num == old(session).view_num,
        final(session).op_num == old(session).op_num,
        final(session).digest == old(session).digest,
        ({
            let id = commit.inner.replica_id;
            if is_for_commit(*old(session), replica, commit) && old(session).commits@.len() <= 2
                * replica.num_faulty {
                &&& final(session).commits@.contains_key(id)
                &&& final(session).commits@[id].inner == commit.inner
                &&& final(session).commits@[id].signature@ == commit.signature@
                &&& final(session).commits@[id].inner_bytes@ == commit.inner_bytes@
                &&& other != id ==> {
                    &&& final(session).commits@.contains_key(other) <==> old(session).commits@.contains_key(other)
                    &&& old(session).commits@.contains_key(other) ==> final(session).commits@[other] == old(session).commits@[other]
                }
            } else {
                final(session).commits@ == old(session).commits@
            }
        }),
{
    let id = commit.inner.replica_id;
    assert(CommitSession::takes(*old(session), replica, commit, *final(session)));
    assert(commit.inner@ == old(session).commit_of(id) <==> {
        &&& commit.inner.view_num == old(session).view_num
        &&& commit.inner.op_num == old(session).op_num
        &&& commit.inner.digest@ == old(session).digest@
    });
    if other != id {
        let (a, b) = (final(session).commits@, old(session).commits@);
        assert(a.remove(id).contains_key(other) <==> a.contains_key(other));
        assert(b.remove(id).contains_key(other) <==> b.contains_key(other));
        assert(a.remove(id)[other] == a[other]);
        assert(b.remove(id)[other] == b[other]);
    }
}

/// A vote to commit counts the same whether it came before its session and waited,
/// or comes once the votes before it were taken in.
pub proof fn law_early_vote_to_commit_counts_as_late(
    start: CommitSession,
    replica: &Replica,
    early: Seq<Message<Commit>>,
    middle: CommitSession,
    commit: Message<Commit>,
    after: CommitSession,
)
    requires
        CommitSession::takes_all(start, replica, early, middle),
        CommitSession::takes(middle, replica, commit, after),
    ensures
        CommitSession::takes_all(start, replica, early.push(commit), after),
{
    let all = early.push(commit);
    assert(all.drop_last() =~= early);
    assert(CommitSession::takes(middle, replica, all.last(), after));
}

/// Whether a session has just those votes that it had and that came in.
pub open spec fn gathers_commits(
    before: CommitSession,
    replica: &Replica,
    commits: Seq<Message<Commit>>,
    after: CommitSession,
) -> bool {
    &&& after.view_num == before.view_num
    &&& after.op_num == before.op_num
    &&& after.digest == before.digest
    &&& forall|i: int|
        0 <= i < commits.len() && is_for_commit(before, replica, #[trigger] commits[i])
            ==> after.commits@.contains_key(commits[i].inner.replica_id) || after.commits@.len() > 2
            * replica.num_faulty
    &&& forall|id: u8| #[trigger]
        before.commits@.contains_key(id) ==> after.commits@.contains_key(id)
    &&& forall|id: u8| #[trigger]
        after.commits@.contains_key(id) ==> {
            ||| before.commits@.contains_key(id) && after.commits@[id] == before.commits@[id]
            ||| exists|i: int|
                {
                    &&& 0 <= i < commits.len()
                    &&& is_for_commit(before, replica, #[trigger] commits[i])
                    &&& commits[i].inner.replica_id == id
                    &&& after.commits@[id].inner == commits[i].inner
                    &&& after.commits@[id].signature@ == commits[i].signature@
                    &&& after.commits@[id].inner_bytes@ == commits[i].inner_bytes@
                }
        }
    &&& before.commits@.len() > 2 * replica.num_faulty ==> after.commits@ == before.commits@
}

proof fn lemma_gathers_commits(
    before: CommitSession,
    replica: &Replica,
    commits: Seq<Message<Commit>>,
    after: CommitSession,
)
    requires
        CommitSession::takes_all(before, replica, commits, after),
    ensures
        gathers_commits(before, replica, commits, after),
    decreases commits.len(),
{
    if commits.len() > 0 {
        let shorter = commits.drop_last();
        let last = commits.last();
        let id = last.inner.replica_id;
        let middle = choose|middle: CommitSession|
            CommitSession::takes_all(before, replica, shorter, middle)
                && #[trigger] CommitSession::takes(middle, replica, last, after);
        lemma_gathers_commits(before, replica, shorter, middle);
        let (a, m) = (after.commits@, middle.commits@);
        assert(last.inner@ == middle.commit_of(id) <==> {
            &&& last.inner.view_num == before.view_num
            &&& last.inner.op_num == before.op_num
            &&& last.inner.digest@ == before.digest@
        });
        assert forall|k: u8| k != id implies {
            &&& #[trigger] a.contains_key(k) <==> m.contains_key(k)
            &&& m.contains_key(k) ==> a[k] == m[k]
        } by {
            assert(a.remove(id).contains_key(k) <==> a.contains_key(k));
            assert(m.remove(id).contains_key(k) <==> m.contains_key(k));
            assert(a.remove(id)[k] == a[k]);
            assert(m.remove(id)[k] == m[k]);
        }
        let more = m.len() <= 2 * replica.num_faulty;
        let taken = more && is_for_commit(before, replica, last);
        assert(taken ==> a.dom() == m.dom().insert(id));
        assert(!taken ==> a == m);
        assert(m.contains_key(id) ==> a.contains_key(id));
        assert(!more ==> a == m);
        assert forall|i: int|
            0 <= i < commits.len() && is_for_commit(
                before,
                replica,
                #[trigger] commits[i],
            ) implies a.contains_key(commits[i].inner.replica_id) || a.len() > 2
            * replica.num_faulty by {
            if i < shorter.len() {
                assert(shorter[i] == commits[i]);
                let k = commits[i].inner.replica_id;
                if m.contains_key(k) {
                    assert(a.contains_key(k));
                }
            }
        }
        assert forall|k: u8| #[trigger] before.commits@.contains_key(k) implies a.contains_key(
            k,
        ) by {
            assert(m.contains_key(k));
        }
        assert forall|k: u8| #[trigger] a.contains_key(k) implies {
            ||| before.commits@.contains_key(k) && a[k] == before.commits@[k]
            ||| exists|i: int|
                {
                    &&& 0 <= i < commits.len()
                    &&& is_for_commit(before, replica, #[trigger] commits[i])
                    &&& commits[i].inner.replica_id == k
                    &&& a[k].inner == commits[i].inner
                    &&& a[k].signature@ == commits[i].signature@
                    &&& a[k].inner_bytes@ == commits[i].inner_bytes@
                }
        } by {
            if taken && k == id {
                assert(commits[commits.len() - 1] == last);
                assert(a[k].packet_view() == last.packet_view());
            } else {
                assert(m.contains_key(k));
                assert(a[k] == m[k]);
                if !(before.commits@.contains_key(k) && m[k] == before.commits@[k]) {
                    let i = choose|i: int|
                        {
                            &&& 0 <= i < shorter.len()
                            &&& is_for_commit(before, replica, #[trigger] shorter[i])
                            &&& shorter[i].inner.replica_id == k
                            &&& m[k].inner == shorter[i].inner
                            &&& m[k].signature@ == shorter[i].signature@
                            &&& m[k].inner_bytes@ == shorter[i].inner_bytes@
                        };
                    assert(commits[i] == shorter[i]);
                }
            }
        }
    }
}

/// Every replica whose vote to commit waited for the session is counted in it,
/// unless there are enough votes. No vote is there that did not come, none that
/// was there is lost, and enough votes take in no more.
pub proof fn law_waiting_votes_to_commit_are_taken_in(
    session: &mut CommitSession,
    replica: &Replica,
    commits: Vec<Message<Commit>>,
)
    requires
        call_ensures(CommitSession::on_commits, (session, replica, commits), ()),
    ensures
        gathers_commits(*old(session), replica, commits@, *final(session)),
{
    lemma_gathers_commits(*old(session), replica, commits@, *final(session));
}

/// Votes to commit are enough just when they are more than two for each replica
/// that may be faulty.
pub proof fn law_commit_needs_a_quorum(session: &CommitSession, replica: &Replica, r: bool)
    requires
        call_ensures(CommitSession::ready, (session, replica), r),
    ensures
        r <==> session.commits@.len() >= 2 * replica.num_faulty + 1,
{
}

/// A session to commit starts with the own vote alone, on what it is for, and
/// that vote goes to all replicas.
pub proof fn law_commit_starts_with_own_vote(
    replica: &Replica,
    view_num: u32,
    op_num: u32,
    digest: [u8; 32],
    r: (CommitSession, SendToAll<ToReplica>),
)
    requires
        call_ensures(commit_session, (replica, view_num, op_num, digest), r),
    ensures
        forall|id: u8| #[trigger] r.0.commits@.contains_key(id) <==> id == replica.id,
        ({
            let own = r.0.commits@[replica.id];
            &&& own.inner.view_num == view_num && r.0.view_num == view_num
            &&& own.inner.op_num == op_num && r.0.op_num == op_num
            &&& own.inner.digest@ == digest@ && r.0.digest == digest
            &&& own.inner.replica_id == replica.id
            &&& own.inner_bytes@ == Commit::encoding(own.inner.deep_view())
            &&& r.1.message@ matches ToReplicaView::Commit(packet)
            &&& packet.signature == own.signature@
            &&& packet.inner == own.inner_bytes@
            &&& packet.signature == ecdsa_signature(
                replica.signer.secret(),
                sha256(packet.inner),
            )
            &&& replica.addr_book.lists_replicas(r.1.destinations@)
            &&& r.1.sent == 0
        }),
{
    assert(r.0.commits@.dom().contains(replica.id));
    assert(r.0.commits@.contains_key(replica.id));
    assert(r.0.commits@[replica.id].inner@ == r.0.commit_of(replica.id));
    assert forall|id: u8| #[trigger] r.0.commits@.contains_key(id) <==> id == replica.id by {
        assert(r.0.commits@.dom().contains(id) <==> id == replica.id);
    }
}

/// A vote for the proposed order is there afterwards, as it came, and other votes
/// stay as they were. Any other vote changes nothing, and so does every vote once
/// there are two for each replica that may be faulty.
pub proof fn law_vote_for_order_is_taken_in(
    session: &mut PrepareSession,
    replica: &Replica,
    prepare: Message<Prepare>,
    other: u8,
)
    requires
        call_ensures(PrepareSession::on_prepare, (session, replica, prepare), ()),
    ensures
        final(session).pre_prepare == old(session).pre_prepare,
        final(session).requests == old(session).requests,
        ({
            let id = prepare.inner.replica_id;
            if is_for_order(old(session).pre_prepare.inner, replica, prepare) && old(session).prepares@.len() < 2 * replica.num_faulty {
                &&& final(session).prepares@.contains_key(id)
                &&& final(session).prepares@[id].inner == prepare.inner
                &&& final(session).prepares@[id].signature@ == prepare.signature@
                &&& final(session).prepares@[id].inner_bytes@ == prepare.inner_bytes@
                &&& other != id ==> {
                    &&& final(session).prepares@.contains_key(other) <==> old(session).prepares@.contains_key(other)
                    &&& old(session).prepares@.contains_key(other) ==> final(session).prepares@[other] == old(session).prepares@[other]
                }
            } else {
                final(session).prepares@ == old(session).prepares@
            }
        }),
{
    let id = prepare.inner.replica_id;
    let proposal = old(session).pre_prepare.inner;
    assert(PrepareSession::takes(*old(session), replica, prepare, *final(session)));
    assert(prepare.inner@ == crate::pbft::prepare::prepare_for(proposal@, id) <==> {
        &&& prepare.inner.view_num == proposal.view_num
        &&& prepare.inner.op_num == proposal.op_num
        &&& prepare.inner.digest@ == proposal.digest@
    });
    if other != id {
        let (a, b) = (final(session).prepares@, old(session).prepares@);
        assert(a.remove(id).contains_key(other) <==> a.contains_key(other));
        assert(b.remove(id).contains_key(other) <==> b.contains_key(other));
        assert(a.remove(id)[other] == a[other]);
        assert(b.remove(id)[other] == b[other]);
    }
}

/// Whether a session has just those votes that it had and that came in.
pub open spec fn gathers_prepares(
    before: PrepareSession,
    replica: &Replica,
    prepares: Seq<Message<Prepare>>,
    after: PrepareSession,
) -> bool {
    &&& after.pre_prepare == before.pre_prepare
    &&& after.requests == before.requests
    &&& forall|i: int|
        0 <= i < prepares.len() && is_for_order(
            before.pre_prepare.inner,
            replica,
            #[trigger] prepares[i],
        ) ==> after.prepares@.contains_key(prepares[i].inner.replica_id) || after.prepares@.len()
            >= 2 * replica.num_faulty
    &&& forall|id: u8| #[trigger]
        before.prepares@.contains_key(id) ==> after.prepares@.contains_key(id)
    &&& forall|id: u8| #[trigger]
        after.prepares@.contains_key(id) ==> {
            ||| before.prepares@.contains_key(id) && after.prepares@[id] == before.prepares@[id]
            ||| exists|i: int|
                {
                    &&& 0 <= i < prepares.len()
                    &&& is_for_order(before.pre_prepare.inner, replica, #[trigger] prepares[i])
                    &&& prepares[i].inner.replica_id == id
                    &&& after.prepares@[id].inner == prepares[i].inner
                    &&& after.prepares@[id].signature@ == prepares[i].signature@
                    &&& after.prepares@[id].inner_bytes@ == prepares[i].inner_bytes@
                }
        }
    &&& before.prepares@.len() >= 2 * replica.num_faulty ==> after.prepares@ == before.prepares@
}

proof fn lemma_gathers_prepares(
    before: PrepareSession,
    replica: &Replica,
    prepares: Seq<Message<Prepare>>,
    after: PrepareSession,
)
    requires
        PrepareSession::takes_all(before, replica, prepares, after),
    ensures
        gathers_prepares(before, replica, prepares, after),
    decreases prepares.len(),
{
    if prepares.len() > 0 {
        let shorter = prepares.drop_last();
        let last = prepares.last();
        let id = last.inner.replica_id;
        let middle = choose|middle: PrepareSession|
            PrepareSession::takes_all(before, replica, shorter, middle)
                && #[trigger] PrepareSession::takes(middle, replica, last, after);
        lemma_gathers_prepares(before, replica, shorter, middle);
        let (a, m) = (after.prepares@, middle.prepares@);
        let proposal = before.pre_prepare.inner;
        assert(last.inner@ == crate::pbft::prepare::prepare_for(proposal@, id) <==> {
            &&& last.inner.view_num == proposal.view_num
            &&& last.inner.op_num == proposal.op_num
            &&& last.inner.digest@ == proposal.digest@
        });
        assert forall|k: u8| k != id implies {
            &&& #[trigger] a.contains_key(k) <==> m.contains_key(k)
            &&& m.contains_key(k) ==> a[k] == m[k]
        } by {
            assert(a.remove(id).contains_key(k) <==> a.contains_key(k));
            assert(m.remove(id).contains_key(k) <==> m.contains_key(k));
            assert(a.remove(id)[k] == a[k]);
            assert(m.remove(id)[k] == m[k]);
        }
        let more = m.len() < 2 * replica.num_faulty;
        let taken = more && is_for_order(proposal, replica, last);
        assert(taken ==> a.dom() == m.dom().insert(id));
        assert(!taken ==> a == m);
        assert(m.contains_key(id) ==> a.contains_key(id));
        assert forall|i: int|
            0 <= i < prepares.len() && is_for_order(
                proposal,
                replica,
                #[trigger] prepares[i],
            ) implies a.contains_key(prepares[i].inner.replica_id) || a.len() >= 2
            * replica.num_faulty by {
            if i < shorter.len() {
                assert(shorter[i] == prepares[i]);
                let k = prepares[i].inner.replica_id;
                if m.contains_key(k) {
                    assert(a.contains_key(k));
                }
            }
        }
        assert forall|k: u8| #[trigger] before.prepares@.contains_key(k) implies a.contains_key(
            k,
        ) by {
            assert(m.contains_key(k));
        }
        assert forall|k: u8| #[trigger] a.contains_key(k) implies {
            ||| before.prepares@.contains_key(k) && a[k] == before.prepares@[k]
            ||| exists|i: int|
                {
                    &&& 0 <= i < prepares.len()
                    &&& is_for_order(proposal, replica, #[trigger] prepares[i])
                    &&& prepares[i].inner.replica_id == k
                    &&& a[k].inner == prepares[i].inner
                    &&& a[k].signature@ == prepares[i].signature@
                    &&& a[k].inner_bytes@ == prepares[i].inner_bytes@
                }
        } by {
            if taken && k == id {
                assert(prepares[prepares.len() - 1] == last);
                assert(a[k].packet_view() == last.packet_view());
            } else {
                assert(m.contains_key(k));
                assert(a[k] == m[k]);
                if !(before.prepares@.contains_key(k) && m[k] == before.prepares@[k]) {
                    let i = choose|i: int|
                        {
                            &&& 0 <= i < shorter.len()
                            &&& is_for_order(proposal, replica, #[trigger] shorter[i])
                            &&& shorter[i].inner.replica_id == k
                            &&& m[k].inner == shorter[i].inner
                            &&& m[k].signature@ == shorter[i].signature@
                            &&& m[k].inner_bytes@ == shorter[i].inner_bytes@
                        };
                    assert(prepares[i] == shorter[i]);
                }
            }
        }
    }
}

/// Every replica whose vote for the order waited for the session is counted in it,
/// unless there are enough votes. No vote is there that did not come, none that
/// was there is lost, and enough votes take in no more.
pub proof fn law_waiting_votes_for_order_are_taken_in(
    session: &mut PrepareSession,
    replica: &Replica,
    prepares: Vec<Message<Prepare>>,
)
    requires
        call_ensures(PrepareSession::on_prepares, (session, replica, prepares), ()),
    ensures
        gathers_prepares(*old(session), replica, prepares@, *final(session)),
{
    lemma_gathers_prepares(*old(session), replica, prepares@, *final(session));
}

/// Votes for an order are enough just when there are two for each replica that
/// may be faulty.
pub proof fn law_order_needs_a_quorum(session: &PrepareSession, replica: &Replica, r: bool)
    requires
        call_ensures(PrepareSession::ready, (session, replica), r),
    ensures
        r <==> session.prepares@.len() >= 2 * replica.num_faulty,
{
}

/// The votes for the order that sessions have.
pub open spec fn order_votes(quorum: QuorumState) -> Map<u8, Message<Prepare>> {
    match quorum.prepare {
        PrepareStage::Voting(session) => session.prepares@,
        PrepareStage::Prepared(entry) => entry.prepares@,
        _ => Map::empty(),
    }
}

/// Whether one of some votes for an order is a good one of a replica.
pub open spec fn voted_for(
    prepares: Seq<Message<Prepare>>,
    proposal: PrePrepare,
    replica: &Replica,
    id: u8,
) -> bool {
    exists|i: int|
        0 <= i < prepares.len() && is_for_order(proposal, replica, #[trigger] prepares[i])
            && prepares[i].inner.replica_id == id
}

/// Whether one of some votes to commit is a good one of a replica.
pub open spec fn voted_to_commit(
    commits: Seq<Message<Commit>>,
    session: CommitSession,
    replica: &Replica,
    id: u8,
) -> bool {
    exists|i: int|
        0 <= i < commits.len() && is_for_commit(session, replica, #[trigger] commits[i])
            && commits[i].inner.replica_id == id
}

proof fn lemma_order_votes(
    quorum: QuorumState,
    replica: &Replica,
    start: PrepareSession,
    prepares: Seq<Message<Prepare>>,
    session: PrepareSession,
    proposal: PrePrepare,
    commits: Seq<Message<Commit>>,
    sent: Option<SendToAll<ToReplica>>,
)
    requires
        gathers_prepares(start, replica, prepares, session),
        quorum.reaches(replica, session, commits, sent),
        start.pre_prepare.inner@ == proposal@,
    ensures
        forall|id: u8| #[trigger]
            order_votes(quorum).contains_key(id) ==> start.prepares@.contains_key(id) || voted_for(
                prepares,
                proposal,
                replica,
                id,
            ),
{
    assert(order_votes(quorum) == session.prepares@);
    assert forall|id: u8| #[trigger] order_votes(quorum).contains_key(id) implies
        start.prepares@.contains_key(id) || voted_for(prepares, proposal, replica, id) by {
        if !start.prepares@.contains_key(id) {
            assert(session.prepares@.contains_key(id));
            let i = choose|i: int|
                {
                    &&& 0 <= i < prepares.len()
                    &&& is_for_order(start.pre_prepare.inner, replica, #[trigger] prepares[i])
                    &&& prepares[i].inner.replica_id == id
                    &&& session.prepares@[id].inner == prepares[i].inner
                    &&& session.prepares@[id].signature@ == prepares[i].signature@
                    &&& session.prepares@[id].inner_bytes@ == prepares[i].inner_bytes@
                };
            assert(is_for_order(proposal, replica, prepares[i]));
        }
    }
}

/// What sessions come to when a proposal is voted on, given the votes that waited.
///
/// Too few votes for the order leave the operation where it is: all that waited
/// are counted, and votes to commit go on waiting. With enough of them the
/// operation is prepared, and the votes to commit that waited are counted as well.
pub open spec fn is_voted_on(
    quorum: QuorumState,
    replica: &Replica,
    proposal: PrePrepare,
    requests: Vec<Request>,
    prepares: Seq<Message<Prepare>>,
    commits: Seq<Message<Commit>>,
    sent: Option<SendToAll<ToReplica>>,
) -> bool {
    match quorum.prepare {
        PrepareStage::Voting(session) => {
            &&& session.pre_prepare.inner@ == proposal@
            &&& session.requests == requests
            &&& session.prepares@.len() < 2 * replica.num_faulty
            &&& forall|i: int|
                0 <= i < prepares.len() && is_for_order(proposal, replica, #[trigger] prepares[i])
                    ==> session.prepares@.contains_key(prepares[i].inner.replica_id)
            &&& quorum.commit matches CommitStage::Waiting(waiting)
            &&& waiting@ == commits
            &&& sent is None
        },
        PrepareStage::Prepared(entry) => {
            &&& entry.pre_prepare.inner@ == proposal@
            &&& entry.requests == requests
            &&& entry.prepares@.len() >= 2 * replica.num_faulty
            &&& entry.commits@.len() == 0
            &&& quorum.commit matches CommitStage::Voting(votes)
            &&& votes.view_num == quorum.view_num
            &&& votes.op_num == quorum.op_num
            &&& votes.digest@ == proposal.digest@
            &&& votes.commits@.contains_key(replica.id)
            &&& forall|i: int|
                0 <= i < commits.len() && is_for_commit(votes, replica, #[trigger] commits[i])
                    ==> votes.commits@.contains_key(commits[i].inner.replica_id)
                    || votes.commits@.len() > 2 * replica.num_faulty
            &&& forall|id: u8| #[trigger]
                votes.commits@.contains_key(id) ==> id == replica.id || voted_to_commit(
                    commits,
                    votes,
                    replica,
                    id,
                )
            &&& sent matches Some(send)
            &&& replica.addr_book.lists_replicas(send.destinations@)
            &&& send.sent == 0
            &&& send.message@ matches ToReplicaView::Commit(packet)
            &&& packet.inner == Commit::encoding(
                CommitView {
                    view_num: quorum.view_num,
                    op_num: quorum.op_num,
                    digest: proposal.digest@,
                    replica_id: replica.id,
                },
            )
            &&& packet.signature == ecdsa_signature(
                replica.signer.secret(),
                sha256(packet.inner),
            )
        },
        _ => false,
    }
}

proof fn lemma_reaches(
    quorum: QuorumState,
    replica: &Replica,
    session: PrepareSession,
    proposal: PrePrepare,
    requests: Vec<Request>,
    prepares: Seq<Message<Prepare>>,
    commits: Seq<Message<Commit>>,
    sent: Option<SendToAll<ToReplica>>,
)
    requires
        quorum.reaches(replica, session, commits, sent),
        session.pre_prepare.inner@ == proposal@,
        session.requests == requests,
        forall|i: int|
            0 <= i < prepares.len() && is_for_order(proposal, replica, #[trigger] prepares[i])
                ==> session.prepares@.contains_key(prepares[i].inner.replica_id)
                || session.prepares@.len() >= 2 * replica.num_faulty,
    ensures
        is_voted_on(quorum, replica, proposal, requests, prepares, commits, sent),
{
    if session.prepares@.len() >= 2 * replica.num_faulty {
        let votes = quorum.commit->Voting_0;
        let start = choose|start: CommitSession|
            {
                &&& crate::pbft::commit::commit_starts(
                    replica,
                    quorum.view_num,
                    quorum.op_num,
                    session.pre_prepare.inner.digest,
                    (start, sent.unwrap()),
                )
                &&& #[trigger] CommitSession::takes_all(start, replica, commits, votes)
            };
        lemma_gathers_commits(start, replica, commits, votes);
        assert(start.commits@.dom().contains(replica.id));
        assert(start.commits@.contains_key(replica.id));
        let own = start.commits@[replica.id];
        assert(own.inner@ == start.commit_of(replica.id));
        assert(own.inner.deep_view() == own.inner@);
        assert forall|id: u8| #[trigger] votes.commits@.contains_key(id) implies id == replica.id
            || voted_to_commit(commits, votes, replica, id) by {
            assert(start.commits@.contains_key(id) ==> start.commits@.dom().contains(id));
            if id != replica.id {
                let i = choose|i: int|
                    {
                        &&& 0 <= i < commits.len()
                        &&& is_for_commit(start, replica, #[trigger] commits[i])
                        &&& commits[i].inner.replica_id == id
                        &&& votes.commits@[id].inner == commits[i].inner
                        &&& votes.commits@[id].signature@ == commits[i].signature@
                        &&& votes.commits@[id].inner_bytes@ == commits[i].inner_bytes@
                    };
                assert(is_for_commit(votes, replica, commits[i]));
            }
        }
        assert forall|i: int|
            0 <= i < commits.len() && is_for_commit(
                votes,
                replica,
                #[trigger] commits[i],
            ) implies votes.commits@.contains_key(commits[i].inner.replica_id)
            || votes.commits@.len() > 2 * replica.num_faulty by {
            assert(is_for_commit(start, replica, commits[i]));
        }
    }
}

/// Whether a proposal is to be voted on: it is signed by the primary of its view,
/// which is the one at hand, and has the digest of the requests.
pub open spec fn is_proposal(
    replica: &Replica,
    view_num: u32,
    pre_prepare: Message<PrePrepare>,
    requests: Vec<Request>,
) -> bool {
    let leader = ((view_num as int % replica.num_replica as int) % 256) as u8;
    &&& pre_prepare.inner.view_num == view_num
    &&& is_from(replica, leader, pre_prepare)
    &&& Vec::<Request>::encodable(requests.deep_view())
    &&& pre_prepare.inner.digest@ == sha256(Vec::<Request>::encoding(requests.deep_view()))
}

/// A backup votes on the first good proposal, and on no other: all votes that
/// waited for it count at once, and its own vote is cast. A bad proposal changes
/// nothing, and neither does one that comes when there is one already.
pub proof fn law_proposal_is_voted_on(
    quorum: &mut QuorumState,
    replica: &Replica,
    pre_prepare: Message<PrePrepare>,
    requests: Vec<Request>,
    r: Result<(Option<SendToAll<ToReplica>>, Option<SendToAll<ToReplica>>), Error>,
)
    requires
        old(quorum).wf(replica),
        call_ensures(QuorumState::on_pre_prepare, (quorum, replica, pre_prepare, requests), r),
    ensures
        final(quorum).view_num == old(quorum).view_num,
        final(quorum).op_num == old(quorum).op_num,
        match old(quorum).prepare {
            PrepareStage::Waiting(prepares) if is_proposal(
                replica,
                old(quorum).view_num,
                pre_prepare,
                requests,
            ) => {
                &&& r matches Ok((own, commit))
                &&& old(quorum).commit matches CommitStage::Waiting(commits)
                &&& is_voted_on(
                    *final(quorum),
                    replica,
                    pre_prepare.inner,
                    requests,
                    prepares@,
                    commits@,
                    commit,
                )
                &&& forall|id: u8| #[trigger]
                    order_votes(*final(quorum)).contains_key(id) ==> voted_for(
                        prepares@,
                        pre_prepare.inner,
                        replica,
                        id,
                    ) || (id == replica.id && (old(quorum).view_num as int
                        % replica.num_replica as int) % 256 != replica.id)
                &&& ((old(quorum).view_num as int % replica.num_replica as int) % 256
                    != replica.id ==> {
                    &&& own matches Some(send)
                    &&& replica.addr_book.lists_replicas(send.destinations@)
                    &&& send.sent == 0
                    &&& send.message@ matches ToReplicaView::Prepare(packet)
                    &&& packet.inner == Prepare::encoding(
                        PrepareView {
                            view_num: pre_prepare.inner.view_num,
                            op_num: pre_prepare.inner.op_num,
                            digest: pre_prepare.inner.digest@,
                            replica_id: replica.id,
                        },
                    )
                    &&& packet.signature == ecdsa_signature(
                        replica.signer.secret(),
                        sha256(packet.inner),
                    )
                    &&& final(quorum).prepare matches PrepareStage::Voting(session)
                        ==> session.prepares@.contains_key(replica.id)
                    &&& final(quorum).prepare matches PrepareStage::Prepared(entry)
                        ==> entry.prepares@.contains_key(replica.id)
                })
            },
            PrepareStage::Waiting(_) => *final(quorum) == *old(quorum) && (r matches Ok(sent)
                ==> sent.0 is None && sent.1 is None),
            PrepareStage::Voting(_) => *final(quorum) == *old(quorum) && r is Ok
                && r.unwrap().0 is None && r.unwrap().1 is None,
            _ => *final(quorum) == *old(quorum) && r is Err,
        },
{
    if let PrepareStage::Waiting(prepares) = old(quorum).prepare {
        let commits = old(quorum).commit->Waiting_0@;
        let outcome = choose|outcome: Result<
            Option<(PrepareSession, Option<SendToAll<ToReplica>>)>,
            Error,
        >|
            #[trigger] crate::pbft::prepare::backup_starts(
                replica,
                old(quorum).view_num,
                pre_prepare,
                requests,
                outcome,
            ) && match outcome {
                Ok(Some((start, send))) => {
                    &&& r matches Ok((sent, commit))
                    &&& sent == send
                    &&& final(quorum).goes_on(*old(quorum), replica, start, commit)
                },
                Ok(None) => r is Ok && r.unwrap() == (
                    None::<SendToAll<ToReplica>>,
                    None::<SendToAll<ToReplica>>,
                ) && *final(quorum) == *old(quorum),
                Err(e) => r == Err::<
                    (Option<SendToAll<ToReplica>>, Option<SendToAll<ToReplica>>),
                    Error,
                >(e) && *final(quorum) == *old(quorum),
            };
        if is_proposal(replica, old(quorum).view_num, pre_prepare, requests) {
            let start = outcome.unwrap().unwrap().0;
            let commit = r.unwrap().1;
            let session = choose|session: PrepareSession|
                #[trigger] PrepareSession::takes_all(start, replica, prepares@, session)
                    && final(quorum).reaches(replica, session, commits, commit);
            lemma_gathers_prepares(start, replica, prepares@, session);
            assert forall|i: int|
                0 <= i < prepares@.len() && is_for_order(
                    pre_prepare.inner,
                    replica,
                    #[trigger] prepares@[i],
                ) implies session.prepares@.contains_key(prepares@[i].inner.replica_id)
                || session.prepares@.len() >= 2 * replica.num_faulty by {
                assert(is_for_order(start.pre_prepare.inner, replica, prepares@[i]));
            }
            lemma_reaches(
                *final(quorum),
                replica,
                session,
                pre_prepare.inner,
                requests,
                prepares@,
                commits,
                commit,
            );
            lemma_order_votes(
                *final(quorum),
                replica,
                start,
                prepares@,
                session,
                pre_prepare.inner,
                commits,
                commit,
            );
            assert forall|id: u8| #[trigger] start.prepares@.contains_key(id) implies id
                == replica.id && (old(quorum).view_num as int % replica.num_replica as int) % 256
                != replica.id by {
                assert(start.prepares@.dom().contains(id));
            }
            if (old(quorum).view_num as int % replica.num_replica as int) % 256 != replica.id {
                assert(start.prepares@.dom().contains(replica.id));
                assert(start.prepares@.contains_key(replica.id));
                let own = start.prepares@[replica.id];
                assert(own.inner@ == crate::pbft::prepare::prepare_for(
                    start.pre_prepare.inner@,
                    replica.id,
                ));
                assert(own.inner.deep_view() == own.inner@);
            }
        }
    }
}

/// A primary puts its requests to the vote under their digest, whatever they are:
/// all votes that waited for the proposal count at once.
pub proof fn law_requests_are_proposed(
    quorum: &mut QuorumState,
    replica: &Replica,
    requests: Vec<Request>,
    r: Result<(SendToAll<ToReplica>, Option<SendToAll<ToReplica>>), Error>,
)
    requires
        old(quorum).prepare is Waiting,
        old(quorum).wf(replica),
        call_ensures(QuorumState::propose, (quorum, replica, requests), r),
    ensures
        final(quorum).view_num == old(quorum).view_num,
        final(quorum).op_num == old(quorum).op_num,
        r is Ok <==> Vec::<Request>::encodable(requests.deep_view()),
        r is Err ==> *final(quorum) == *old(quorum),
        r matches Ok((sent, commit)) ==> exists|proposal: PrePrepare|
            {
                &&& proposal.view_num == old(quorum).view_num
                &&& proposal.op_num == old(quorum).op_num
                &&& proposal.digest@ == sha256(Vec::<Request>::encoding(requests.deep_view()))
                &&& #[trigger] is_voted_on(
                    *final(quorum),
                    replica,
                    proposal,
                    requests,
                    old(quorum).prepare->Waiting_0@,
                    old(quorum).commit->Waiting_0@,
                    commit,
                )
                &&& forall|id: u8| #[trigger]
                    order_votes(*final(quorum)).contains_key(id) ==> voted_for(
                        old(quorum).prepare->Waiting_0@,
                        proposal,
                        replica,
                        id,
                    )
                &&& sent.message@ matches ToReplicaView::PrePrepare(packet, passed)
                &&& packet.inner == PrePrepare::encoding(proposal.deep_view())
                &&& packet.signature == ecdsa_signature(
                    replica.signer.secret(),
                    sha256(packet.inner),
                )
                &&& passed == requests.deep_view()
                &&& replica.addr_book.lists_replicas(sent.destinations@)
                &&& sent.sent == 0
            },
{
    let (prepares, commits) = (
        old(quorum).prepare->Waiting_0@,
        old(quorum).commit->Waiting_0@,
    );
    let outcome = choose|outcome: Result<(PrepareSession, SendToAll<ToReplica>), Error>|
        #[trigger] crate::pbft::prepare::primary_starts(
            replica,
            old(quorum).view_num,
            old(quorum).op_num,
            requests,
            outcome,
        ) && match outcome {
            Ok((start, send)) => {
                &&& r matches Ok((sent, commit))
                &&& sent == send
                &&& final(quorum).goes_on(*old(quorum), replica, start, commit)
            },
            Err(e) => r == Err::<(SendToAll<ToReplica>, Option<SendToAll<ToReplica>>), Error>(e)
                && *final(quorum) == *old(quorum),
        };
    if let Ok((sent, commit)) = r {
        let start = outcome.unwrap().0;
        let session = choose|session: PrepareSession|
            #[trigger] PrepareSession::takes_all(start, replica, prepares, session)
                && final(quorum).reaches(replica, session, commits, commit);
        lemma_gathers_prepares(start, replica, prepares, session);
        let proposal = start.pre_prepare.inner;
        lemma_order_votes(
            *final(quorum),
            replica,
            start,
            prepares,
            session,
            proposal,
            commits,
            commit,
        );
        lemma_reaches(
            *final(quorum),
            replica,
            session,
            proposal,
            requests,
            prepares,
            commits,
            commit,
        );
        assert(is_voted_on(
            *final(quorum),
            replica,
            proposal,
            requests,
            prepares,
            commits,
            commit,
        ));
    }
}

/// A vote for the order waits as long as there is no proposal, counts as soon as
/// there is one, and finds nobody once the order has its quorum.
pub proof fn law_vote_for_order_is_considered(
    quorum: &mut QuorumState,
    replica: &Replica,
    prepare: Message<Prepare>,
    r: Result<Option<SendToAll<ToReplica>>, Error>,
)
    requires
        old(quorum).wf(replica),
        call_ensures(QuorumState::on_prepare, (quorum, replica, prepare), r),
    ensures
        final(quorum).view_num == old(quorum).view_num,
        final(quorum).op_num == old(quorum).op_num,
        match old(quorum).prepare {
            PrepareStage::Waiting(prepares) => {
                &&& r is Ok && r.unwrap() is None
                &&& final(quorum).commit == old(quorum).commit
                &&& final(quorum).prepare matches PrepareStage::Waiting(after)
                &&& after@ == prepares@ + seq![prepare]
            },
            PrepareStage::Voting(session) => {
                &&& r matches Ok(commit)
                &&& old(quorum).commit matches CommitStage::Waiting(commits)
                &&& is_voted_on(
                    *final(quorum),
                    replica,
                    session.pre_prepare.inner,
                    session.requests,
                    seq![prepare],
                    commits@,
                    commit,
                )
                &&& forall|id: u8| #[trigger]
                    session.prepares@.contains_key(id) ==> order_votes(
                        *final(quorum),
                    ).contains_key(id)
                &&& forall|id: u8| #[trigger]
                    order_votes(*final(quorum)).contains_key(id) ==> session.prepares@.contains_key(
                        id,
                    ) || (id == prepare.inner.replica_id && is_for_order(
                        session.pre_prepare.inner,
                        replica,
                        prepare,
                    ))
                &&& !is_for_order(session.pre_prepare.inner, replica, prepare) ==> (final(quorum).prepare matches PrepareStage::Voting(after) && after.prepares@
                    == session.prepares@)
            },
            _ => r is Err && *final(quorum) == *old(quorum),
        },
{
    match old(quorum).prepare {
        PrepareStage::Waiting(prepares) => {
            assert(prepares@.push(prepare) =~= prepares@ + seq![prepare]);
        },
        PrepareStage::Voting(session) => {
            let commits = old(quorum).commit->Waiting_0@;
            let commit = r.unwrap();
            let after = choose|after: PrepareSession|
                #[trigger] PrepareSession::takes(session, replica, prepare, after)
                    && r is Ok && final(quorum).reaches(replica, after, commits, r.unwrap());
            let early = Seq::<Message<Prepare>>::empty();
            assert(PrepareSession::takes_all(session, replica, early, session));
            crate::pbft::quorum::law_early_vote_counts_as_late(
                session,
                replica,
                early,
                session,
                prepare,
                after,
            );
            assert(early.push(prepare) =~= seq![prepare]);
            lemma_gathers_prepares(session, replica, seq![prepare], after);
            lemma_order_votes(
                *final(quorum),
                replica,
                session,
                seq![prepare],
                after,
                session.pre_prepare.inner,
                commits,
                commit,
            );
            lemma_reaches(
                *final(quorum),
                replica,
                after,
                session.pre_prepare.inner,
                session.requests,
                seq![prepare],
                commits,
                commit,
            );
        },
        _ => {},
    }
}

/// A vote to commit waits as long as the order has no quorum, is counted then,
/// and finds nobody once there are enough.
pub proof fn law_vote_to_commit_is_considered(
    quorum: &mut QuorumState,
    replica: &Replica,
    commit: Message<Commit>,
    r: Result<(), Error>,
)
    requires
        call_ensures(QuorumState::on_commit, (quorum, replica, commit), r),
    ensures
        final(quorum).view_num == old(quorum).view_num,
        final(quorum).op_num == old(quorum).op_num,
        final(quorum).prepare == old(quorum).prepare,
        match old(quorum).commit {
            CommitStage::Waiting(commits) => {
                &&& r is Ok
                &&& final(quorum).commit matches CommitStage::Waiting(after)
                &&& after@ == commits@ + seq![commit]
            },
            CommitStage::Voting(session) if session.commits@.len() <= 2 * replica.num_faulty => {
                &&& r is Ok
                &&& final(quorum).commit matches CommitStage::Voting(after)
                &&& gathers_commits(session, replica, seq![commit], after)
                &&& is_for_commit(session, replica, commit) ==> after.commits@.contains_key(
                    commit.inner.replica_id,
                )
            },
            _ => r is Err && *final(quorum) == *old(quorum),
        },
{
    match old(quorum).commit {
        CommitStage::Waiting(commits) => {
            assert(commits@.push(commit) =~= commits@ + seq![commit]);
        },
        CommitStage::Voting(session) => {
            if session.commits@.len() <= 2 * replica.num_faulty {
                let after = final(quorum).commit->Voting_0;
                let early = Seq::<Message<Commit>>::empty();
                assert(CommitSession::takes_all(session, replica, early, session));
                law_early_vote_to_commit_counts_as_late(
                    session,
                    replica,
                    early,
                    session,
                    commit,
                    after,
                );
                assert(early.push(commit) =~= seq![commit]);
                lemma_gathers_commits(session, replica, seq![commit], after);
                let id = commit.inner.replica_id;
                assert(commit.inner@ == session.commit_of(id) <==> {
                    &&& commit.inner.view_num == session.view_num
                    &&& commit.inner.op_num == session.op_num
                    &&& commit.inner.digest@ == session.digest@
                });
                if is_for_commit(session, replica, commit) {
                    assert(after.commits@.dom().contains(id));
                }
            }
        },
        _ => {},
    }
}

/// An operation is committed once, by more than two votes for each replica that
/// may be faulty, and as soon as there are as many.
pub proof fn law_operation_is_committed_by_a_quorum(
    quorum: &mut QuorumState,
    replica: &Replica,
    r: Option<std::collections::HashMap<u8, Message<Commit>>>,
)
    requires
        call_ensures(QuorumState::take_committed, (quorum, replica), r),
    ensures
        final(quorum).prepare == old(quorum).prepare,
        match old(quorum).commit {
            CommitStage::Voting(session) if session.commits@.len() > 2 * replica.num_faulty => {
                &&& r matches Some(commits)
                &&& commits@ == session.commits@
                &&& final(quorum).commit is Taken
            },
            _ => r is None && *final(quorum) == *old(quorum),
        },
{
}

/// The entry of a prepared operation is handed out once, and votes to commit are
/// not touched by that.
pub proof fn law_prepared_entry_is_handed_out_once(
    quorum: &mut QuorumState,
    r: Option<crate::pbft::prepare::LogEntry>,
)
    requires
        call_ensures(QuorumState::take_prepared, (quorum,), r),
    ensures
        final(quorum).commit == old(quorum).commit,
        match old(quorum).prepare {
            PrepareStage::Prepared(entry) => r == Some(entry) && final(quorum).prepare is Taken,
            _ => r is None && *final(quorum) == *old(quorum),
        },
{
}

/// Whether a replica has voted in a view to commit what was proposed.
pub open spec fn has_vote_to_commit(
    commits: Seq<Message<Commit>>,
    replica: &Replica,
    view_num: u32,
    proposal: PrePrepare,
    id: u8,
) -> bool {
    exists|i: int|
        {
            &&& 0 <= i < commits.len()
            &&& is_from(replica, id, #[trigger] commits[i])
            &&& commits[i].inner.replica_id == id
            &&& commits[i].inner.view_num == view_num
            &&& commits[i].inner.op_num == proposal.op_num
            &&& commits[i].inner.digest@ == proposal.digest@
        }
}

/// Enough replicas prepare and commit an operation, whenever their votes came: once a
/// backup has a good proposal, and votes for it of as many others as make two for
/// each replica that may be faulty, it is prepared. With votes to commit of two others
/// for each replica that may be faulty it is committed at once.
pub proof fn law_enough_waiting_votes_commit(
    quorum: &mut QuorumState,
    replica: &Replica,
    pre_prepare: Message<PrePrepare>,
    requests: Vec<Request>,
    sent: Result<(Option<SendToAll<ToReplica>>, Option<SendToAll<ToReplica>>), Error>,
    later: &mut QuorumState,
    r: Option<std::collections::HashMap<u8, Message<Commit>>>,
    voters: Set<u8>,
    committers: Set<u8>,
)
    requires
        old(quorum).wf(replica),
        old(quorum).prepare is Waiting,
        call_ensures(QuorumState::on_pre_prepare, (quorum, replica, pre_prepare, requests), sent),
        is_proposal(replica, old(quorum).view_num, pre_prepare, requests),
        pre_prepare.inner.op_num == old(quorum).op_num,
        (old(quorum).view_num as int % replica.num_replica as int) % 256 != replica.id,
        voters.finite(),
        !voters.contains(replica.id),
        voters.len() + 1 >= 2 * replica.num_faulty,
        forall|id: u8| #[trigger]
            voters.contains(id) ==> voted_for(
                old(quorum).prepare->Waiting_0@,
                pre_prepare.inner,
                replica,
                id,
            ),
        committers.finite(),
        !committers.contains(replica.id),
        committers.len() >= 2 * replica.num_faulty,
        forall|id: u8| #[trigger]
            committers.contains(id) ==> has_vote_to_commit(
                old(quorum).commit->Waiting_0@,
                replica,
                old(quorum).view_num,
                pre_prepare.inner,
                id,
            ),
        *old(later) == *final(quorum),
        call_ensures(QuorumState::take_committed, (later, replica), r),
    ensures
        final(quorum).prepare matches PrepareStage::Prepared(entry) && entry.requests == requests,
        r matches Some(votes) && votes@.len() > 2 * replica.num_faulty,
{
    law_proposal_is_voted_on(quorum, replica, pre_prepare, requests, sent);
    let prepares = old(quorum).prepare->Waiting_0@;
    let commits = old(quorum).commit->Waiting_0@;
    if let PrepareStage::Voting(session) = final(quorum).prepare {
        let had = session.prepares@.dom();
        assert(session.prepares@.dom().finite());
        assert(voters.insert(replica.id).subset_of(had)) by {
            assert forall|id: u8| voters.insert(replica.id).contains(id) implies had.contains(
                id,
            ) by {
                if id != replica.id {
                    assert(voters.contains(id));
                    let i = choose|i: int|
                        0 <= i < prepares.len() && is_for_order(
                            pre_prepare.inner,
                            replica,
                            #[trigger] prepares[i],
                        ) && prepares[i].inner.replica_id == id;
                    assert(session.prepares@.contains_key(prepares[i].inner.replica_id));
                } else {
                    assert(session.prepares@.contains_key(replica.id));
                }
            }
        }
        vstd::set_lib::lemma_len_subset(voters.insert(replica.id), had);
    }
    let votes = final(quorum).commit->Voting_0;
    if votes.commits@.len() <= 2 * replica.num_faulty {
        let had = votes.commits@.dom();
        assert(votes.commits@.dom().finite());
        assert(committers.insert(replica.id).subset_of(had)) by {
            assert forall|id: u8| committers.insert(replica.id).contains(id) implies had.contains(
                id,
            ) by {
                if id != replica.id {
                    assert(committers.contains(id));
                    let i = choose|i: int|
                        {
                            &&& 0 <= i < commits.len()
                            &&& is_from(replica, id, #[trigger] commits[i])
                            &&& commits[i].inner.replica_id == id
                            &&& commits[i].inner.view_num == old(quorum).view_num
                            &&& commits[i].inner.op_num == pre_prepare.inner.op_num
                            &&& commits[i].inner.digest@ == pre_prepare.inner.digest@
                        };
                    assert(is_for_commit(votes, replica, commits[i]));
                    assert(votes.commits@.contains_key(commits[i].inner.replica_id));
                } else {
                    assert(votes.commits@.contains_key(replica.id));
                }
            }
        }
        vstd::set_lib::lemma_len_subset(committers.insert(replica.id), had);
    }
}

} // verus!
