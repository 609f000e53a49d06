//! The session that makes a prepared operation final.

use std::collections::HashMap;

use vstd::prelude::*;

use crate::crypto::{Digest, Message};
use crate::pbft::prepare::is_authentic;
use crate::pbft::{Commit, CommitView, ToReplica, ToReplicaView};
use crate::replication::Replica;
use crate::transport::SendToAll;
use crate::wire::same_bytes;

verus! {

/// The votes to commit an operation.
#[derive(Debug)]
pub struct CommitSession {
    pub view_num: u32,
    pub op_num: u32,
    pub digest: Digest,
    pub commits: HashMap<u8, Message<Commit>>,
}

/// Whether a message can be a vote to commit an operation: it is about it, it
/// names a replica that is known, and is yet to be verified.
pub open spec fn is_commit_vote(replica: &Replica, op_num: u32, commit: Message<Commit>) -> bool {
    &&& commit.inner.op_num == op_num
    &&& replica.verifiers@.contains_key(commit.inner.replica_id)
    &&& !commit.verified
}

impl CommitSession {
    /// The vote of a replica to commit.
    pub open spec fn commit_of(&self, replica_id: u8) -> CommitView {
        CommitView {
            view_num: self.view_num,
            op_num: self.op_num,
            digest: self.digest@,
            replica_id,
        }
    }

    /// Every vote is one for the operation, under the replica that it names.
    pub open spec fn wf(&self) -> bool {
        forall|id: u8| #[trigger]
            self.commits@.contains_key(id) ==> {
                &&& self.commits@[id].inner@ == self.commit_of(id)
                &&& self.commits@[id].verified
            }
    }

    /// Every vote but the replica's own carries the signature of its replica.
    pub open spec fn certified(&self, replica: &Replica) -> bool {
        forall|id: u8| #[trigger]
            self.commits@.contains_key(id) && id != replica.id ==> is_authentic(
                replica,
                id,
                self.commits@[id],
            )
    }

    /// Whether there are enough votes: more than two for each replica that may
    /// be faulty.
    pub open spec fn is_quorum(&self, replica: &Replica) -> bool {
        self.commits@.len() > 2 * replica.num_faulty
    }

    /// There are no more votes than are needed, and the replica's own is there.
    pub open spec fn counted(&self, replica: &Replica) -> bool {
        &&& self.commits@.len() <= 2 * replica.num_faulty + 1
        &&& self.commits@.contains_key(replica.id)
    }

    pub fn ready(&self, replica: &Replica) -> (r: bool)
        ensures
            r == self.is_quorum(replica),
    {
        self.commits.len() / 2 + self.commits.len() % 2 > replica.num_faulty
    }

    /// Whether taking a vote in leads from one state to another. A vote counts
    /// if more are needed, it is signed by the replica that it names and is for
    /// the same view and the same digest.
    pub open spec fn takes(
        before: CommitSession,
        replica: &Replica,
        commit: Message<Commit>,
        after: CommitSession,
    ) -> bool {
        let id = commit.inner.replica_id;
        let valid = commit.verified || is_authentic(replica, id, commit);
        &&& after.view_num == before.view_num
        &&& after.op_num == before.op_num
        &&& after.digest == before.digest
        &&& if !before.is_quorum(replica) && valid && commit.inner@ == before.commit_of(id) {
            &&& after.commits@.dom() == before.commits@.dom().insert(id)
            &&& after.commits@.remove(id) == before.commits@.remove(id)
            &&& after.commits@[id].inner == commit.inner
            &&& after.commits@[id].packet_view() == commit.packet_view()
        } else {
            after.commits@ == before.commits@
        }
    }

    /// Takes a vote in, unless there is a quorum already.
    pub fn on_commit(&mut self, replica: &Replica, commit: Message<Commit>)
        requires
            old(self).wf(),
            commit.inner.op_num == old(self).op_num,
            replica.verifiers@.contains_key(commit.inner.replica_id),
        ensures
            final(self).wf(),
            Self::takes(*old(self), replica, commit, *final(self)),
            old(self).certified(replica) && !commit.verified ==> final(self).certified(replica),
            old(self).counted(replica) ==> final(self).counted(replica),
    {
        if self.ready(replica) {
            return;
        }
        let mut commit = commit;
        let ghost given = commit;
        let ghost before = self.commits@;
        let id: u8 = commit.inner.replica_id;
        let valid = replica.verifiers.get(&id).unwrap().verify(&mut commit).is_ok();
        if valid && commit.inner.view_num == self.view_num && same_bytes(
            commit.inner.digest.as_slice(),
            self.digest.as_slice(),
        ) {
            self.commits.insert(id, commit);
            assert(self.commits@.remove(id) =~= before.remove(id));
            assert(given.inner@ == self.commit_of(id));
        }
    }

    /// Whether taking votes in, one after the other, leads from one state to
    /// another.
    pub open spec fn takes_all(
        before: CommitSession,
        replica: &Replica,
        commits: Seq<Message<Commit>>,
        after: CommitSession,
    ) -> bool
        decreases commits.len(),
    {
        if commits.len() == 0 {
            after == before
        } else {
            exists|middle: CommitSession|
                Self::takes_all(before, replica, commits.drop_last(), middle)
                    && #[trigger] Self::takes(middle, replica, commits.last(), after)
        }
    }

    /// Takes in the votes that came before the session, in their order.
    pub fn on_commits(&mut self, replica: &Replica, commits: Vec<Message<Commit>>)
        requires
            old(self).wf(),
            old(self).certified(replica),
            old(self).counted(replica),
            forall|i: int|
                0 <= i < commits@.len() ==> is_commit_vote(
                    replica,
                    old(self).op_num,
                    #[trigger] commits@[i],
                ),
        ensures
            final(self).wf(),
            final(self).certified(replica),
            final(self).counted(replica),
            final(self).view_num == old(self).view_num,
            final(self).op_num == old(self).op_num,
            Self::takes_all(*old(self), replica, commits@, *final(self)),
    {
        let ghost all = commits@;
        let mut commits = commits;
        let ghost mut n: int = 0;
        assert(all.take(0) =~= Seq::<Message<Commit>>::empty());
        while commits.len() > 0
            invariant
                0 <= n <= all.len(),
                commits@ == all.skip(n),
                self.wf(),
                self.certified(replica),
                self.counted(replica),
                self.view_num == old(self).view_num,
                self.op_num == old(self).op_num,
                forall|i: int|
                    0 <= i < all.len() ==> is_commit_vote(
                        replica,
                        old(self).op_num,
                        #[trigger] all[i],
                    ),
                Self::takes_all(*old(self), replica, all.take(n), *self),
            decreases commits@.len(),
        {
            let ghost middle = *self;
            assert(all.skip(n)[0] == all[n]);
            let commit = commits.remove(0);
            let ghost vote = commit;
            assert(is_commit_vote(replica, old(self).op_num, all[n]));
            self.on_commit(replica, commit);
            proof {
                assert(all.take(n + 1).drop_last() =~= all.take(n));
                assert(all.take(n + 1).last() == vote);
                assert(Self::takes(middle, replica, all.take(n + 1).last(), *self));
                assert(commits@ =~= all.skip(n + 1));
                n = n + 1;
            }
        }
        assert(all.take(n) =~= all);
    }

    /// Ends the session with the votes.
    pub fn finish(self, replica: &Replica) -> (r: HashMap<u8, Message<Commit>>)
        requires
            self.is_quorum(replica),
            self.counted(replica),
        ensures
            r == self.commits,
            r@.len() == 2 * replica.num_faulty + 1,
            r@.contains_key(replica.id),
    {
        self.commits
    }
}

/// What votes to commit a prepared digest start with.
pub open spec fn commit_starts(
    replica: &Replica,
    view_num: u32,
    op_num: u32,
    digest: Digest,
    r: (CommitSession, SendToAll<ToReplica>),
) -> bool {
    let own = r.0.commits@[replica.id];
    &&& r.0.wf()
    &&& r.0.certified(replica)
    &&& r.0.counted(replica)
    &&& r.0.view_num == view_num
    &&& r.0.op_num == op_num
    &&& r.0.digest == digest
    &&& r.0.commits@.dom() == set![replica.id]
    &&& own.in_sync()
    &&& own.is_signed_by(replica.signer)
    &&& replica.addr_book.lists_replicas(r.1.destinations@)
    &&& r.1.message@ == ToReplicaView::Commit(own.packet_view())
    &&& r.1.sent == 0
}

/// Starts to gather votes for a prepared digest: casts the replica's own and
/// sends it to all replicas.
pub fn commit_session(replica: &Replica, view_num: u32, op_num: u32, digest: Digest) -> (r: (
    CommitSession,
    SendToAll<ToReplica>,
))
    requires
        replica.addr_book.enumerable(),
    ensures
        commit_starts(replica, view_num, op_num, digest, r),
{
    let commit = Commit { view_num, op_num, digest, replica_id: replica.id };
    let commit = replica.signer.serialize_sign(commit).unwrap();
    let packet = commit.packet();
    let mut commits: HashMap<u8, Message<Commit>> = HashMap::new();
    commits.insert(replica.id, commit);
    assert(commits@.dom() =~= set![replica.id]);
    let send = replica.send_to_all_replica(ToReplica::Commit(packet));
    (CommitSession { view_num, op_num, digest, commits }, send)
}

/// Two quorums of replicas out of three for each faulty one, plus one, have a
/// correct replica in common.
pub proof fn law_commit_quorums_intersect(
    replicas: Set<u8>,
    faulty: Set<u8>,
    a: Set<u8>,
    b: Set<u8>,
    num_faulty: nat,
)
    requires
        replicas.finite(),
        replicas.len() <= 3 * num_faulty + 1,
        faulty.finite(),
        faulty.len() <= num_faulty,
        a.subset_of(replicas),
        b.subset_of(replicas),
        a.len() > 2 * num_faulty,
        b.len() > 2 * num_faulty,
    ensures
        exists|id: u8| #[trigger] a.contains(id) && b.contains(id) && !faulty.contains(id),
{
    vstd::set_lib::lemma_len_subset(a, replicas);
    vstd::set_lib::lemma_len_subset(b, replicas);
    let common = a.intersect(b);
    if common.subset_of(faulty) {
        vstd::set_lib::lemma_len_subset(common, faulty);
        vstd::set_lib::lemma_set_union_finite_iff(a, b);
        vstd::set_lib::lemma_len_subset(a + b, replicas);
        let rest = b.difference(a);
        assert(a + rest =~= a + b);
        assert(rest + common =~= b);
        vstd::set_lib::lemma_set_disjoint_lens(a, rest);
        vstd::set_lib::lemma_set_disjoint_lens(rest, common);
    }
    let id = choose|id: u8| common.contains(id) && !faulty.contains(id);
    assert(a.contains(id));
}

/// Safety of one operation: when each correct replica votes to commit one
/// digest only, two sessions for the same view and operation that gather
/// quorums from the same replicas commit the same digest.
pub proof fn law_committed_digest_is_unique(
    a: CommitSession,
    b: CommitSession,
    replicas: Set<u8>,
    faulty: Set<u8>,
    voted: Map<u8, Seq<u8>>,
    num_faulty: nat,
)
    requires
        a.wf(),
        b.wf(),
        replicas.finite(),
        replicas.len() <= 3 * num_faulty + 1,
        faulty.finite(),
        faulty.len() <= num_faulty,
        a.commits@.dom().subset_of(replicas),
        b.commits@.dom().subset_of(replicas),
        a.commits@.len() > 2 * num_faulty,
        b.commits@.len() > 2 * num_faulty,
        forall|id: u8| #[trigger]
            a.commits@.contains_key(id) && !faulty.contains(id) ==> a.commits@[id].inner.digest@
                == voted[id],
        forall|id: u8| #[trigger]
            b.commits@.contains_key(id) && !faulty.contains(id) ==> b.commits@[id].inner.digest@
                == voted[id],
    ensures
        a.digest@ == b.digest@,
{
    law_commit_quorums_intersect(replicas, faulty, a.commits@.dom(), b.commits@.dom(), num_faulty);
    let id = choose|id: u8| #[trigger]
        a.commits@.dom().contains(id) && b.commits@.dom().contains(id) && !faulty.contains(id);
    assert(a.commits@.contains_key(id));
    assert(b.commits@.contains_key(id));
    assert(a.commits@[id].inner@ == a.commit_of(id));
    assert(b.commits@[id].inner@ == b.commit_of(id));
}

} // verus!
