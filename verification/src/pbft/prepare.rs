//! The sessions that agree on the order of a batch within one view.

use std::collections::HashMap;

use vstd::prelude::*;

use crate::crypto::{digest, ecdsa_verifies, sha256, Digest, Message};
use crate::error::Error;
use crate::pbft::{
    Commit, PrePrepare, PrePrepareView, Prepare, PrepareView, Request, ToReplica, ToReplicaView,
};
use crate::replication::{primary_of, Replica};
use crate::transport::SendToAll;
use crate::wire::{same_bytes, Format};

verus! {

/// What a replica holds of an operation once it is prepared.
#[derive(Debug)]
pub struct LogEntry {
    pub requests: Vec<Request>,
    pub pre_prepare: Message<PrePrepare>,
    pub prepares: HashMap<u8, Message<Prepare>>,
    pub commits: HashMap<u8, Message<Commit>>,
}

/// The votes for a proposed order.
#[derive(Debug)]
pub struct PrepareSession {
    pub pre_prepare: Message<PrePrepare>,
    pub requests: Vec<Request>,
    pub prepares: HashMap<u8, Message<Prepare>>,
}

/// The vote of a replica for a proposal.
pub open spec fn prepare_for(pre_prepare: PrePrepareView, replica_id: u8) -> PrepareView {
    PrepareView {
        view_num: pre_prepare.view_num,
        op_num: pre_prepare.op_num,
        digest: pre_prepare.digest,
        replica_id,
    }
}

/// How many votes a replica gathers for a proposal of a view: two for each
/// replica that may be faulty, and its own if it is a backup.
pub open spec fn num_prepares(replica: &Replica, view_num: u32) -> nat {
    if replica.num_faulty == 0 && primary_of(view_num, replica.num_replica) != replica.id {
        1
    } else {
        2 * replica.num_faulty as nat
    }
}

/// Whether a vote was signed by the replica that it names.
pub open spec fn is_authentic<M>(replica: &Replica, id: u8, message: Message<M>) -> bool {
    replica.verifiers@.contains_key(id) && ecdsa_verifies(
        replica.verifiers@[id]@,
        sha256(message.bytes()),
        message.signature@,
    )
}

/// Whether a message can be a vote on an operation: it is about it, it names a
/// replica that is known, and is yet to be verified.
pub open spec fn is_vote(replica: &Replica, op_num: u32, prepare: Message<Prepare>) -> bool {
    &&& prepare.inner.op_num == op_num
    &&& replica.verifiers@.contains_key(prepare.inner.replica_id)
    &&& !prepare.verified
}

impl PrepareSession {
    /// Every vote is one for the proposal, under the replica that it names.
    pub open spec fn wf(&self) -> bool {
        &&& self.pre_prepare.verified
        &&& forall|id: u8| #[trigger]
            self.prepares@.contains_key(id) ==> {
                &&& self.prepares@[id].inner@ == prepare_for(self.pre_prepare.inner@, id)
                &&& self.prepares@[id].verified
            }
    }

    /// Every vote but the replica's own carries the signature of its replica.
    pub open spec fn certified(&self, replica: &Replica) -> bool {
        forall|id: u8| #[trigger]
            self.prepares@.contains_key(id) && id != replica.id ==> is_authentic(
                replica,
                id,
                self.prepares@[id],
            )
    }

    /// Whether there are enough votes: two for each replica that may be faulty.
    pub open spec fn is_quorum(&self, replica: &Replica) -> bool {
        self.prepares@.len() >= 2 * replica.num_faulty
    }

    /// There are no more votes than are needed, and a backup has cast its own.
    pub open spec fn counted(&self, replica: &Replica) -> bool {
        let view_num = self.pre_prepare.inner.view_num;
        &&& self.prepares@.len() <= num_prepares(replica, view_num)
        &&& primary_of(view_num, replica.num_replica) != replica.id
            ==> self.prepares@.contains_key(replica.id)
    }

    pub fn ready(&self, replica: &Replica) -> (r: bool)
        ensures
            r == self.is_quorum(replica),
    {
        self.prepares.len() / 2 >= replica.num_faulty
    }

    /// Whether taking a vote in leads from one state to another. A vote counts
    /// if more are needed, it is signed by the replica that it names and is for
    /// the same view and the same requests.
    pub open spec fn takes(
        before: PrepareSession,
        replica: &Replica,
        prepare: Message<Prepare>,
        after: PrepareSession,
    ) -> bool {
        let id = prepare.inner.replica_id;
        let valid = prepare.verified || is_authentic(replica, id, prepare);
        &&& after.pre_prepare == before.pre_prepare
        &&& after.requests == before.requests
        &&& if !before.is_quorum(replica) && valid && prepare.inner@ == prepare_for(
            before.pre_prepare.inner@,
            id,
        ) {
            &&& after.prepares@.dom() == before.prepares@.dom().insert(id)
            &&& after.prepares@.remove(id) == before.prepares@.remove(id)
            &&& after.prepares@[id].inner == prepare.inner
            &&& after.prepares@[id].packet_view() == prepare.packet_view()
        } else {
            after.prepares@ == before.prepares@
        }
    }

    /// Takes a vote in, unless there is a quorum already.
    pub fn on_prepare(&mut self, replica: &Replica, prepare: Message<Prepare>)
        requires
            old(self).wf(),
            prepare.inner.op_num == old(self).pre_prepare.inner.op_num,
            replica.verifiers@.contains_key(prepare.inner.replica_id),
        ensures
            final(self).wf(),
            Self::takes(*old(self), replica, prepare, *final(self)),
            old(self).certified(replica) && !prepare.verified ==> final(self).certified(replica),
            old(self).counted(replica) ==> final(self).counted(replica),
    {
        if self.ready(replica) {
            return;
        }
        let mut prepare = prepare;
        let ghost given = prepare;
        let ghost before = self.prepares@;
        let id: u8 = prepare.inner.replica_id;
        let valid = replica.verifiers.get(&id).unwrap().verify(&mut prepare).is_ok();
        if valid && prepare.inner.view_num == self.pre_prepare.inner.view_num && same_bytes(
            prepare.inner.digest.as_slice(),
            self.pre_prepare.inner.digest.as_slice(),
        ) {
            self.prepares.insert(id, prepare);
            assert(self.prepares@.remove(id) =~= before.remove(id));
            assert(given.inner@ == prepare_for(self.pre_prepare.inner@, id));
        }
    }

    /// Whether taking votes in, one after the other, leads from one state to
    /// another.
    pub open spec fn takes_all(
        before: PrepareSession,
        replica: &Replica,
        prepares: Seq<Message<Prepare>>,
        after: PrepareSession,
    ) -> bool
        decreases prepares.len(),
    {
        if prepares.len() == 0 {
            after == before
        } else {
            exists|middle: PrepareSession|
                Self::takes_all(before, replica, prepares.drop_last(), middle)
                    && #[trigger] Self::takes(middle, replica, prepares.last(), after)
        }
    }

    /// Takes in the votes that came before the session, in their order.
    pub fn on_prepares(&mut self, replica: &Replica, prepares: Vec<Message<Prepare>>)
        requires
            old(self).wf(),
            old(self).certified(replica),
            old(self).counted(replica),
            forall|i: int|
                0 <= i < prepares@.len() ==> is_vote(
                    replica,
                    old(self).pre_prepare.inner.op_num,
                    #[trigger] prepares@[i],
                ),
        ensures
            final(self).wf(),
            final(self).certified(replica),
            final(self).counted(replica),
            final(self).pre_prepare == old(self).pre_prepare,
            Self::takes_all(*old(self), replica, prepares@, *final(self)),
    {
        let ghost all = prepares@;
        let mut prepares = prepares;
        let ghost mut n: int = 0;
        assert(all.take(0) =~= Seq::<Message<Prepare>>::empty());
        while prepares.len() > 0
            invariant
                0 <= n <= all.len(),
                prepares@ == all.skip(n),
                self.wf(),
                self.certified(replica),
                self.counted(replica),
                self.pre_prepare == old(self).pre_prepare,
                forall|i: int|
                    0 <= i < all.len() ==> is_vote(
                        replica,
                        old(self).pre_prepare.inner.op_num,
                        #[trigger] all[i],
                    ),
                Self::takes_all(*old(self), replica, all.take(n), *self),
            decreases prepares@.len(),
        {
            let ghost middle = *self;
            assert(all.skip(n)[0] == all[n]);
            let prepare = prepares.remove(0);
            let ghost vote = prepare;
            assert(is_vote(replica, old(self).pre_prepare.inner.op_num, all[n]));
            self.on_prepare(replica, prepare);
            proof {
                assert(all.take(n + 1).drop_last() =~= all.take(n));
                assert(all.take(n + 1).last() == vote);
                assert(Self::takes(middle, replica, all.take(n + 1).last(), *self));
                assert(prepares@ =~= all.skip(n + 1));
                n = n + 1;
            }
        }
        assert(all.take(n) =~= all);
    }

    /// Ends the session with the entry for the log and the digest to commit.
    pub fn finish(self, replica: &Replica) -> (r: (LogEntry, Digest))
        requires
            self.is_quorum(replica),
            self.counted(replica),
        ensures
            r.0.prepares@.len() == num_prepares(replica, self.pre_prepare.inner.view_num),
            r.0.requests == self.requests,
            r.0.pre_prepare == self.pre_prepare,
            r.0.prepares == self.prepares,
            r.0.commits@ == Map::<u8, Message<Commit>>::empty(),
            r.1 == self.pre_prepare.inner.digest,
    {
        proof {
            if self.prepares@.contains_key(replica.id) {
                vstd::set_lib::lemma_len_subset(set![replica.id], self.prepares@.dom());
            }
        }
        let commit_digest = self.pre_prepare.inner.digest;
        let entry = LogEntry {
            requests: self.requests,
            pre_prepare: self.pre_prepare,
            prepares: self.prepares,
            commits: HashMap::new(),
        };
        (entry, commit_digest)
    }
}

/// Starts to gather votes. A backup casts its own and sends it to all replicas.
pub fn prepare_session(
    replica: &Replica,
    pre_prepare: Message<PrePrepare>,
    requests: Vec<Request>,
) -> (r: (PrepareSession, Option<SendToAll<ToReplica>>))
    requires
        pre_prepare.verified,
        replica.num_replica > 0,
        primary_of(pre_prepare.inner.view_num, replica.num_replica) == replica.id
            || replica.addr_book.enumerable(),
    ensures
        r.0.wf(),
        r.0.certified(replica),
        r.0.counted(replica),
        r.0.pre_prepare == pre_prepare,
        r.0.requests == requests,
        if primary_of(pre_prepare.inner.view_num, replica.num_replica) == replica.id {
            r.0.prepares@ == Map::<u8, Message<Prepare>>::empty() && r.1 is None
        } else {
            &&& r.0.prepares@.dom() == set![replica.id]
            &&& r.0.prepares@[replica.id].in_sync()
            &&& r.0.prepares@[replica.id].is_signed_by(replica.signer)
            &&& r.1 matches Some(send)
            &&& replica.addr_book.lists_replicas(send.destinations@)
            &&& send.message@ == ToReplicaView::Prepare(
                r.0.prepares@[replica.id].packet_view(),
            )
            &&& send.sent == 0
        },
{
    let mut prepares: HashMap<u8, Message<Prepare>> = HashMap::new();
    let send = if !replica.is_primary(pre_prepare.inner.view_num) {
        let prepare = Prepare {
            view_num: pre_prepare.inner.view_num,
            op_num: pre_prepare.inner.op_num,
            digest: pre_prepare.inner.digest,
            replica_id: replica.id,
        };
        let prepare = replica.signer.serialize_sign(prepare).unwrap();
        let packet = prepare.packet();
        prepares.insert(replica.id, prepare);
        assert(prepares@.dom() =~= set![replica.id]);
        Some(replica.send_to_all_replica(ToReplica::Prepare(packet)))
    } else {
        None
    };
    (PrepareSession { pre_prepare, requests, prepares }, send)
}

/// What comes of a proposal of a primary.
pub open spec fn primary_starts(
    replica: &Replica,
    view_num: u32,
    op_num: u32,
    requests: Vec<Request>,
    r: Result<(PrepareSession, SendToAll<ToReplica>), Error>,
) -> bool {
    match r {
        Ok((session, send)) => {
            &&& Vec::<Request>::encodable(requests.deep_view())
            &&& session.wf()
            &&& session.certified(replica)
            &&& session.counted(replica)
            &&& session.pre_prepare.in_sync()
            &&& session.pre_prepare.is_signed_by(replica.signer)
            &&& session.pre_prepare.inner@ == (PrePrepareView {
                view_num,
                op_num,
                digest: sha256(Vec::<Request>::encoding(requests.deep_view())),
            })
            &&& session.requests == requests
            &&& session.prepares@ == Map::<u8, Message<Prepare>>::empty()
            &&& replica.addr_book.lists_replicas(send.destinations@)
            &&& send.message@ == ToReplicaView::PrePrepare(
                session.pre_prepare.packet_view(),
                requests.deep_view(),
            )
            &&& send.sent == 0
        },
        Err(e) => e == Error::Encoding && !Vec::<Request>::encodable(requests.deep_view()),
    }
}

/// Proposes requests as the primary of a view: signs their order and sends it
/// to all replicas together with them.
pub fn primary_prepare_session(
    replica: &Replica,
    view_num: u32,
    op_num: u32,
    requests: Vec<Request>,
) -> (r: Result<(PrepareSession, SendToAll<ToReplica>), Error>)
    requires
        replica.num_replica > 0,
        replica.id == primary_of(view_num, replica.num_replica),
        replica.addr_book.enumerable(),
    ensures
        primary_starts(replica, view_num, op_num, requests, r),
{
    let requests_digest = match digest(&requests) {
        Ok(d) => d,
        Err(e) => return Err(e),
    };
    let pre_prepare = PrePrepare { view_num, op_num, digest: requests_digest };
    let pre_prepare = replica.signer.serialize_sign(pre_prepare).unwrap();
    let copies = copy_requests(&requests);
    let send = replica.send_to_all_replica(ToReplica::PrePrepare(pre_prepare.packet(), copies));
    let (session, _) = prepare_session(replica, pre_prepare, requests);
    Ok((session, send))
}

/// What comes of a proposal that a backup considers.
pub open spec fn backup_starts(
    replica: &Replica,
    view_num: u32,
    pre_prepare: Message<PrePrepare>,
    requests: Vec<Request>,
    r: Result<Option<(PrepareSession, Option<SendToAll<ToReplica>>)>, Error>,
) -> bool {
    let leader = primary_of(pre_prepare.inner.view_num, replica.num_replica);
    let valid = (pre_prepare.verified || is_authentic(replica, leader, pre_prepare))
        && pre_prepare.inner.view_num == view_num;
    let hash = sha256(Vec::<Request>::encoding(requests.deep_view()));
    match r {
        Ok(Some((session, send))) => {
            &&& valid
            &&& Vec::<Request>::encodable(requests.deep_view())
            &&& pre_prepare.inner.digest@ == hash
            &&& session.wf()
            &&& session.certified(replica)
            &&& session.counted(replica)
            &&& session.pre_prepare.inner == pre_prepare.inner
            &&& session.pre_prepare.packet_view() == pre_prepare.packet_view()
            &&& session.requests == requests
            &&& leader == replica.id ==> send is None && session.prepares@ == Map::<
                u8,
                Message<Prepare>,
            >::empty()
            &&& leader != replica.id ==> {
                &&& session.prepares@.dom() == set![replica.id]
                &&& session.prepares@[replica.id].in_sync()
                &&& session.prepares@[replica.id].is_signed_by(replica.signer)
                &&& send matches Some(send)
                &&& replica.addr_book.lists_replicas(send.destinations@)
                &&& send.message@ == ToReplicaView::Prepare(
                    session.prepares@[replica.id].packet_view(),
                )
                &&& send.sent == 0
            }
        },
        Ok(None) => !valid || (Vec::<Request>::encodable(requests.deep_view())
            && pre_prepare.inner.digest@ != hash),
        Err(e) => e == Error::Encoding && valid && !Vec::<Request>::encodable(
            requests.deep_view(),
        ),
    }
}

/// Considers a proposal as a backup. It is ignored unless it is signed by the
/// primary of its view, which is the current one, and holds the digest of the
/// requests.
pub fn backup_prepare_session(
    replica: &Replica,
    view_num: u32,
    pre_prepare: Message<PrePrepare>,
    requests: Vec<Request>,
) -> (r: Result<Option<(PrepareSession, Option<SendToAll<ToReplica>>)>, Error>)
    requires
        replica.num_replica > 0,
        primary_of(pre_prepare.inner.view_num, replica.num_replica) == replica.id
            || replica.addr_book.enumerable(),
        replica.verifiers@.contains_key(
            primary_of(pre_prepare.inner.view_num, replica.num_replica),
        ),
    ensures
        backup_starts(replica, view_num, pre_prepare, requests, r),
{
    let mut pre_prepare = pre_prepare;
    let leader: u8 = replica.primary(pre_prepare.inner.view_num);
    let valid = replica.verifiers.get(&leader).unwrap().verify(&mut pre_prepare).is_ok();
    if !valid || pre_prepare.inner.view_num != view_num {
        return Ok(None);
    }
    let requests_digest = match digest(&requests) {
        Ok(d) => d,
        Err(e) => return Err(e),
    };
    if !same_bytes(pre_prepare.inner.digest.as_slice(), requests_digest.as_slice()) {
        return Ok(None);
    }
    Ok(Some(prepare_session(replica, pre_prepare, requests)))
}

/// Safety of one view: when a correct primary proposes one digest only, and each
/// correct backup votes for one digest only, two sessions for the same operation
/// that gather quorums of backups prepare the same digest.
pub proof fn law_prepared_digest_is_unique(
    a: PrepareSession,
    b: PrepareSession,
    primary: u8,
    replicas: Set<u8>,
    faulty: Set<u8>,
    proposed: Seq<u8>,
    voted: Map<u8, Seq<u8>>,
    num_faulty: nat,
)
    requires
        a.wf(),
        b.wf(),
        replicas.finite(),
        replicas.contains(primary),
        replicas.len() <= 3 * num_faulty + 1,
        faulty.finite(),
        faulty.len() <= num_faulty,
        a.prepares@.dom().subset_of(replicas.remove(primary)),
        b.prepares@.dom().subset_of(replicas.remove(primary)),
        a.prepares@.len() >= 2 * num_faulty,
        b.prepares@.len() >= 2 * num_faulty,
        !faulty.contains(primary) ==> a.pre_prepare.inner.digest@ == proposed
            && b.pre_prepare.inner.digest@ == proposed,
        forall|id: u8| #[trigger]
            a.prepares@.contains_key(id) && !faulty.contains(id) ==> a.prepares@[id].inner.digest@
                == voted[id],
        forall|id: u8| #[trigger]
            b.prepares@.contains_key(id) && !faulty.contains(id) ==> b.prepares@[id].inner.digest@
                == voted[id],
    ensures
        a.pre_prepare.inner.digest@ == b.pre_prepare.inner.digest@,
{
    if faulty.contains(primary) {
        let backups = replicas.remove(primary);
        let (va, vb) = (a.prepares@.dom(), b.prepares@.dom());
        vstd::set_lib::lemma_len_subset(va, backups);
        vstd::set_lib::lemma_len_subset(vb, backups);
        let common = va.intersect(vb);
        let rest = vb.difference(va);
        assert(va + rest =~= va + vb);
        assert(rest + common =~= vb);
        vstd::set_lib::lemma_set_disjoint_lens(va, rest);
        vstd::set_lib::lemma_set_disjoint_lens(rest, common);
        vstd::set_lib::lemma_len_subset(va + vb, backups);
        let others = faulty.remove(primary);
        if common.subset_of(others) {
            vstd::set_lib::lemma_len_subset(common, others);
        }
        let id = choose|id: u8| common.contains(id) && !others.contains(id);
        assert(a.prepares@.contains_key(id));
        assert(b.prepares@.contains_key(id));
        assert(!faulty.contains(id));
        assert(a.prepares@[id].inner@ == prepare_for(a.pre_prepare.inner@, id));
        assert(b.prepares@[id].inner@ == prepare_for(b.pre_prepare.inner@, id));
    }
}

/// A copy of a batch.
pub fn copy_requests(requests: &Vec<Request>) -> (r: Vec<Request>)
    ensures
        r.deep_view() == requests.deep_view(),
{
    let mut r: Vec<Request> = Vec::new();
    let mut i: usize = 0;
    while i < requests.len()
        invariant
            i <= requests@.len(),
            r@.len() == i,
            forall|j: int| 0 <= j < i ==> (#[trigger] r@[j])@ == requests@[j]@,
        decreases requests@.len() - i,
    {
        r.push(requests[i].clone());
        i += 1;
    }
    assert(r.deep_view() =~= requests.deep_view());
    r
}

} // verus!
