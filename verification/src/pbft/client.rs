//! The sessions of a client: one operation at a time, each with the replies that
//! came in for it.

use std::collections::HashMap;

use vstd::prelude::*;

use crate::pbft::{Reply, ReplyView, Request};
use crate::replication::{primary, primary_of, Client};
use crate::transport::{SendTo, SendToAll};
use crate::wire::same_bytes;

verus! {

/// What a client carries from one operation to the next.
#[derive(Debug, Clone, Copy, PartialEq, Eq, Structural)]
pub struct ClientSession {
    pub request_num: u32,
    pub primary_replica: u8,
}

impl ClientSession {
    pub fn new() -> (r: Self)
        ensures
            r.request_num == 0,
            r.primary_replica == 0,
    {
        ClientSession { request_num: 0, primary_replica: 0 }
    }

    /// The request for the next operation. Requests are numbered from one.
    pub fn submit(&mut self, client: &Client, op: Vec<u8>) -> (r: Request)
        requires
            old(self).request_num < u32::MAX,
        ensures
            final(self).request_num == old(self).request_num + 1,
            final(self).primary_replica == old(self).primary_replica,
            r.client_id == client.id,
            r.request_num == final(self).request_num,
            r.op == op,
    {
        self.request_num += 1;
        Request { client_id: client.id, request_num: self.request_num, op }
    }
}

/// The replicas whose latest reply has a result.
pub open spec fn voters(votes: Map<u8, ReplyView>, result: Seq<u8>) -> Set<u8> {
    votes.dom().filter(|id: u8| votes[id].result == result)
}

/// A request that is waiting for enough replies.
#[derive(Debug)]
pub struct RequestSession {
    pub request: Request,
    pub replies: HashMap<u8, Reply>,
}

impl RequestSession {
    /// The latest reply of each replica.
    pub open spec fn votes(&self) -> Map<u8, ReplyView> {
        self.replies@.map_values(|reply: Reply| reply@)
    }

    /// Every reply is one to the request, under the replica that it names, and
    /// no result has more voters than there may be faulty replicas.
    pub open spec fn wf(&self, client: &Client) -> bool {
        &&& forall|id: u8| #[trigger]
            self.votes().contains_key(id) ==> self.votes()[id].request_num
                == self.request.request_num && self.votes()[id].replica_id == id
        &&& forall|result: Seq<u8>| #[trigger]
            voters(self.votes(), result).len() <= client.num_faulty
    }

    /// Starts with the request on its way to the replica that is thought to be
    /// the primary.
    pub fn start(client: &Client, request: Request, primary_replica: u8) -> (r: (
        Self,
        SendTo<Request>,
    ))
        requires
            client.addr_book.knows_replica(primary_replica),
        ensures
            r.0.wf(client),
            r.0.request == request,
            r.0.votes() == Map::<u8, ReplyView>::empty(),
            r.1.destination@ == client.addr_book.replica_view(primary_replica),
            r.1.message@ == request@,
    {
        let send = SendTo {
            destination: client.addr_book.replica_addr(primary_replica),
            message: request.clone(),
        };
        let session = RequestSession { request, replies: HashMap::new() };
        assert(session.votes() =~= Map::<u8, ReplyView>::empty());
        assert forall|result: Seq<u8>| #[trigger]
            voters(session.votes(), result).len() <= client.num_faulty by {
            assert(voters(session.votes(), result) =~= Set::<u8>::empty());
        }
        (session, send)
    }

    /// Sends the request to all replicas, after an interval without an outcome.
    pub fn retry(&self, client: &Client) -> (r: SendToAll<Request>)
        requires
            client.addr_book.enumerable(),
        ensures
            client.addr_book.lists_replicas(r.destinations@),
            r.message@ == self.request@,
            r.sent == 0,
    {
        SendToAll::new(client.addr_book.replica_addrs(), self.request.clone())
    }

    fn count_voters(&self, result: &Vec<u8>) -> (r: usize)
        ensures
            r == voters(self.votes(), result@).len(),
    {
        let total: usize = self.replies.len();
        let mut count: usize = 0;
        let ghost votes = self.votes();
        let ghost mut seen: Set<u8> = Set::empty();
        assert(votes.dom() =~= self.replies@.dom());
        assert(self.replies@.dom().finite());
        let ghost p = |id: u8| votes[id].result == result@;
        assert(seen.filter(p) =~= Set::<u8>::empty());
        for id in it: self.replies.keys()
            invariant
                it.seq().unref().to_set() == self.replies@.dom(),
                it.seq().no_duplicates(),
                votes == self.votes(),
                p == (|id: u8| votes[id].result == result@),
                seen == it.seq().unref().take(it.index() as int).to_set(),
                votes.dom().finite(),
                total == votes.dom().len(),
                seen.subset_of(votes.dom()),
                it.index() == it.seq().len() ==> seen == votes.dom(),
                count == seen.filter(p).len(),
        {
            assert(it.seq().unref().contains(*id));
            assert(!seen.contains(*id)) by {
                if seen.contains(*id) {
                    let prefix = it.seq().unref().take(it.index() as int);
                    let j = choose|j: int| 0 <= j < prefix.len() && prefix[j] == *id;
                    assert(*it.seq()[j] == *it.seq()[it.index() as int]);
                }
            }
            assert(it.seq().unref().take(it.index() + 1) =~= it.seq().unref().take(
                it.index() as int,
            ).push(*id));
            assert(it.seq().unref().take(it.index() + 1).to_set() =~= seen.insert(*id)) by {
                broadcast use vstd::seq_lib::group_seq_properties;

            }
            assert(it.index() + 1 == it.seq().len() ==> it.seq().unref().take(it.index() + 1)
                =~= it.seq().unref());
            let reply = self.replies.get(id).unwrap();
            assert(votes[*id] == reply@);
            if same_bytes(reply.result.as_slice(), result.as_slice()) {
                assert(seen.insert(*id).filter(p) =~= seen.filter(p).insert(*id));
                proof {
                    vstd::set_lib::lemma_len_subset(seen.filter(p).insert(*id), votes.dom());
                }
                count += 1;
            } else {
                assert(seen.insert(*id).filter(p) =~= seen.filter(p));
            }
            proof {
                seen = seen.insert(*id);
            }
        }
        count
    }

    /// Takes a reply in. Returns the result once one more replica than may be
    /// faulty has replied it, and turns to the primary of the replied view.
    ///
    /// Replies to earlier requests are ignored.
    pub fn on_reply(&mut self, client: &Client, reply: Reply, primary_replica: &mut u8) -> (r:
        Option<Vec<u8>>)
        requires
            old(self).wf(client),
            reply.request_num <= old(self).request.request_num,
            client.num_faulty < usize::MAX,
            client.num_replica > 0,
        ensures
            final(self).request == old(self).request,
            reply.request_num != old(self).request.request_num ==> {
                &&& final(self).votes() == old(self).votes()
                &&& r is None
            },
            reply.request_num == old(self).request.request_num ==> {
                &&& final(self).votes() == old(self).votes().insert(reply.replica_id, reply@)
                &&& r is Some <==> voters(final(self).votes(), reply.result@).len()
                    == client.num_faulty + 1
            },
            match r {
                Some(result) => {
                    &&& result@ == reply.result@
                    &&& *final(primary_replica) == primary_of(reply.view_num, client.num_replica)
                },
                None => final(self).wf(client) && *final(primary_replica) == *old(primary_replica),
            },
    {
        if reply.request_num != self.request.request_num {
            return None;
        }
        let ghost before = self.votes();
        assert(self.replies@.dom().finite());
        assert(before.dom() =~= self.replies@.dom());
        let view_num: u32 = reply.view_num;
        let result = reply.result.clone();
        let ghost id = reply.replica_id;
        let ghost v = reply@;
        self.replies.insert(reply.replica_id, reply);
        let ghost after = self.votes();
        assert(after =~= before.insert(id, v));
        if self.count_voters(&result) == client.num_faulty + 1 {
            *primary_replica = primary(view_num, client.num_replica);
            return Some(result);
        }
        assert forall|other: Seq<u8>| #[trigger] voters(after, other).len() <= client.num_faulty by {
            assert(voters(before, other).len() <= client.num_faulty);
            if other == result@ {
                assert(voters(after, other) =~= voters(before, other).insert(id));
            } else {
                assert(voters(after, other) =~= voters(before, other).remove(id));
            }
        }
        None
    }
}

/// An accepted result was replied by a correct replica: among the voters of a
/// result that are one more than the faulty replicas, one is not faulty.
pub proof fn law_accepted_result_is_correct(
    votes: Map<u8, ReplyView>,
    result: Seq<u8>,
    num_faulty: nat,
    faulty: Set<u8>,
)
    requires
        voters(votes, result).len() == num_faulty + 1,
        faulty.finite(),
        faulty.len() <= num_faulty,
    ensures
        exists|id: u8|
            votes.contains_key(id) && !faulty.contains(id) && #[trigger] votes[id].result == result,
{
    let ids = voters(votes, result);
    if ids.subset_of(faulty) {
        vstd::set_lib::lemma_len_subset(ids, faulty);
    }
    let id = choose|id: u8| ids.contains(id) && !faulty.contains(id);
    assert(votes[id].result == result);
}

/// With at most twice as many replies as there may be faulty replicas, plus one,
/// no two results have enough voters to be accepted.
pub proof fn law_accepted_result_is_unique(
    votes: Map<u8, ReplyView>,
    a: Seq<u8>,
    b: Seq<u8>,
    num_faulty: nat,
)
    requires
        votes.dom().finite(),
        votes.len() <= 2 * num_faulty + 1,
        voters(votes, a).len() == num_faulty + 1,
        voters(votes, b).len() == num_faulty + 1,
    ensures
        a == b,
{
    if a != b {
        let (va, vb) = (voters(votes, a), voters(votes, b));
        assert(va.disjoint(vb));
        vstd::set_lib::lemma_set_disjoint_lens(va, vb);
        assert((va + vb).subset_of(votes.dom()));
        vstd::set_lib::lemma_len_subset(va + vb, votes.dom());
    }
}

} // verus!
