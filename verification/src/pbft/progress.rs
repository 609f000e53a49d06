//! How a replica takes operations forward in their order, as far as their votes
//! are complete.

use std::collections::HashMap;

use vstd::prelude::*;

use crate::crypto::Message;
use crate::pbft::prepare::LogEntry;
use crate::pbft::quorum::{CommitStage, PrepareStage, QuorumState};
use crate::pbft::view::{is_committed, is_noted, is_prepared, ViewState};
use crate::pbft::{Commit, Request, RequestView};

verus! {

/// The requests of the operations in a log after one and up to another, in their
/// order.
pub open spec fn logged_requests(log: Map<u32, LogEntry>, from: int, to: int) -> Seq<RequestView>
    decreases to - from,
{
    if to <= from {
        Seq::empty()
    } else {
        logged_requests(log, from, to - 1) + log[to as u32].requests.deep_view()
    }
}

impl ViewState {
    /// The entry that is to be taken into the log next, if its votes are complete.
    pub open spec fn next_prepared(&self, quorums: Map<u32, QuorumState>) -> Option<LogEntry> {
        let op = (self.prepare_op + 1) as u32;
        if self.prepare_op < u32::MAX && self.quorum_states@.contains_key(op)
            && quorums.contains_key(op) {
            match quorums[op].prepare {
                PrepareStage::Prepared(entry) => Some(entry),
                _ => None,
            }
        } else {
            None
        }
    }

    /// The votes that commit the next operation in the log, if they are complete.
    pub open spec fn next_committed(&self, quorums: Map<u32, QuorumState>) -> Option<
        HashMap<u8, Message<Commit>>,
    > {
        let op = (self.commit_op + 1) as u32;
        if self.commit_op < self.prepare_op && self.quorum_states@.contains_key(op)
            && quorums.contains_key(op) {
            match quorums[op].commit {
                CommitStage::Voting(session) if session.is_quorum(&self.replica) => Some(
                    session.commits,
                ),
                _ => None,
            }
        } else {
            None
        }
    }

    /// The sessions are those of their operations. A primary knows the requests of
    /// the operation that it takes into the log next.
    pub open spec fn can_advance(&self, quorums: Map<u32, QuorumState>) -> bool {
        &&& self.wf()
        &&& forall|op: u32| #[trigger]
            quorums.contains_key(op) ==> quorums[op].wf(&self.replica) && quorums[op].op_num == op
        &&& self.leads() ==> (self.next_prepared(quorums) matches Some(entry) ==> forall|i: int|
            0 <= i < entry.requests@.len() ==> is_noted(
                self.entries(),
                #[trigger] entry.requests@[i]@,
            ))
    }

    /// Whether one step was taken: the next operation came into the log, or else
    /// the next one in the log was committed and its requests handed out.
    pub open spec fn steps_to(
        &self,
        quorums: Map<u32, QuorumState>,
        after: ViewState,
        left: Map<u32, QuorumState>,
        requests: Seq<RequestView>,
    ) -> bool {
        match self.next_prepared(quorums) {
            Some(entry) => {
                &&& is_prepared(*self, entry, after)
                &&& left == quorums.insert(
                    after.prepare_op,
                    (QuorumState { prepare: PrepareStage::Taken, ..quorums[after.prepare_op] }),
                )
                &&& requests == Seq::<RequestView>::empty()
            },
            None => {
                &&& self.next_committed(quorums) matches Some(commits)
                &&& is_committed(*self, commits, after, requests)
                &&& left == quorums.insert(
                    after.commit_op,
                    (QuorumState { commit: CommitStage::Taken, ..quorums[after.commit_op] }),
                )
            },
        }
    }

    /// Whether a number of steps were taken, which handed requests out in turn.
    pub open spec fn goes_to(
        &self,
        quorums: Map<u32, QuorumState>,
        after: ViewState,
        left: Map<u32, QuorumState>,
        requests: Seq<RequestView>,
        n: nat,
    ) -> bool
        decreases n,
    {
        if n == 0 {
            after == *self && left == quorums && requests == Seq::<RequestView>::empty()
        } else {
            exists|middle: ViewState, between: Map<u32, QuorumState>, last: Seq<RequestView>|
                {
                    &&& #[trigger] middle.steps_to(between, after, left, last)
                    &&& last.len() <= requests.len()
                    &&& requests.skip(requests.len() - last.len()) == last
                    &&& self.goes_to(
                        quorums,
                        middle,
                        between,
                        requests.take(requests.len() - last.len()),
                        (n - 1) as nat,
                    )
                }
        }
    }

    /// Takes one step, if the votes for one are complete. Returns the requests that
    /// are to be executed.
    pub fn advance_once(&mut self, quorums: &mut HashMap<u32, QuorumState>) -> (r: Option<
        Vec<Request>,
    >)
        requires
            old(self).can_advance(old(quorums)@),
        ensures
            final(self).can_advance(final(quorums)@),
            match r {
                Some(requests) => old(self).steps_to(
                    old(quorums)@,
                    *final(self),
                    final(quorums)@,
                    requests.deep_view(),
                ),
                None => {
                    &&& *final(self) == *old(self)
                    &&& final(quorums)@ == old(quorums)@
                    &&& old(self).next_prepared(old(quorums)@) is None
                    &&& old(self).next_committed(old(quorums)@) is None
                },
            },
    {
        let ghost before = quorums@;
        if self.prepare_op < u32::MAX {
            let op: u32 = self.prepare_op + 1;
            if self.quorum_states.contains_key(&op) {
                if let Some(quorum) = quorums.remove(&op) {
                    let mut quorum = quorum;
                    let taken = quorum.take_prepared();
                    quorums.insert(op, quorum);
                    if let Some(entry) = taken {
                        self.on_prepare_quorum(entry);
                        let requests: Vec<Request> = Vec::new();
                        assert(requests.deep_view() =~= Seq::<RequestView>::empty());
                        assert(quorums@ =~= before.insert(
                            op,
                            (QuorumState { prepare: PrepareStage::Taken, ..before[op] }),
                        ));
                        return Some(requests);
                    }
                    assert(quorums@ =~= before);
                }
            }
        }
        if self.commit_op < self.prepare_op {
            let op: u32 = self.commit_op + 1;
            if self.quorum_states.contains_key(&op) {
                if let Some(quorum) = quorums.remove(&op) {
                    let mut quorum = quorum;
                    let taken = quorum.take_committed(&self.replica);
                    quorums.insert(op, quorum);
                    if let Some(commits) = taken {
                        assert(quorums@ =~= before.insert(
                            op,
                            (QuorumState { commit: CommitStage::Taken, ..before[op] }),
                        ));
                        return Some(self.on_commit_quorum(commits));
                    }
                    assert(quorums@ =~= before);
                }
            }
        }
        None
    }

    /// Takes the next operations forward as far as their votes are complete.
    /// Returns the requests of those that were committed, which are to be executed
    /// in this order.
    pub fn advance(&mut self, quorums: &mut HashMap<u32, QuorumState>) -> (r: Vec<Request>)
        requires
            old(self).can_advance(old(quorums)@),
        ensures
            final(self).can_advance(final(quorums)@),
            final(self).next_prepared(final(quorums)@) is None,
            final(self).next_committed(final(quorums)@) is None,
            exists|n: nat| #[trigger]
                old(self).goes_to(
                    old(quorums)@,
                    *final(self),
                    final(quorums)@,
                    r.deep_view(),
                    n,
                ),
            final(self).commit_op >= old(self).commit_op,
            r.deep_view() == logged_requests(
                final(self).log_entries@,
                old(self).commit_op as int,
                final(self).commit_op as int,
            ),
    {
        let mut r: Vec<Request> = Vec::new();
        let ghost mut n: nat = 0;
        assert(r.deep_view() =~= Seq::<RequestView>::empty());
        loop
            invariant
                self.can_advance(quorums@),
                old(self).goes_to(old(quorums)@, *self, quorums@, r.deep_view(), n),
                self.commit_op >= old(self).commit_op,
                r.deep_view() == logged_requests(
                    self.log_entries@,
                    old(self).commit_op as int,
                    self.commit_op as int,
                ),
            ensures
                self.next_prepared(quorums@) is None,
                self.next_committed(quorums@) is None,
            decreases 2 * u32::MAX - self.prepare_op - self.commit_op,
        {
            let ghost (view, between, done) = (*self, quorums@, r.deep_view());
            match self.advance_once(quorums) {
                Some(requests) => {
                    let mut requests = requests;
                    let ghost last = requests.deep_view();
                    r.append(&mut requests);
                    proof {
                        let all = r.deep_view();
                        assert(all =~= done + last);
                        assert(all.skip(all.len() - last.len()) =~= last);
                        assert(all.take(all.len() - last.len()) =~= done);
                        assert(view.steps_to(between, *self, quorums@, last));
                        n = n + 1;
                        lemma_logged_requests(
                            view.log_entries@,
                            self.log_entries@,
                            old(self).commit_op as int,
                            view.commit_op as int,
                        );
                    }
                },
                None => {
                    break;
                },
            }
        }
        r
    }
}

proof fn lemma_logged_requests(
    log: Map<u32, LogEntry>,
    other: Map<u32, LogEntry>,
    from: int,
    to: int,
)
    requires
        0 <= from,
        to <= u32::MAX,
        forall|op: u32|
            from < op <= to ==> (#[trigger] log[op]).requests.deep_view()
                == other[op].requests.deep_view(),
    ensures
        logged_requests(log, from, to) == logged_requests(other, from, to),
    decreases to - from,
{
    if from < to {
        lemma_logged_requests(log, other, from, to - 1);
        assert(log[to as u32].requests.deep_view() == other[to as u32].requests.deep_view());
    }
}

} // verus!
