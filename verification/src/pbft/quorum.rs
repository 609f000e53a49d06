//! The sessions of one operation, from its proposal to its commitment. What comes
//! before the session that it is for waits. What comes after it finds nobody who
//! takes it in, which is an error.

use std::collections::HashMap;

use vstd::prelude::*;

use crate::crypto::Message;
use crate::error::Error;
use crate::pbft::commit::{commit_session, commit_starts, is_commit_vote, CommitSession};
use crate::pbft::prepare::{
    backup_prepare_session, backup_starts, is_vote, num_prepares, primary_prepare_session,
    primary_starts, LogEntry, PrepareSession,
};
use crate::pbft::{Commit, PrePrepare, Prepare, Request, ToReplica};
use crate::replication::{primary_of, Replica};
use crate::transport::SendToAll;

verus! {

/// How far the votes for an order are: they wait for a proposal, they are
/// gathered, they are complete and their entry waits for its turn in the log, or
/// it is there.
#[derive(Debug)]
pub enum PrepareStage {
    Waiting(Vec<Message<Prepare>>),
    Voting(PrepareSession),
    Prepared(LogEntry),
    Taken,
}

/// How far the votes to commit are: they wait for the order, they are gathered,
/// or they are with their entry.
#[derive(Debug)]
pub enum CommitStage {
    Waiting(Vec<Message<Commit>>),
    Voting(CommitSession),
    Taken,
}

/// The sessions of one operation.
#[derive(Debug)]
pub struct QuorumState {
    pub view_num: u32,
    pub op_num: u32,
    pub prepare: PrepareStage,
    pub commit: CommitStage,
}

/// Whether an entry for the log is what a session with a quorum ends with.
pub open spec fn is_entry_of(entry: LogEntry, session: PrepareSession) -> bool {
    &&& entry.requests == session.requests
    &&& entry.pre_prepare == session.pre_prepare
    &&& entry.prepares == session.prepares
    &&& entry.commits@ == Map::<u8, Message<Commit>>::empty()
}

/// Whether an entry was prepared by just as many votes as are needed.
pub open spec fn is_prepared_entry(replica: &Replica, entry: LogEntry) -> bool {
    entry.prepares@.len() == num_prepares(replica, entry.pre_prepare.inner.view_num)
}

impl QuorumState {
    /// The votes are about the operation. Votes to commit are gathered as soon
    /// as the order has its quorum.
    pub open spec fn wf(&self, replica: &Replica) -> bool {
        &&& match self.prepare {
            PrepareStage::Waiting(prepares) => self.commit is Waiting && forall|i: int|
                0 <= i < prepares@.len() ==> is_vote(replica, self.op_num, #[trigger] prepares@[i]),
            PrepareStage::Voting(session) => {
                &&& self.commit is Waiting
                &&& session.wf()
                &&& session.certified(replica)
                &&& session.counted(replica)
                &&& !session.is_quorum(replica)
                &&& session.pre_prepare.inner.op_num == self.op_num
            },
            PrepareStage::Prepared(entry) => {
                &&& !(self.commit is Waiting)
                &&& is_prepared_entry(replica, entry)
                &&& entry.pre_prepare.inner.op_num == self.op_num
            },
            PrepareStage::Taken => !(self.commit is Waiting),
        }
        &&& match self.commit {
            CommitStage::Waiting(commits) => forall|i: int|
                0 <= i < commits@.len() ==> is_commit_vote(
                    replica,
                    self.op_num,
                    #[trigger] commits@[i],
                ),
            CommitStage::Voting(session) => {
                &&& session.wf()
                &&& session.certified(replica)
                &&& session.counted(replica)
                &&& session.view_num == self.view_num
                &&& session.op_num == self.op_num
            },
            CommitStage::Taken => true,
        }
    }

    /// Nothing has come yet.
    pub fn new(view_num: u32, op_num: u32) -> (r: Self)
        ensures
            r.view_num == view_num,
            r.op_num == op_num,
            r.prepare matches PrepareStage::Waiting(prepares) && prepares@.len() == 0,
            r.commit matches CommitStage::Waiting(commits) && commits@.len() == 0,
            forall|replica: &Replica| #[trigger] r.wf(replica),
    {
        QuorumState {
            view_num,
            op_num,
            prepare: PrepareStage::Waiting(Vec::new()),
            commit: CommitStage::Waiting(Vec::new()),
        }
    }

    /// Whether votes for an order lead to stages, given the votes to commit that
    /// wait: as soon as there is a quorum the entry for the log is there, and
    /// the vote to commit is cast and sent to all replicas.
    pub open spec fn reaches(
        &self,
        replica: &Replica,
        session: PrepareSession,
        early: Seq<Message<Commit>>,
        send: Option<SendToAll<ToReplica>>,
    ) -> bool {
        if session.is_quorum(replica) {
            &&& self.prepare matches PrepareStage::Prepared(entry)
            &&& is_entry_of(entry, session)
            &&& self.commit matches CommitStage::Voting(votes)
            &&& send matches Some(send)
            &&& exists|start: CommitSession|
                {
                    &&& commit_starts(
                        replica,
                        self.view_num,
                        self.op_num,
                        session.pre_prepare.inner.digest,
                        (start, send),
                    )
                    &&& #[trigger] CommitSession::takes_all(start, replica, early, votes)
                }
        } else {
            &&& self.prepare == PrepareStage::Voting(session)
            &&& self.commit matches CommitStage::Waiting(commits)
            &&& commits@ == early
            &&& send is None
        }
    }

    /// Whether a session that has started leads here from waiting votes, which it
    /// takes in first.
    pub open spec fn goes_on(
        &self,
        before: QuorumState,
        replica: &Replica,
        start: PrepareSession,
        send: Option<SendToAll<ToReplica>>,
    ) -> bool {
        exists|session: PrepareSession|
            #[trigger] PrepareSession::takes_all(
                start,
                replica,
                before.prepare->Waiting_0@,
                session,
            ) && self.reaches(replica, session, before.commit->Waiting_0@, send)
    }

    /// Whether a proposal of requests leads here.
    pub open spec fn is_proposed(
        &self,
        before: QuorumState,
        replica: &Replica,
        requests: Vec<Request>,
        r: Result<(SendToAll<ToReplica>, Option<SendToAll<ToReplica>>), Error>,
    ) -> bool {
        exists|outcome: Result<(PrepareSession, SendToAll<ToReplica>), Error>|
            #[trigger] primary_starts(replica, before.view_num, before.op_num, requests, outcome)
                && match outcome {
                Ok((start, send)) => {
                    &&& r matches Ok((sent, commit))
                    &&& sent == send
                    &&& self.goes_on(before, replica, start, commit)
                },
                Err(e) => r == Err::<
                    (SendToAll<ToReplica>, Option<SendToAll<ToReplica>>),
                    Error,
                >(e) && *self == before,
            }
    }

    /// Whether a proposal that a backup considers leads here.
    pub open spec fn is_considered(
        &self,
        before: QuorumState,
        replica: &Replica,
        pre_prepare: Message<PrePrepare>,
        requests: Vec<Request>,
        r: Result<(Option<SendToAll<ToReplica>>, Option<SendToAll<ToReplica>>), Error>,
    ) -> bool {
        exists|outcome: Result<Option<(PrepareSession, Option<SendToAll<ToReplica>>)>, Error>|
            #[trigger] backup_starts(replica, before.view_num, pre_prepare, requests, outcome)
                && match outcome {
                Ok(Some((start, send))) => {
                    &&& r matches Ok((sent, commit))
                    &&& sent == send
                    &&& self.goes_on(before, replica, start, commit)
                },
                Ok(None) => r is Ok && r.unwrap() == (
                    None::<SendToAll<ToReplica>>,
                    None::<SendToAll<ToReplica>>,
                ) && *self == before,
                Err(e) => r == Err::<
                    (Option<SendToAll<ToReplica>>, Option<SendToAll<ToReplica>>),
                    Error,
                >(e) && *self == before,
            }
    }

    /// Whether a vote for the order that is voted on leads here.
    pub open spec fn is_voted(
        &self,
        before: QuorumState,
        replica: &Replica,
        prepare: Message<Prepare>,
        r: Result<Option<SendToAll<ToReplica>>, Error>,
    ) -> bool {
        exists|after: PrepareSession|
            #[trigger] PrepareSession::takes(before.prepare->Voting_0, replica, prepare, after)
                && r is Ok && self.reaches(
                replica,
                after,
                before.commit->Waiting_0@,
                r.unwrap(),
            )
    }

    /// Goes on from votes for the order as far as they allow.
    fn go_on(&mut self, replica: &Replica, session: PrepareSession) -> (r: Option<
        SendToAll<ToReplica>,
    >)
        requires
            old(self).wf(replica),
            old(self).prepare is Waiting,
            session.wf(),
            session.certified(replica),
            session.counted(replica),
            session.pre_prepare.inner.op_num == old(self).op_num,
            replica.addr_book.enumerable(),
        ensures
            final(self).wf(replica),
            final(self).view_num == old(self).view_num,
            final(self).op_num == old(self).op_num,
            final(self).reaches(replica, session, old(self).commit->Waiting_0@, r),
    {
        if !session.ready(replica) {
            self.prepare = PrepareStage::Voting(session);
            return None;
        }
        let ghost voted = session;
        let (entry, digest) = session.finish(replica);
        let mut commit = CommitStage::Taken;
        core::mem::swap(&mut commit, &mut self.commit);
        let (mut votes, send) = commit_session(replica, self.view_num, self.op_num, digest);
        let ghost start = votes;
        if let CommitStage::Waiting(early) = commit {
            votes.on_commits(replica, early);
        }
        self.prepare = PrepareStage::Prepared(entry);
        self.commit = CommitStage::Voting(votes);
        proof {
            assert(CommitSession::takes_all(start, replica, old(self).commit->Waiting_0@, votes));
        }
        Some(send)
    }

    /// Starts a session with the votes that wait for it.
    fn start(&mut self, replica: &Replica, session: PrepareSession) -> (r: Option<
        SendToAll<ToReplica>,
    >)
        requires
            old(self).wf(replica),
            old(self).prepare is Waiting,
            session.wf(),
            session.certified(replica),
            session.counted(replica),
            session.pre_prepare.inner.op_num == old(self).op_num,
            replica.addr_book.enumerable(),
        ensures
            final(self).wf(replica),
            final(self).view_num == old(self).view_num,
            final(self).op_num == old(self).op_num,
            final(self).goes_on(*old(self), replica, session, r),
    {
        let ghost first = session;
        let mut session = session;
        let mut stage = PrepareStage::Waiting(Vec::new());
        core::mem::swap(&mut stage, &mut self.prepare);
        if let PrepareStage::Waiting(early) = stage {
            session.on_prepares(replica, early);
        }
        assert(PrepareSession::takes_all(
            first,
            replica,
            old(self).prepare->Waiting_0@,
            session,
        ));
        self.go_on(replica, session)
    }

    /// Proposes requests as the primary. Returns what is sent to all replicas:
    /// the proposal, and the vote to commit if it needs no others.
    pub fn propose(&mut self, replica: &Replica, requests: Vec<Request>) -> (r: Result<
        (SendToAll<ToReplica>, Option<SendToAll<ToReplica>>),
        Error,
    >)
        requires
            old(self).wf(replica),
            old(self).prepare is Waiting,
            replica.num_replica > 0,
            replica.id == primary_of(old(self).view_num, replica.num_replica),
            replica.addr_book.enumerable(),
        ensures
            final(self).wf(replica),
            final(self).view_num == old(self).view_num,
            final(self).op_num == old(self).op_num,
            final(self).is_proposed(*old(self), replica, requests, r),
    {
        let outcome = primary_prepare_session(replica, self.view_num, self.op_num, requests);
        assert(primary_starts(replica, self.view_num, self.op_num, requests, outcome));
        match outcome {
            Ok((session, send)) => {
                let commit = self.start(replica, session);
                Ok((send, commit))
            },
            Err(e) => Err(e),
        }
    }

    /// Considers a proposal as a backup. It is ignored while one is voted on, and
    /// an error after that. Returns what is sent to all replicas: the own vote for
    /// the order, and the one to commit if there is a quorum with the votes that
    /// came before.
    pub fn on_pre_prepare(
        &mut self,
        replica: &Replica,
        pre_prepare: Message<PrePrepare>,
        requests: Vec<Request>,
    ) -> (r: Result<(Option<SendToAll<ToReplica>>, Option<SendToAll<ToReplica>>), Error>)
        requires
            old(self).wf(replica),
            pre_prepare.inner.op_num == old(self).op_num,
            replica.num_replica > 0,
            replica.addr_book.enumerable(),
            replica.verifiers@.contains_key(
                primary_of(pre_prepare.inner.view_num, replica.num_replica),
            ),
        ensures
            final(self).wf(replica),
            final(self).view_num == old(self).view_num,
            final(self).op_num == old(self).op_num,
            if old(self).prepare is Prepared || old(self).prepare is Taken {
                r == Err::<
                    (Option<SendToAll<ToReplica>>, Option<SendToAll<ToReplica>>),
                    Error,
                >(Error::ChannelClosed) && *final(self) == *old(self)
            } else if old(self).prepare is Waiting {
                final(self).is_considered(*old(self), replica, pre_prepare, requests, r)
            } else {
                r is Ok && r.unwrap() == (
                    None::<SendToAll<ToReplica>>,
                    None::<SendToAll<ToReplica>>,
                ) && *final(self) == *old(self)
            },
    {
        let (waits, votes) = match &self.prepare {
            PrepareStage::Waiting(_) => (true, false),
            PrepareStage::Voting(_) => (false, true),
            _ => (false, false),
        };
        if waits {
            let outcome = backup_prepare_session(replica, self.view_num, pre_prepare, requests);
            assert(backup_starts(replica, self.view_num, pre_prepare, requests, outcome));
            match outcome {
                Ok(Some((session, send))) => {
                    let commit = self.start(replica, session);
                    Ok((send, commit))
                },
                Ok(None) => Ok((None, None)),
                Err(e) => Err(e),
            }
        } else if votes {
            Ok((None, None))
        } else {
            Err(Error::ChannelClosed)
        }
    }

    /// Takes a vote for the order in. It waits if there is no proposal yet, and
    /// is an error after a quorum. Returns the vote to commit, if it is cast now.
    pub fn on_prepare(&mut self, replica: &Replica, prepare: Message<Prepare>) -> (r: Result<
        Option<SendToAll<ToReplica>>,
        Error,
    >)
        requires
            old(self).wf(replica),
            is_vote(replica, old(self).op_num, prepare),
            replica.addr_book.enumerable(),
        ensures
            final(self).wf(replica),
            final(self).view_num == old(self).view_num,
            final(self).op_num == old(self).op_num,
            match old(self).prepare {
                PrepareStage::Waiting(prepares) => {
                    &&& r matches Ok(None)
                    &&& final(self).commit == old(self).commit
                    &&& final(self).prepare matches PrepareStage::Waiting(after)
                    &&& after@ == prepares@.push(prepare)
                },
                PrepareStage::Voting(_) => final(self).is_voted(*old(self), replica, prepare, r),
                _ => r == Err::<Option<SendToAll<ToReplica>>, Error>(Error::ChannelClosed)
                    && *final(self) == *old(self),
            },
    {
        let mut stage = PrepareStage::Waiting(Vec::new());
        core::mem::swap(&mut stage, &mut self.prepare);
        match stage {
            PrepareStage::Waiting(prepares) => {
                let mut prepares = prepares;
                prepares.push(prepare);
                self.prepare = PrepareStage::Waiting(prepares);
                Ok(None)
            },
            PrepareStage::Voting(session) => {
                let mut session = session;
                let ghost before = session;
                session.on_prepare(replica, prepare);
                assert(PrepareSession::takes(before, replica, prepare, session));
                Ok(self.go_on(replica, session))
            },
            other => {
                self.prepare = other;
                Err(Error::ChannelClosed)
            },
        }
    }

    /// Takes a vote to commit in. It waits if the order has no quorum yet, and is
    /// an error after a quorum.
    pub fn on_commit(&mut self, replica: &Replica, commit: Message<Commit>) -> (r: Result<
        (),
        Error,
    >)
        requires
            old(self).wf(replica),
            is_commit_vote(replica, old(self).op_num, commit),
        ensures
            final(self).wf(replica),
            final(self).view_num == old(self).view_num,
            final(self).op_num == old(self).op_num,
            final(self).prepare == old(self).prepare,
            match old(self).commit {
                CommitStage::Waiting(commits) => {
                    &&& r == Ok::<(), Error>(())
                    &&& final(self).commit matches CommitStage::Waiting(after)
                    &&& after@ == commits@.push(commit)
                },
                CommitStage::Voting(session) if !session.is_quorum(replica) => {
                    &&& r == Ok::<(), Error>(())
                    &&& final(self).commit matches CommitStage::Voting(after)
                    &&& CommitSession::takes(session, replica, commit, after)
                },
                _ => r == Err::<(), Error>(Error::ChannelClosed) && *final(self) == *old(self),
            },
    {
        let ended = match &self.commit {
            CommitStage::Waiting(_) => false,
            CommitStage::Voting(session) => session.ready(replica),
            CommitStage::Taken => true,
        };
        if ended {
            return Err(Error::ChannelClosed);
        }
        let mut stage = CommitStage::Taken;
        core::mem::swap(&mut stage, &mut self.commit);
        self.commit = match stage {
            CommitStage::Waiting(commits) => {
                let mut commits = commits;
                commits.push(commit);
                CommitStage::Waiting(commits)
            },
            CommitStage::Voting(session) => {
                let mut session = session;
                session.on_commit(replica, commit);
                CommitStage::Voting(session)
            },
            CommitStage::Taken => CommitStage::Taken,
        };
        Ok(())
    }

    /// Takes the entry of a prepared operation for the log, once.
    pub fn take_prepared(&mut self) -> (r: Option<LogEntry>)
        ensures
            forall|replica: &Replica|
                old(self).wf(replica) ==> #[trigger] final(self).wf(replica) && (
                r matches Some(entry) ==> is_prepared_entry(replica, entry)),
            final(self).view_num == old(self).view_num,
            final(self).op_num == old(self).op_num,
            final(self).commit == old(self).commit,
            match old(self).prepare {
                PrepareStage::Prepared(entry) => r == Some(entry) && final(self).prepare is Taken,
                _ => r is None && final(self).prepare == old(self).prepare,
            },
    {
        let mut stage = PrepareStage::Taken;
        core::mem::swap(&mut stage, &mut self.prepare);
        match stage {
            PrepareStage::Prepared(entry) => Some(entry),
            other => {
                self.prepare = other;
                None
            },
        }
    }

    /// Takes the votes that committed the operation, once there is a quorum.
    pub fn take_committed(&mut self, replica: &Replica) -> (r: Option<
        HashMap<u8, Message<Commit>>,
    >)
        requires
            old(self).wf(replica),
        ensures
            final(self).wf(replica),
            final(self).view_num == old(self).view_num,
            final(self).op_num == old(self).op_num,
            final(self).prepare == old(self).prepare,
            match old(self).commit {
                CommitStage::Voting(session) if session.is_quorum(replica) => {
                    &&& r == Some(session.commits)
                    &&& session.commits@.len() == 2 * replica.num_faulty + 1
                    &&& final(self).commit is Taken
                },
                _ => r is None && final(self).commit == old(self).commit,
            },
    {
        let ready = match &self.commit {
            CommitStage::Voting(session) => session.ready(replica),
            _ => false,
        };
        if !ready {
            return None;
        }
        let mut stage = CommitStage::Taken;
        core::mem::swap(&mut stage, &mut self.commit);
        match stage {
            CommitStage::Voting(session) => Some(session.finish(replica)),
            _ => None,
        }
    }
}

/// A vote for the order counts the same whether it came before the proposal and
/// waited, or comes once the votes before it were taken in.
pub proof fn law_early_vote_counts_as_late(
    start: PrepareSession,
    replica: &Replica,
    early: Seq<Message<Prepare>>,
    middle: PrepareSession,
    prepare: Message<Prepare>,
    after: PrepareSession,
)
    requires
        PrepareSession::takes_all(start, replica, early, middle),
        PrepareSession::takes(middle, replica, prepare, after),
    ensures
        PrepareSession::takes_all(start, replica, early.push(prepare), after),
{
    let all = early.push(prepare);
    assert(all.drop_last() =~= early);
    assert(PrepareSession::takes(middle, replica, all.last(), after));
}

/// Once an order has its quorum, more votes for it change nothing.
pub proof fn law_votes_beyond_a_quorum_change_nothing(
    before: PrepareSession,
    replica: &Replica,
    prepares: Seq<Message<Prepare>>,
    after: PrepareSession,
)
    requires
        before.is_quorum(replica),
        PrepareSession::takes_all(before, replica, prepares, after),
    ensures
        after.pre_prepare == before.pre_prepare,
        after.requests == before.requests,
        after.prepares@ == before.prepares@,
    decreases prepares.len(),
{
    if prepares.len() > 0 {
        let middle = choose|middle: PrepareSession|
            PrepareSession::takes_all(before, replica, prepares.drop_last(), middle)
                && #[trigger] PrepareSession::takes(middle, replica, prepares.last(), after);
        law_votes_beyond_a_quorum_change_nothing(before, replica, prepares.drop_last(), middle);
    }
}

} // verus!
