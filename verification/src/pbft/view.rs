//! One view of a replica: which requests it takes in, which operations are
//! proposed, prepared and committed, and what is owed to clients.

use std::collections::HashMap;
use std::sync::Arc;

use vstd::prelude::*;

use crate::crypto::Message;
use crate::error::Error;
use crate::pbft::prepare::{copy_requests, LogEntry};
use crate::pbft::{
    Commit, PrePrepare, Prepare, ReplicaEvent, Reply, ReplyView, Request, RequestView, ToReplica,
};
use crate::replication::{primary_of, Replica};
use crate::transport::SendTo;
use crate::wire::decodes;

verus! {

/// The latest request of a client, and how far it is.
#[derive(Debug, PartialEq, Eq)]
pub enum ClientEntry {
    Committing(u32),
    Committed(Reply),
}

pub ghost enum ClientEntryView {
    Committing(u32),
    Committed(ReplyView),
}

impl View for ClientEntry {
    type V = ClientEntryView;

    open spec fn view(&self) -> ClientEntryView {
        match self {
            ClientEntry::Committing(request_num) => ClientEntryView::Committing(*request_num),
            ClientEntry::Committed(reply) => ClientEntryView::Committed(reply@),
        }
    }
}

/// Whether a request is to be ignored: an equal or later one of its client is on
/// its way, or a later one is done.
pub open spec fn is_stale(entries: Map<u32, ClientEntryView>, request: RequestView) -> bool {
    entries.contains_key(request.client_id) && match entries[request.client_id] {
        ClientEntryView::Committing(request_num) => request_num >= request.request_num,
        ClientEntryView::Committed(reply) => reply.request_num > request.request_num,
    }
}

/// The entries after requests are noted as on their way, one after the other.
pub open spec fn note_all(entries: Map<u32, ClientEntryView>, requests: Seq<RequestView>) -> Map<
    u32,
    ClientEntryView,
>
    decreases requests.len(),
{
    if requests.len() == 0 {
        entries
    } else {
        note_all(entries, requests.drop_last()).insert(
            requests.last().client_id,
            ClientEntryView::Committing(requests.last().request_num),
        )
    }
}

/// The number of the last request of a client in a batch.
pub open spec fn last_request(requests: Seq<RequestView>, client_id: u32) -> Option<u32>
    decreases requests.len(),
{
    if requests.len() == 0 {
        None
    } else if requests.last().client_id == client_id {
        Some(requests.last().request_num)
    } else {
        last_request(requests.drop_last(), client_id)
    }
}

/// Whether the next prepared operation was taken into the log of a replica.
pub open spec fn is_prepared(before: ViewState, entry: LogEntry, after: ViewState) -> bool {
    &&& after == (ViewState {
        prepare_op: after.prepare_op,
        client_entries: after.client_entries,
        log_entries: after.log_entries,
        ..before
    })
    &&& after.prepare_op == before.prepare_op + 1
    &&& after.log_entries@ == before.log_entries@.insert(after.prepare_op, entry)
    &&& after.entries() == if before.leads() {
        before.entries()
    } else {
        note_all(before.entries(), entry.requests.deep_view())
    }
}

/// Whether the next operation in the log of a replica was committed by votes, and
/// its requests were handed out.
pub open spec fn is_committed(
    before: ViewState,
    commits: HashMap<u8, Message<Commit>>,
    after: ViewState,
    requests: Seq<RequestView>,
) -> bool {
    let entry = before.log_entries@[after.commit_op];
    &&& after == (ViewState {
        commit_op: after.commit_op,
        permits: after.permits,
        log_entries: after.log_entries,
        ..before
    })
    &&& after.commit_op == before.commit_op + 1
    &&& after.permits == before.permits + if before.leads() {
        1int
    } else {
        0int
    }
    &&& after.log_entries@ == before.log_entries@.insert(
        after.commit_op,
        (LogEntry { commits, ..entry }),
    )
    &&& requests == entry.requests.deep_view()
}

/// Whether a request is the one that its client is waiting for.
pub open spec fn is_noted(entries: Map<u32, ClientEntryView>, request: RequestView) -> bool {
    entries.contains_key(request.client_id) && entries[request.client_id]
        == ClientEntryView::Committing(request.request_num)
}

/// What is to be done about an event. The flag of a message for a session says
/// whether the sessions of its operation have to be started first.
#[derive(Debug)]
pub enum Action {
    Nothing,
    Batch(Request),
    PrePrepare(bool, Message<PrePrepare>, Vec<Request>),
    Prepare(bool, Message<Prepare>),
    Commit(bool, Message<Commit>),
    Reply(SendTo<Reply>),
}

/// The state of a replica in one view.
///
/// Operations are numbered from one. For each one that has sessions,
/// `quorum_states` says whether they wait for a proposal from the primary.
#[derive(Debug)]
pub struct ViewState {
    pub replica: Arc<Replica>,
    pub view_num: u32,
    pub client_entries: HashMap<u32, ClientEntry>,
    pub permits: usize,
    pub propose_op: u32,
    pub prepare_op: u32,
    pub commit_op: u32,
    pub quorum_states: HashMap<u32, bool>,
    pub log_entries: HashMap<u32, LogEntry>,
}

impl ViewState {
    /// The latest request of each client.
    pub open spec fn entries(&self) -> Map<u32, ClientEntryView> {
        self.client_entries@.map_values(|entry: ClientEntry| entry@)
    }

    /// Whether the replica leads the view.
    pub open spec fn leads(&self) -> bool {
        primary_of(self.view_num, self.replica.num_replica) == self.replica.id
    }

    /// The log holds just the prepared operations, and only those are committed.
    /// A primary has sessions for what it proposed, and proposes a batch only
    /// when the one before is committed.
    pub open spec fn wf(&self) -> bool {
        &&& self.replica.num_replica > 0
        &&& self.commit_op <= self.prepare_op
        &&& forall|op: u32| #[trigger]
            self.log_entries@.contains_key(op) <==> 1 <= op <= self.prepare_op
        &&& forall|op: u32| #[trigger]
            self.quorum_states@.contains_key(op) ==> self.quorum_states@[op] == !self.leads()
        &&& self.leads() ==> {
            &&& self.prepare_op <= self.propose_op
            &&& self.permits + self.propose_op <= self.commit_op + 1
            &&& forall|op: u32| #[trigger]
                self.quorum_states@.contains_key(op) <==> 1 <= op <= self.propose_op
        }
        &&& !self.leads() ==> self.propose_op == 0 && self.permits == 0
    }

    pub fn new(replica: Arc<Replica>, view_num: u32) -> (r: Self)
        requires
            replica.num_replica > 0,
        ensures
            r.wf(),
            r.replica == replica,
            r.view_num == view_num,
            r.entries() == Map::<u32, ClientEntryView>::empty(),
            r.permits == if r.leads() {
                1int
            } else {
                0int
            },
            r.propose_op == 0,
            r.prepare_op == 0,
            r.commit_op == 0,
            r.quorum_states@ == Map::<u32, bool>::empty(),
            r.log_entries@ == Map::<u32, LogEntry>::empty(),
    {
        let permits: usize = if replica.is_primary(view_num) {
            1
        } else {
            0
        };
        let r = ViewState {
            replica,
            view_num,
            client_entries: HashMap::new(),
            permits,
            propose_op: 0,
            prepare_op: 0,
            commit_op: 0,
            quorum_states: HashMap::new(),
            log_entries: HashMap::new(),
        };
        assert(r.entries() =~= Map::<u32, ClientEntryView>::empty());
        r
    }

    /// Takes a permit to propose a batch, if there is one.
    pub fn take_permit(&mut self) -> (r: bool)
        requires
            old(self).wf(),
        ensures
            final(self).wf(),
            r <==> old(self).permits > 0,
            *final(self) == (ViewState { permits: final(self).permits, ..*old(self) }),
            final(self).permits == old(self).permits - if r {
                1int
            } else {
                0int
            },
    {
        if self.permits > 0 {
            self.permits -= 1;
            true
        } else {
            false
        }
    }

    /// The operations whose sessions are looked after next: the one after the
    /// last prepared and the one after the last committed, if they have started.
    pub fn next_sessions(&self) -> (r: (Option<u32>, Option<u32>))
        requires
            self.wf(),
            self.prepare_op < u32::MAX,
        ensures
            r.0 == if self.quorum_states@.contains_key((self.prepare_op + 1) as u32) {
                Some((self.prepare_op + 1) as u32)
            } else {
                None
            },
            r.1 == if self.quorum_states@.contains_key((self.commit_op + 1) as u32) {
                Some((self.commit_op + 1) as u32)
            } else {
                None
            },
    {
        let prepare: u32 = self.prepare_op + 1;
        let commit: u32 = self.commit_op + 1;
        let prepare_session: Option<u32> = if self.quorum_states.contains_key(&prepare) {
            Some(prepare)
        } else {
            None
        };
        let commit_session: Option<u32> = if self.quorum_states.contains_key(&commit) {
            Some(commit)
        } else {
            None
        };
        (prepare_session, commit_session)
    }

    /// Whether a request is to be ignored.
    pub fn stale(&self, request: &Request) -> (r: bool)
        ensures
            r == is_stale(self.entries(), request@),
    {
        match self.client_entries.get(&request.client_id) {
            Some(ClientEntry::Committing(request_num)) => *request_num >= request.request_num,
            Some(ClientEntry::Committed(reply)) => reply.request_num > request.request_num,
            None => false,
        }
    }

    /// Takes a request in. Returns it if it is to join the next batch.
    ///
    /// Only the primary takes in requests that are not stale.
    pub fn handle_request(&mut self, request: Request) -> (r: Option<Request>)
        requires
            old(self).wf(),
            is_stale(old(self).entries(), request@) || old(self).leads(),
        ensures
            final(self).wf(),
            *final(self) == (ViewState {
                client_entries: final(self).client_entries,
                ..*old(self)
            }),
            if is_stale(old(self).entries(), request@) {
                r is None && final(self).entries() == old(self).entries()
            } else {
                &&& r == Some(request)
                &&& final(self).entries() == old(self).entries().insert(
                    request.client_id,
                    ClientEntryView::Committing(request.request_num),
                )
            },
    {
        if self.stale(&request) {
            return None;
        }
        let ghost before = self.entries();
        let num: u32 = request.request_num;
        self.client_entries.insert(request.client_id, ClientEntry::Committing(num));
        assert(self.entries() =~= before.insert(
            request.client_id,
            ClientEntryView::Committing(num),
        ));
        Some(request)
    }

    /// Makes sure that a backup has sessions for an operation. Returns whether
    /// they have to be started.
    pub fn get_or_insert_quorum_state(&mut self, op_num: u32) -> (r: bool)
        requires
            old(self).wf(),
            !old(self).leads(),
        ensures
            final(self).wf(),
            *final(self) == (ViewState { quorum_states: final(self).quorum_states, ..*old(self) }),
            r <==> !old(self).quorum_states@.contains_key(op_num),
            final(self).quorum_states@ == old(self).quorum_states@.insert(op_num, true),
    {
        if self.quorum_states.contains_key(&op_num) {
            assert(self.quorum_states@ =~= self.quorum_states@.insert(op_num, true));
            false
        } else {
            self.quorum_states.insert(op_num, true);
            true
        }
    }

    /// Notes the reply to an executed request. Returns it, on its way to the
    /// client, unless the client has gone on to a later request.
    pub fn handle_reply_ready(&mut self, client_id: u32, reply: Reply) -> (r: Option<SendTo<Reply>>)
        requires
            old(self).wf(),
            old(self).entries().contains_key(client_id),
            old(self).entries()[client_id] matches ClientEntryView::Committing(n) && n
                >= reply.request_num,
            old(self).entries()[client_id] == ClientEntryView::Committing(reply.request_num) ==> old(
                self,
            ).replica.addr_book.knows_client(client_id),
        ensures
            final(self).wf(),
            *final(self) == (ViewState {
                client_entries: final(self).client_entries,
                ..*old(self)
            }),
            final(self).entries() == old(self).entries().insert(
                client_id,
                ClientEntryView::Committed(reply@),
            ),
            match r {
                Some(send) => {
                    &&& old(self).entries()[client_id] == ClientEntryView::Committing(
                        reply.request_num,
                    )
                    &&& old(self).replica.addr_book.is_client(client_id, send.destination@)
                    &&& send.message@ == reply@
                },
                None => old(self).entries()[client_id] != ClientEntryView::Committing(
                    reply.request_num,
                ),
            },
    {
        let ghost before = self.entries();
        let request_num: u32 = reply.request_num;
        let copy = reply.clone();
        let previous = self.client_entries.insert(client_id, ClientEntry::Committed(copy));
        assert(self.entries() =~= before.insert(client_id, ClientEntryView::Committed(reply@)));
        match previous {
            Some(ClientEntry::Committing(n)) => {
                if n == request_num {
                    Some(self.replica.send_to_client(client_id, reply))
                } else {
                    None
                }
            },
            _ => None,
        }
    }

    /// Whether an event can be handled.
    ///
    /// A backup cannot take in a new request, nor a primary a message for its
    /// sessions. A reply must be to a request that was on its way, and a client
    /// that waits for it must have a known address.
    pub open spec fn can_handle(&self, event: ReplicaEvent) -> bool {
        match event {
            ReplicaEvent::Message(ToReplica::Request(request)) => is_stale(
                self.entries(),
                request@,
            ) || self.leads(),
            ReplicaEvent::Message(ToReplica::PrePrepare(packet, _)) => decodes::<PrePrepare>(
                packet@.inner,
            ) ==> !self.leads(),
            ReplicaEvent::Message(ToReplica::Prepare(packet)) => decodes::<Prepare>(packet@.inner)
                ==> !self.leads(),
            ReplicaEvent::Message(ToReplica::Commit(packet)) => decodes::<Commit>(packet@.inner)
                ==> !self.leads(),
            ReplicaEvent::ReplyReady(client_id, reply) => {
                &&& self.entries().contains_key(client_id)
                &&& self.entries()[client_id] matches ClientEntryView::Committing(n)
                &&& n >= reply.request_num
                &&& n == reply.request_num ==> self.replica.addr_book.knows_client(client_id)
            },
        }
    }

    /// Decides what to do about an event. It is an error if the message in a
    /// packet cannot be read.
    pub fn on_event(&mut self, event: ReplicaEvent) -> (r: Result<Action, Error>)
        requires
            old(self).wf(),
            old(self).can_handle(event),
        ensures
            final(self).wf(),
            *final(self) == (ViewState {
                client_entries: final(self).client_entries,
                quorum_states: final(self).quorum_states,
                ..*old(self)
            }),
            r matches Err(e) ==> e == Error::Decoding && final(self).entries()
                == old(self).entries() && final(self).quorum_states == old(self).quorum_states,
            match event {
                ReplicaEvent::Message(ToReplica::Request(request)) => {
                    &&& final(self).quorum_states == old(self).quorum_states
                    &&& if is_stale(old(self).entries(), request@) {
                        r == Ok::<Action, Error>(Action::Nothing) && final(self).entries() == old(
                            self,
                        ).entries()
                    } else {
                        r == Ok::<Action, Error>(Action::Batch(request)) && final(self).entries()
                            == old(self).entries().insert(
                            request.client_id,
                            ClientEntryView::Committing(request.request_num),
                        )
                    }
                },
                ReplicaEvent::Message(ToReplica::PrePrepare(packet, requests)) => {
                    &&& final(self).entries() == old(self).entries()
                    &&& r is Ok <==> decodes::<PrePrepare>(packet@.inner)
                    &&& r matches Ok(action) ==> {
                        &&& action matches Action::PrePrepare(start, message, passed)
                        &&& message.in_sync() && !message.verified
                        &&& message.packet_view() == packet@
                        &&& passed == requests
                        &&& final(self).starts(old(self), message.inner.op_num, start)
                    }
                },
                ReplicaEvent::Message(ToReplica::Prepare(packet)) => {
                    &&& final(self).entries() == old(self).entries()
                    &&& r is Ok <==> decodes::<Prepare>(packet@.inner)
                    &&& r matches Ok(action) ==> {
                        &&& action matches Action::Prepare(start, message)
                        &&& message.in_sync() && !message.verified
                        &&& message.packet_view() == packet@
                        &&& final(self).starts(old(self), message.inner.op_num, start)
                    }
                },
                ReplicaEvent::Message(ToReplica::Commit(packet)) => {
                    &&& final(self).entries() == old(self).entries()
                    &&& r is Ok <==> decodes::<Commit>(packet@.inner)
                    &&& r matches Ok(action) ==> {
                        &&& action matches Action::Commit(start, message)
                        &&& message.in_sync() && !message.verified
                        &&& message.packet_view() == packet@
                        &&& final(self).starts(old(self), message.inner.op_num, start)
                    }
                },
                ReplicaEvent::ReplyReady(client_id, reply) => {
                    &&& final(self).quorum_states == old(self).quorum_states
                    &&& final(self).entries() == old(self).entries().insert(
                        client_id,
                        ClientEntryView::Committed(reply@),
                    )
                    &&& if old(self).entries()[client_id] == ClientEntryView::Committing(
                        reply.request_num,
                    ) {
                        &&& r matches Ok(Action::Reply(send))
                        &&& old(self).replica.addr_book.is_client(client_id, send.destination@)
                        &&& send.message@ == reply@
                    } else {
                        r == Ok::<Action, Error>(Action::Nothing)
                    }
                },
            },
    {
        match event {
            ReplicaEvent::Message(ToReplica::Request(request)) => {
                match self.handle_request(request) {
                    Some(request) => Ok(Action::Batch(request)),
                    None => Ok(Action::Nothing),
                }
            },
            ReplicaEvent::Message(ToReplica::PrePrepare(packet, requests)) => {
                match packet.deserialize::<PrePrepare>() {
                    Ok(message) => {
                        let start = self.get_or_insert_quorum_state(message.inner.op_num);
                        Ok(Action::PrePrepare(start, message, requests))
                    },
                    Err(e) => Err(e),
                }
            },
            ReplicaEvent::Message(ToReplica::Prepare(packet)) => {
                match packet.deserialize::<Prepare>() {
                    Ok(message) => {
                        let start = self.get_or_insert_quorum_state(message.inner.op_num);
                        Ok(Action::Prepare(start, message))
                    },
                    Err(e) => Err(e),
                }
            },
            ReplicaEvent::Message(ToReplica::Commit(packet)) => {
                match packet.deserialize::<Commit>() {
                    Ok(message) => {
                        let start = self.get_or_insert_quorum_state(message.inner.op_num);
                        Ok(Action::Commit(start, message))
                    },
                    Err(e) => Err(e),
                }
            },
            ReplicaEvent::ReplyReady(client_id, reply) => {
                match self.handle_reply_ready(client_id, reply) {
                    Some(send) => Ok(Action::Reply(send)),
                    None => Ok(Action::Nothing),
                }
            },
        }
    }

    /// Whether the sessions of an operation are there now, and `start` says
    /// whether they were not there before.
    pub open spec fn starts(&self, before: &ViewState, op_num: u32, start: bool) -> bool {
        &&& start <==> !before.quorum_states@.contains_key(op_num)
        &&& self.quorum_states@ == before.quorum_states@.insert(op_num, true)
    }

    /// Numbers the next proposal of the primary. Its sessions are to be started
    /// for the returned operation.
    ///
    /// A permit was taken for the batch.
    pub fn on_requests(&mut self) -> (r: u32)
        requires
            old(self).wf(),
            old(self).leads(),
            old(self).permits + old(self).propose_op <= old(self).commit_op,
            old(self).propose_op < u32::MAX,
        ensures
            final(self).wf(),
            *final(self) == (ViewState {
                propose_op: r,
                quorum_states: final(self).quorum_states,
                ..*old(self)
            }),
            r == old(self).propose_op + 1,
            final(self).quorum_states@ == old(self).quorum_states@.insert(r, false),
    {
        self.propose_op += 1;
        self.quorum_states.insert(self.propose_op, false);
        self.propose_op
    }

    /// Takes the next prepared operation into the log. A backup learns from it
    /// which requests are on their way; a primary knows already.
    pub fn on_prepare_quorum(&mut self, entry: LogEntry)
        requires
            old(self).wf(),
            old(self).prepare_op < u32::MAX,
            old(self).leads() ==> old(self).quorum_states@.contains_key(
                (old(self).prepare_op + 1) as u32,
            ),
            old(self).leads() ==> forall|i: int|
                0 <= i < entry.requests@.len() ==> is_noted(
                    old(self).entries(),
                    #[trigger] entry.requests@[i]@,
                ),
        ensures
            final(self).wf(),
            is_prepared(*old(self), entry, *final(self)),
    {
        let ghost before = self.entries();
        let ghost requests = entry.requests.deep_view();
        self.prepare_op += 1;
        if !self.replica.is_primary(self.view_num) {
            let mut i: usize = 0;
            assert(requests.take(0) =~= Seq::<RequestView>::empty());
            while i < entry.requests.len()
                invariant
                    i <= entry.requests@.len(),
                    requests == entry.requests.deep_view(),
                    *self == (ViewState {
                        prepare_op: self.prepare_op,
                        client_entries: self.client_entries,
                        ..*old(self)
                    }),
                    self.prepare_op == old(self).prepare_op + 1,
                    self.entries() == note_all(before, requests.take(i as int)),
                decreases entry.requests@.len() - i,
            {
                let ghost noted = self.entries();
                let client_id: u32 = entry.requests[i].client_id;
                let num: u32 = entry.requests[i].request_num;
                self.client_entries.insert(client_id, ClientEntry::Committing(num));
                assert(self.entries() =~= noted.insert(
                    client_id,
                    ClientEntryView::Committing(num),
                ));
                assert(requests.take(i + 1).drop_last() =~= requests.take(i as int));
                i += 1;
            }
            assert(requests.take(i as int) =~= requests);
        }
        self.log_entries.insert(self.prepare_op, entry);
    }

    /// Notes the votes for the next committed operation. Returns its requests,
    /// which are to be executed in their order.
    pub fn on_commit_quorum(&mut self, commits: HashMap<u8, Message<Commit>>) -> (r: Vec<Request>)
        requires
            old(self).wf(),
            old(self).commit_op < old(self).prepare_op,
        ensures
            final(self).wf(),
            is_committed(*old(self), commits, *final(self), r.deep_view()),
    {
        self.commit_op += 1;
        let op: u32 = self.commit_op;
        let entry = self.log_entries.remove(&op).unwrap();
        let requests = copy_requests(&entry.requests);
        let ghost committed = LogEntry { commits, ..entry };
        self.log_entries.insert(
            op,
            LogEntry {
                requests: entry.requests,
                pre_prepare: entry.pre_prepare,
                prepares: entry.prepares,
                commits,
            },
        );
        assert(self.log_entries@ =~= old(self).log_entries@.insert(op, committed));
        if self.replica.is_primary(self.view_num) {
            self.permits += 1;
        }
        requests
    }

    /// The reply to a request with the result of its execution.
    pub fn reply(&self, request_num: u32, result: Vec<u8>) -> (r: Reply)
        ensures
            r.request_num == request_num,
            r.result == result,
            r.replica_id == self.replica.id,
            r.view_num == self.view_num,
    {
        Reply { request_num, result, replica_id: self.replica.id, view_num: self.view_num }
    }
}

/// Every operation up to the last prepared one is in the log, and the committed
/// ones are among them.
pub proof fn law_committed_operations_are_logged(view: ViewState, op: u32)
    requires
        view.wf(),
        1 <= op <= view.commit_op,
    ensures
        view.log_entries@.contains_key(op),
{
}

/// A primary never has more than one proposal that is not committed.
pub proof fn law_one_proposal_in_flight(view: ViewState)
    requires
        view.wf(),
        view.leads(),
    ensures
        view.commit_op <= view.prepare_op <= view.propose_op <= view.commit_op + 1,
{
}

/// Once a request is on its way, neither it nor an earlier one of its client is
/// taken in again before there is a reply.
pub proof fn law_request_taken_once(
    entries: Map<u32, ClientEntryView>,
    request: RequestView,
    again: RequestView,
)
    requires
        again.client_id == request.client_id,
        again.request_num <= request.request_num,
    ensures
        is_stale(
            entries.insert(request.client_id, ClientEntryView::Committing(request.request_num)),
            again,
        ),
{
}

/// Noting the requests of a batch leaves clients without a request in it as
/// they were.
pub proof fn law_batch_leaves_others(
    entries: Map<u32, ClientEntryView>,
    requests: Seq<RequestView>,
    client_id: u32,
)
    requires
        forall|i: int| 0 <= i < requests.len() ==> (#[trigger] requests[i]).client_id != client_id,
    ensures
        note_all(entries, requests).contains_key(client_id) <==> entries.contains_key(client_id),
        note_all(entries, requests)[client_id] == entries[client_id],
    decreases requests.len(),
{
    if requests.len() > 0 {
        assert(requests.last() == requests[requests.len() - 1]);
        assert forall|i: int| 0 <= i < requests.drop_last().len() implies (
        #[trigger] requests.drop_last()[i]).client_id != client_id by {
            assert(requests.drop_last()[i] == requests[i]);
        }
        law_batch_leaves_others(entries, requests.drop_last(), client_id);
    }
}

/// Noting the requests of a batch makes the last request of a client the one that
/// is on its way.
pub proof fn law_batch_is_noted(entries: Map<u32, ClientEntryView>, requests: Seq<RequestView>, i: int)
    requires
        0 <= i < requests.len(),
        forall|j: int|
            i < j < requests.len() ==> (#[trigger] requests[j]).client_id != requests[i].client_id,
    ensures
        is_noted(note_all(entries, requests), requests[i]),
    decreases requests.len(),
{
    if i < requests.len() - 1 {
        assert(requests.last().client_id != requests[i].client_id);
        assert forall|j: int| i < j < requests.drop_last().len() implies (
        #[trigger] requests.drop_last()[j]).client_id != requests.drop_last()[i].client_id by {
            assert(requests[j].client_id != requests[i].client_id);
        }
        law_batch_is_noted(entries, requests.drop_last(), i);
    }
}

/// A prepared operation is taken in behind all that are in the log: it is under
/// the next number, what was there stays, and nothing is committed or proposed by
/// it. A primary knows the requests in it already; a backup notes the last one of
/// each client, and other clients keep what they had.
pub proof fn law_prepared_operation_is_logged(
    before: ViewState,
    after: ViewState,
    entry: LogEntry,
    op: u32,
    client_id: u32,
)
    requires
        before.wf(),
        before.prepare_op < u32::MAX,
        before.leads() ==> before.quorum_states@.contains_key((before.prepare_op + 1) as u32),
        is_prepared(before, entry, after),
    ensures
        after.wf(),
        after.prepare_op == before.prepare_op + 1,
        after.commit_op == before.commit_op,
        after.propose_op == before.propose_op,
        after.log_entries@.contains_key(op) <==> 1 <= op <= after.prepare_op,
        after.log_entries@[after.prepare_op] == entry,
        1 <= op <= before.prepare_op ==> after.log_entries@[op] == before.log_entries@[op],
        before.leads() ==> after.entries() == before.entries(),
        !before.leads() ==> {
            let requests = entry.requests.deep_view();
            match last_request(requests, client_id) {
                Some(request_num) => after.entries().contains_key(client_id)
                    && after.entries()[client_id] == ClientEntryView::Committing(request_num),
                None => (after.entries().contains_key(client_id)
                    <==> before.entries().contains_key(client_id)) && after.entries()[client_id]
                    == before.entries()[client_id],
            }
        },
{
    lemma_last_request(before.entries(), entry.requests.deep_view(), client_id);
}

proof fn lemma_last_request(
    entries: Map<u32, ClientEntryView>,
    requests: Seq<RequestView>,
    client_id: u32,
)
    ensures
        match last_request(requests, client_id) {
            Some(request_num) => note_all(entries, requests).contains_key(client_id)
                && note_all(entries, requests)[client_id] == ClientEntryView::Committing(
                request_num,
            ),
            None => (note_all(entries, requests).contains_key(client_id)
                <==> entries.contains_key(client_id)) && note_all(entries, requests)[client_id]
                == entries[client_id],
        },
    decreases requests.len(),
{
    if requests.len() > 0 {
        lemma_last_request(entries, requests.drop_last(), client_id);
    }
}

} // verus!
