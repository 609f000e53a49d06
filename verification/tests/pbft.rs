use std::collections::{BTreeMap, HashMap};
use std::sync::Arc;
use std::time::Duration;

use helloween::addr::{socket, Addr, IpAddr};
use helloween::crypto::{digest, Message, Packet, Signer, Verifier};
use helloween::error::Error;
use helloween::pbft::batch::{fill, BatchSession};
use helloween::pbft::client::{ClientSession, RequestSession};
use helloween::pbft::commit::commit_session;
use helloween::pbft::prepare::{backup_prepare_session, prepare_session, primary_prepare_session};
use helloween::pbft::quorum::{CommitStage, PrepareStage, QuorumState};
use helloween::pbft::view::{Action, ClientEntry, ViewState};
use helloween::pbft::{Commit, PrePrepare, Prepare, ReplicaEvent, Reply, Request, ToReplica};
use helloween::replication::{AddrBook, Client, Replica, SocketAddrBook, UntypedAddrBook};

fn pbft_signer(id: u8) -> Signer {
    Signer::from_slice(&[id + 1; 32]).unwrap()
}

fn pbft_replica(id: u8) -> Replica {
    Replica {
        id,
        num_replica: 4,
        num_faulty: 1,
        signer: pbft_signer(id),
        verifiers: (0..4).map(|i| (i, Verifier::from_signer(&pbft_signer(i)))).collect(),
        addr_book: AddrBook::Untyped(UntypedAddrBook { num_replica: 4, replica_id: id }),
    }
}

fn pbft_client() -> Client {
    Client {
        id: 5,
        num_replica: 4,
        num_faulty: 1,
        addr_book: AddrBook::Untyped(UntypedAddrBook { num_replica: 4, replica_id: 200 }),
        retry_interval: Duration::from_millis(100),
    }
}

fn pbft_request(client_id: u32, request_num: u32) -> Request {
    Request { client_id, request_num, op: vec![1, 2] }
}

fn pbft_reply(replica_id: u8, result: u8) -> Reply {
    Reply { request_num: 1, result: vec![result], replica_id, view_num: 6 }
}

fn received<M: helloween::wire::Encode>(message: &Message<M>) -> Message<M> {
    message.packet().deserialize().unwrap()
}

#[test]
fn client_numbers_requests() {
    let client = pbft_client();
    let mut session = ClientSession::new();
    assert_eq!(session.submit(&client, vec![1, 2]), pbft_request(5, 1));
    assert_eq!(session.submit(&client, vec![1, 2]), pbft_request(5, 2));
    assert_eq!(session.primary_replica, 0);
}

#[test]
fn request_goes_to_the_primary_and_then_to_all() {
    let client = pbft_client();
    let (session, send) = RequestSession::start(&client, pbft_request(5, 1), 2);
    assert_eq!(send.destination, Addr::Untyped("replica-2".to_string()));
    assert_eq!(send.message, pbft_request(5, 1));
    let retry = session.retry(&client);
    // the identifiers up to the client's own mark come first
    assert_eq!(retry.destinations.len(), 200);
    assert_eq!(retry.message, pbft_request(5, 1));
}

#[test]
fn result_needs_one_reply_more_than_faults() {
    let client = pbft_client();
    let (mut session, _) = RequestSession::start(&client, pbft_request(5, 1), 0);
    let mut primary = 0;
    assert_eq!(session.on_reply(&client, pbft_reply(0, 9), &mut primary), None);
    // a second reply of one replica does not count twice
    assert_eq!(session.on_reply(&client, pbft_reply(0, 9), &mut primary), None);
    assert_eq!(session.on_reply(&client, pbft_reply(1, 8), &mut primary), None);
    assert_eq!(primary, 0);
    assert_eq!(session.on_reply(&client, pbft_reply(2, 9), &mut primary), Some(vec![9]));
    assert_eq!(primary, 2);
}

#[test]
fn later_reply_replaces_the_earlier() {
    let client = pbft_client();
    let (mut session, _) = RequestSession::start(&client, pbft_request(5, 1), 0);
    let mut primary = 0;
    session.on_reply(&client, pbft_reply(0, 9), &mut primary);
    session.on_reply(&client, pbft_reply(0, 8), &mut primary);
    assert_eq!(session.on_reply(&client, pbft_reply(1, 9), &mut primary), None);
    assert_eq!(session.on_reply(&client, pbft_reply(2, 8), &mut primary), Some(vec![8]));
}

#[test]
fn reply_to_earlier_request_is_ignored() {
    let client = pbft_client();
    let (mut session, _) = RequestSession::start(&client, pbft_request(5, 2), 0);
    let mut primary = 0;
    assert_eq!(session.on_reply(&client, pbft_reply(0, 9), &mut primary), None);
    assert_eq!(session.on_reply(&client, pbft_reply(1, 9), &mut primary), None);
    assert!(session.replies.is_empty());
}

#[test]
fn batch_has_at_most_a_hundred_requests() {
    let mut batch = BatchSession::start(pbft_request(0, 1));
    for i in 1..100 {
        assert!(batch.accepts());
        batch.push(pbft_request(i, 1));
    }
    assert!(!batch.accepts());
    let requests = batch.close();
    assert_eq!(requests.len(), 100);
    assert_eq!(requests[0].client_id, 0);
    assert_eq!(requests[99].client_id, 99);
}

#[test]
fn to_replica_round_trips_but_for_proposals() {
    let prepare = Prepare { view_num: 0, op_num: 1, digest: [2; 32], replica_id: 3 };
    let packet = pbft_signer(3).serialize_sign(prepare).unwrap().packet();
    for (tag, message) in [
        (0, ToReplica::Request(pbft_request(1, 2))),
        (2, ToReplica::Prepare(packet.clone())),
        (3, ToReplica::Commit(packet.clone())),
    ] {
        let bytes = message.to_vec().unwrap();
        assert_eq!(bytes[0], tag);
        assert_eq!(ToReplica::from_slice(&bytes), Ok(message));
    }
    // a packet extends to the end, so nothing can be read behind it
    let message = ToReplica::PrePrepare(packet, vec![pbft_request(1, 2)]);
    let bytes = message.to_vec().unwrap();
    assert_eq!(bytes[0], 1);
    assert_eq!(ToReplica::from_slice(&bytes), Err(Error::Decoding));
    assert_eq!(ToReplica::from_slice(&[]), Err(Error::Decoding));
    assert_eq!(ToReplica::from_slice(&[4]), Err(Error::Decoding));
    assert_eq!(ToReplica::from_slice(&[2; 64]), Err(Error::Decoding));
}

#[test]
fn proposal_is_prepared_by_two_votes() {
    let primary = pbft_replica(0);
    let requests = vec![pbft_request(1, 1)];
    let (mut session, send) =
        primary_prepare_session(&primary, 0, 1, requests.clone()).unwrap();
    assert_eq!(send.destinations.len(), 3);
    assert_eq!(session.pre_prepare.inner.digest, digest(&requests).unwrap());
    let packet = match send.message {
        ToReplica::PrePrepare(packet, sent) => {
            assert_eq!(sent, requests);
            packet
        }
        _ => panic!(),
    };
    assert!(!session.ready(&primary));

    for id in [1, 2] {
        let backup = pbft_replica(id);
        let pre_prepare = packet.clone().deserialize::<PrePrepare>().unwrap();
        let (vote, send) = backup_prepare_session(&backup, 0, pre_prepare, requests.clone())
            .unwrap()
            .unwrap();
        assert_eq!(vote.prepares.len(), 1);
        assert!(vote.pre_prepare.verified);
        assert!(matches!(send.unwrap().message, ToReplica::Prepare(_)));
        session.on_prepare(&primary, received(&vote.prepares[&id]));
    }
    assert!(session.ready(&primary));
    let (entry, committed) = session.finish(&primary);
    assert_eq!(entry.requests, requests);
    assert_eq!(entry.prepares.len(), 2);
    assert!(entry.commits.is_empty());
    assert_eq!(committed, digest(&requests).unwrap());
}

#[test]
fn backup_ignores_bad_proposals() {
    let backup = pbft_replica(1);
    let requests = vec![pbft_request(1, 1)];
    let good = PrePrepare { view_num: 0, op_num: 1, digest: digest(&requests).unwrap() };
    // signed by somebody else
    let forged = received(&pbft_signer(2).serialize_sign(good).unwrap());
    assert!(backup_prepare_session(&backup, 0, forged, requests.clone()).unwrap().is_none());
    // for another view
    let signed = pbft_signer(0).serialize_sign(good).unwrap();
    assert!(backup_prepare_session(&backup, 4, received(&signed), requests.clone())
        .unwrap()
        .is_none());
    // with other requests
    assert!(backup_prepare_session(&backup, 0, received(&signed), vec![]).unwrap().is_none());
    assert!(backup_prepare_session(&backup, 0, received(&signed), requests).unwrap().is_some());
}

#[test]
fn votes_that_do_not_fit_are_not_counted() {
    let primary = pbft_replica(0);
    let (mut session, _) = primary_prepare_session(&primary, 0, 1, vec![]).unwrap();
    let digest = session.pre_prepare.inner.digest;
    let good = Prepare { view_num: 0, op_num: 1, digest, replica_id: 1 };
    // claims to be from another replica
    session.on_prepare(&primary, received(&pbft_signer(2).serialize_sign(good).unwrap()));
    // other digest
    let other = Prepare { digest: [9; 32], ..good };
    session.on_prepare(&primary, received(&pbft_signer(1).serialize_sign(other).unwrap()));
    // other view
    let other = Prepare { view_num: 1, ..good };
    session.on_prepare(&primary, received(&pbft_signer(1).serialize_sign(other).unwrap()));
    assert!(session.prepares.is_empty());
    session.on_prepare(&primary, received(&pbft_signer(1).serialize_sign(good).unwrap()));
    session.on_prepare(&primary, received(&pbft_signer(1).serialize_sign(good).unwrap()));
    assert_eq!(session.prepares.len(), 1);
}

#[test]
fn primary_casts_no_vote_to_prepare() {
    let primary = pbft_replica(0);
    let pre_prepare = PrePrepare { view_num: 0, op_num: 1, digest: [0; 32] };
    let signed = pbft_signer(0).serialize_sign(pre_prepare).unwrap();
    let (session, send) = prepare_session(&primary, signed, vec![]);
    assert!(session.prepares.is_empty());
    assert!(send.is_none());
}

#[test]
fn commit_needs_three_votes_of_four() {
    let replica = pbft_replica(0);
    let (mut session, send) = commit_session(&replica, 0, 1, [7; 32]);
    assert_eq!(send.destinations.len(), 3);
    assert!(matches!(send.message, ToReplica::Commit(_)));
    for id in [1, 2] {
        assert!(!session.ready(&replica));
        let (other, _) = commit_session(&pbft_replica(id), 0, 1, [7; 32]);
        session.on_commit(&replica, received(&other.commits[&id]));
    }
    // a vote for something else does not count
    let (other, _) = commit_session(&pbft_replica(3), 0, 1, [8; 32]);
    session.on_commit(&replica, received(&other.commits[&3]));
    assert!(session.ready(&replica));
    assert_eq!(session.finish(&replica).len(), 3);
}

#[test]
fn split_votes_commit_nothing() {
    // each of four replicas votes once, two for either digest
    let votes: Vec<_> = (0..4)
        .map(|id| commit_session(&pbft_replica(id), 0, 1, [id % 2; 32]).0)
        .collect();
    for at in [0, 1] {
        let replica = pbft_replica(at);
        let (mut session, _) = commit_session(&replica, 0, 1, [at % 2; 32]);
        for id in 0..4u8 {
            if id != at {
                session.on_commit(&replica, received(&votes[id as usize].commits[&id]));
            }
        }
        assert_eq!(session.commits.len(), 2);
        assert!(!session.ready(&replica));
    }
}

#[test]
fn lone_primary_runs_a_request_through() {
    let mut replica = pbft_replica(0);
    replica.num_replica = 1;
    replica.num_faulty = 0;
    replica.addr_book = AddrBook::Untyped(UntypedAddrBook { num_replica: 1, replica_id: 0 });
    let replica = Arc::new(replica);
    let mut view = ViewState::new(replica.clone(), 0);
    assert_eq!(view.permits, 1);

    let request = pbft_request(5, 1);
    let event = ReplicaEvent::Message(ToReplica::Request(request.clone()));
    assert!(matches!(view.on_event(event), Ok(Action::Batch(r)) if r == request));
    let event = ReplicaEvent::Message(ToReplica::Request(request.clone()));
    assert!(matches!(view.on_event(event), Ok(Action::Nothing)));

    assert!(view.take_permit());
    assert!(!view.take_permit());
    assert_eq!(view.next_sessions(), (None, None));
    assert_eq!(view.on_requests(), 1);
    assert_eq!(view.next_sessions(), (Some(1), Some(1)));

    let (session, _) = primary_prepare_session(&replica, 0, 1, vec![request.clone()]).unwrap();
    assert!(session.ready(&replica));
    let (entry, digest) = session.finish(&replica);
    view.on_prepare_quorum(entry);
    let (session, _) = commit_session(&replica, 0, 1, digest);
    assert!(session.ready(&replica));
    let requests = view.on_commit_quorum(session.finish(&replica));
    assert_eq!(requests, vec![request.clone()]);
    assert_eq!(view.log_entries[&1].commits.len(), 1);
    assert!(view.take_permit());

    let reply = view.reply(1, vec![4]);
    assert_eq!(reply, Reply { request_num: 1, result: vec![4], replica_id: 0, view_num: 0 });
    match view.on_event(ReplicaEvent::ReplyReady(5, reply.clone())) {
        Ok(Action::Reply(send)) => {
            assert_eq!(send.destination, Addr::Untyped("client-5".to_string()));
            assert_eq!(send.message, reply);
        }
        _ => panic!(),
    }
    // a repeated request is proposed again, an older one is not
    let event = ReplicaEvent::Message(ToReplica::Request(request));
    assert!(matches!(view.on_event(event), Ok(Action::Batch(_))));
    let event = ReplicaEvent::Message(ToReplica::Request(pbft_request(5, 0)));
    assert!(matches!(view.on_event(event), Ok(Action::Nothing)));
}

#[test]
fn backup_passes_messages_to_sessions() {
    let mut view = ViewState::new(Arc::new(pbft_replica(1)), 0);
    assert_eq!(view.permits, 0);
    let prepare = Prepare { view_num: 0, op_num: 3, digest: [0; 32], replica_id: 2 };
    let packet = pbft_signer(2).serialize_sign(prepare).unwrap().packet();
    let event = ReplicaEvent::Message(ToReplica::Prepare(packet.clone()));
    match view.on_event(event) {
        Ok(Action::Prepare(start, message)) => {
            assert!(start);
            assert_eq!(message.inner, prepare);
        }
        _ => panic!(),
    }
    let commit = Commit { view_num: 0, op_num: 3, digest: [0; 32], replica_id: 2 };
    let packet = pbft_signer(2).serialize_sign(commit).unwrap().packet();
    match view.on_event(ReplicaEvent::Message(ToReplica::Commit(packet))) {
        Ok(Action::Commit(start, message)) => {
            assert!(!start);
            assert_eq!(message.inner, commit);
        }
        _ => panic!(),
    }
    let pre_prepare = PrePrepare { view_num: 0, op_num: 1, digest: [0; 32] };
    let packet = pbft_signer(0).serialize_sign(pre_prepare).unwrap().packet();
    match view.on_event(ReplicaEvent::Message(ToReplica::PrePrepare(packet, vec![]))) {
        Ok(Action::PrePrepare(start, message, requests)) => {
            assert!(start);
            assert_eq!(message.inner, pre_prepare);
            assert!(requests.is_empty());
        }
        _ => panic!(),
    }
    assert_eq!(view.next_sessions(), (Some(1), Some(1)));
}

#[test]
fn unreadable_packet_is_an_error() {
    let mut view = ViewState::new(Arc::new(pbft_replica(1)), 0);
    let packet = Packet { signature: helloween::crypto::Signature([0; 64]), inner: vec![1] };
    let event = ReplicaEvent::Message(ToReplica::Commit(packet));
    assert!(matches!(view.on_event(event), Err(Error::Decoding)));
    assert!(view.quorum_states.is_empty());
}

#[test]
fn backup_learns_requests_when_prepared() {
    let replica = Arc::new(pbft_replica(1));
    let mut view = ViewState::new(replica.clone(), 0);
    assert!(view.get_or_insert_quorum_state(1));
    assert!(!view.get_or_insert_quorum_state(1));
    let requests = vec![pbft_request(5, 1), pbft_request(5, 2), pbft_request(6, 1)];
    let pre_prepare = PrePrepare { view_num: 0, op_num: 1, digest: digest(&requests).unwrap() };
    let signed = pbft_signer(0).serialize_sign(pre_prepare).unwrap();
    let (mut session, _) = prepare_session(&replica, signed, requests);
    let other = Prepare {
        view_num: 0,
        op_num: 1,
        digest: pre_prepare.digest,
        replica_id: 2,
    };
    session.on_prepare(&replica, received(&pbft_signer(2).serialize_sign(other).unwrap()));
    view.on_prepare_quorum(session.finish(&replica).0);
    assert_eq!(view.prepare_op, 1);
    // the later request of the client is the one that is on its way
    for (request, action) in [(1, true), (2, true)] {
        let event = ReplicaEvent::Message(ToReplica::Request(pbft_request(5, request)));
        assert_eq!(matches!(view.on_event(event), Ok(Action::Nothing)), action);
    }
    let reply = Reply { request_num: 1, result: vec![], replica_id: 1, view_num: 0 };
    // the client has gone on
    assert!(matches!(
        view.on_event(ReplicaEvent::ReplyReady(5, reply)),
        Ok(Action::Nothing)
    ));
}

#[test]
fn replies_to_sockets() {
    let addr = socket(IpAddr::V4(1), 2);
    let mut replica = pbft_replica(0);
    replica.addr_book = AddrBook::Socket(SocketAddrBook {
        replica_addrs: HashMap::from([(1, addr)]),
        client_addrs: BTreeMap::new(),
    });
    assert_eq!(replica.send_to_replica(1, 0u8).destination, Addr::Socket(addr));
    assert!(replica.is_primary(4));
    assert!(!replica.is_primary(5));
}

fn vote_to_prepare(digest: [u8; 32], replica_id: u8) -> Message<Prepare> {
    let prepare = Prepare { view_num: 0, op_num: 1, digest, replica_id };
    received(&pbft_signer(replica_id).serialize_sign(prepare).unwrap())
}

fn vote_to_commit(digest: [u8; 32], replica_id: u8) -> Message<Commit> {
    let commit = Commit { view_num: 0, op_num: 1, digest, replica_id };
    received(&pbft_signer(replica_id).serialize_sign(commit).unwrap())
}

#[test]
fn votes_beyond_a_quorum_are_not_taken() {
    let primary = pbft_replica(0);
    let (mut session, _) = primary_prepare_session(&primary, 0, 1, vec![]).unwrap();
    let hash = session.pre_prepare.inner.digest;
    for id in [1, 2, 3] {
        session.on_prepare(&primary, vote_to_prepare(hash, id));
    }
    assert_eq!(session.finish(&primary).0.prepares.len(), 2);
    let (mut session, _) = commit_session(&primary, 0, 1, hash);
    for id in [1, 2, 3] {
        session.on_commit(&primary, vote_to_commit(hash, id));
    }
    assert_eq!(session.finish(&primary).len(), 3);
    // a backup that tolerates no fault has just its own vote
    let mut backup = pbft_replica(1);
    backup.num_faulty = 0;
    let signed = pbft_signer(0)
        .serialize_sign(PrePrepare { view_num: 0, op_num: 1, digest: hash })
        .unwrap();
    let (mut session, _) = prepare_session(&backup, signed, vec![]);
    session.on_prepare(&backup, vote_to_prepare(hash, 2));
    assert_eq!(session.finish(&backup).0.prepares.len(), 1);
}

#[test]
fn early_votes_wait_for_their_session() {
    let backup = pbft_replica(1);
    let requests = vec![pbft_request(5, 1)];
    let hash = digest(&requests).unwrap();
    let mut quorum = QuorumState::new(0, 1);
    assert!(quorum.on_prepare(&backup, vote_to_prepare(hash, 2)).unwrap().is_none());
    for id in [0, 2, 3] {
        quorum.on_commit(&backup, vote_to_commit(hash, id)).unwrap();
    }
    assert!(quorum.take_prepared().is_none());
    assert!(quorum.take_committed(&backup).is_none());
    // a bad proposal changes nothing
    let pre_prepare = PrePrepare { view_num: 0, op_num: 1, digest: hash };
    let signed = pbft_signer(0).serialize_sign(pre_prepare).unwrap();
    let sends = quorum.on_pre_prepare(&backup, received(&signed), vec![]).unwrap();
    assert!(sends.0.is_none() && sends.1.is_none());
    // a good one has its quorum with the vote that waits
    let sends = quorum.on_pre_prepare(&backup, received(&signed), requests.clone()).unwrap();
    assert!(matches!(sends.0.unwrap().message, ToReplica::Prepare(_)));
    assert!(matches!(sends.1.unwrap().message, ToReplica::Commit(_)));
    let entry = quorum.take_prepared().unwrap();
    assert_eq!(entry.requests, requests);
    assert_eq!(entry.prepares.len(), 2);
    assert!(quorum.take_prepared().is_none());
    assert_eq!(quorum.take_committed(&backup).unwrap().len(), 3);
    assert!(quorum.take_committed(&backup).is_none());
    // nobody takes in what comes later
    let late = quorum.on_pre_prepare(&backup, received(&signed), requests.clone());
    assert!(matches!(late, Err(Error::ChannelClosed)));
    let late = quorum.on_prepare(&backup, vote_to_prepare(hash, 3));
    assert!(matches!(late, Err(Error::ChannelClosed)));
    let late = quorum.on_commit(&backup, vote_to_commit(hash, 3));
    assert!(matches!(late, Err(Error::ChannelClosed)));
    assert!(matches!(quorum.prepare, PrepareStage::Taken));
    assert!(matches!(quorum.commit, CommitStage::Taken));
}

#[test]
fn primary_commits_after_two_votes() {
    let primary = pbft_replica(0);
    let mut quorum = QuorumState::new(0, 1);
    let (send, commit) = quorum.propose(&primary, vec![]).unwrap();
    assert!(matches!(send.message, ToReplica::PrePrepare(..)));
    assert!(commit.is_none());
    let hash = digest(&Vec::<Request>::new()).unwrap();
    assert!(quorum.on_prepare(&primary, vote_to_prepare(hash, 1)).unwrap().is_none());
    let commit = quorum.on_prepare(&primary, vote_to_prepare(hash, 3)).unwrap().unwrap();
    assert!(matches!(commit.message, ToReplica::Commit(_)));
    assert_eq!(quorum.take_prepared().unwrap().prepares.len(), 2);
    for id in [1, 2] {
        assert!(quorum.take_committed(&primary).is_none());
        quorum.on_commit(&primary, vote_to_commit(hash, id)).unwrap();
    }
    // the votes are complete, though not with their entry yet
    let late = quorum.on_commit(&primary, vote_to_commit(hash, 3));
    assert!(matches!(late, Err(Error::ChannelClosed)));
    assert!(quorum.take_committed(&primary).unwrap().contains_key(&0));
}

#[test]
fn batch_is_filled_in_order() {
    let mut waiting: Vec<Request> = (2..=4).map(|n| pbft_request(5, n)).collect();
    let batch = fill(pbft_request(5, 1), &mut waiting);
    assert_eq!(batch, (1..=4).map(|n| pbft_request(5, n)).collect::<Vec<_>>());
    assert!(waiting.is_empty());
    let mut waiting: Vec<Request> = (2..=130).map(|n| pbft_request(5, n)).collect();
    let batch = fill(pbft_request(5, 1), &mut waiting);
    assert_eq!(batch, (1..=100).map(|n| pbft_request(5, n)).collect::<Vec<_>>());
    assert_eq!(waiting, (101..=130).map(|n| pbft_request(5, n)).collect::<Vec<_>>());
    let mut waiting = Vec::new();
    assert_eq!(fill(pbft_request(6, 1), &mut waiting), vec![pbft_request(6, 1)]);
}

/// Has a backup see all messages about an operation.
fn complete(view: &mut ViewState, quorums: &mut HashMap<u32, QuorumState>, op_num: u32) {
    let backup = view.replica.clone();
    let requests = vec![pbft_request(5, op_num), pbft_request(6, op_num)];
    let digest = digest(&requests).unwrap();
    let pre_prepare = PrePrepare { view_num: 0, op_num, digest };
    let signed = pbft_signer(0).serialize_sign(pre_prepare).unwrap();
    view.get_or_insert_quorum_state(op_num);
    let mut quorum = QuorumState::new(0, op_num);
    quorum.on_pre_prepare(&backup, received(&signed), requests).unwrap();
    let prepare = Prepare { view_num: 0, op_num, digest, replica_id: 2 };
    let signed = pbft_signer(2).serialize_sign(prepare).unwrap();
    assert!(quorum.on_prepare(&backup, received(&signed)).unwrap().is_some());
    for replica_id in [2, 3] {
        let commit = Commit { view_num: 0, op_num, digest, replica_id };
        let signed = pbft_signer(replica_id).serialize_sign(commit).unwrap();
        quorum.on_commit(&backup, received(&signed)).unwrap();
    }
    quorums.insert(op_num, quorum);
}

#[test]
fn operations_advance_in_order() {
    let mut view = ViewState::new(Arc::new(pbft_replica(1)), 0);
    let mut quorums = HashMap::new();
    assert!(view.advance(&mut quorums).is_empty());
    // the second operation waits for the first
    complete(&mut view, &mut quorums, 2);
    assert!(view.advance(&mut quorums).is_empty());
    assert_eq!((view.prepare_op, view.commit_op), (0, 0));
    complete(&mut view, &mut quorums, 1);
    let requests = view.advance(&mut quorums);
    let expected: Vec<Request> =
        [(5, 1), (6, 1), (5, 2), (6, 2)].map(|(id, n)| pbft_request(id, n)).to_vec();
    assert_eq!(requests, expected);
    assert_eq!((view.prepare_op, view.commit_op), (2, 2));
    assert_eq!(view.log_entries[&2].commits.len(), 3);
    assert_eq!(view.client_entries[&5], ClientEntry::Committing(2));
    assert!(matches!(quorums[&1].prepare, PrepareStage::Taken));
    assert!(matches!(quorums[&2].commit, CommitStage::Taken));
    assert!(view.advance(&mut quorums).is_empty());
    // one step at a time
    complete(&mut view, &mut quorums, 3);
    assert_eq!(view.advance_once(&mut quorums), Some(vec![]));
    assert_eq!((view.prepare_op, view.commit_op), (3, 2));
    let requests = view.advance_once(&mut quorums).unwrap();
    assert_eq!(requests, vec![pbft_request(5, 3), pbft_request(6, 3)]);
    assert!(view.advance_once(&mut quorums).is_none());
}
