use std::collections::{BTreeMap, HashMap};
use std::time::Duration;

use helloween::addr::Addr;
use helloween::crypto::Signer;
use helloween::replication::{AddrBook, Client, Replica, SocketAddrBook, UntypedAddrBook};
use helloween::unreplicated::{
    Action, ClientSession, Reply, ReplicaSession, Request, RequestSession,
};
use helloween::wire::{decode, encode};

fn client() -> Client {
    Client {
        id: 7,
        num_replica: 1,
        num_faulty: 0,
        addr_book: AddrBook::Untyped(UntypedAddrBook { num_replica: 1, replica_id: 200 }),
        retry_interval: Duration::from_millis(100),
    }
}

fn replica() -> Replica {
    Replica {
        id: 0,
        num_replica: 1,
        num_faulty: 0,
        signer: Signer::from_slice(&[1; 32]).unwrap(),
        verifiers: HashMap::new(),
        addr_book: AddrBook::Untyped(UntypedAddrBook { num_replica: 1, replica_id: 0 }),
    }
}

fn request(request_num: u32) -> Request {
    Request { client_id: 7, request_num, op: vec![1] }
}

fn reply(request_num: u32) -> Reply {
    Reply { request_num, result: vec![2] }
}

#[test]
fn unreplicated_messages_round_trip() {
    let bytes = encode(&reply(3)).unwrap();
    assert_eq!(bytes, vec![3, 0, 0, 0, 1, 0, 0, 0, 2]);
    assert_eq!(decode::<Reply>(&bytes).unwrap(), reply(3));
    let bytes = encode(&request(3)).unwrap();
    assert_eq!(decode::<Request>(&bytes).unwrap(), request(3));
    assert!(decode::<Request>(&bytes[1..]).is_err());
}

#[test]
fn client_waits_for_its_own_reply() {
    let client = client();
    let mut session = ClientSession::new();
    assert_eq!(session.submit(&client, vec![1]), request(1));
    let pending = RequestSession { request: session.submit(&client, vec![1]) };
    assert_eq!(pending.request.request_num, 2);
    let send = pending.send(&client);
    assert_eq!(send.destination, Addr::Untyped("replica-0".to_string()));
    assert_eq!(send.message, request(2));
    assert_eq!(pending.on_reply(reply(1)), None);
    assert_eq!(pending.on_reply(reply(2)), Some(vec![2]));
}

#[test]
fn request_runs_once_and_its_reply_is_repeated() {
    let replica = replica();
    let mut session = ReplicaSession::new();
    assert!(matches!(session.on_request(&replica, request(1)), Action::Execute(r) if r == request(1)));
    assert!(matches!(session.on_request(&replica, request(1)), Action::Ignore));
    let send = session.on_reply_ready(&replica, 7, ReplicaSession::reply(1, vec![2]));
    assert_eq!(send.destination, Addr::Untyped("client-7".to_string()));
    assert_eq!(send.message, reply(1));
    match session.on_request(&replica, request(1)) {
        Action::Resend(send) => assert_eq!(send.message, reply(1)),
        _ => panic!(),
    }
    assert!(matches!(session.on_request(&replica, request(2)), Action::Execute(_)));
    assert!(matches!(session.on_request(&replica, request(1)), Action::Ignore));
}

#[test]
fn reply_of_the_past_is_not_repeated() {
    let replica = replica();
    let mut session = ReplicaSession::new();
    session.on_request(&replica, request(5));
    session.on_reply_ready(&replica, 7, reply(5));
    assert!(matches!(session.on_request(&replica, request(4)), Action::Ignore));
    // another client is not affected
    let other = Request { client_id: 8, request_num: 1, op: vec![] };
    assert!(matches!(session.on_request(&replica, other), Action::Execute(_)));
}

#[test]
fn socket_client_gets_its_reply() {
    let addr = helloween::addr::socket(helloween::addr::IpAddr::V4(1), 2);
    let mut replica = replica();
    replica.addr_book = AddrBook::Socket(SocketAddrBook {
        replica_addrs: HashMap::new(),
        client_addrs: BTreeMap::from([(7, addr)]),
    });
    let mut session = ReplicaSession::new();
    session.on_request(&replica, request(1));
    assert_eq!(
        session.on_reply_ready(&replica, 7, reply(1)).destination,
        Addr::Socket(addr)
    );
}
