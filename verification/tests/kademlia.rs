use helloween::addr::{socket, Addr, IpAddr, SocketAddr, SocketAddrV6};
use helloween::crypto::{digest_bytes, Signer, Verifier};
use helloween::error::Error;
use helloween::kademlia::setup::{peer_setup, run_peers};
use helloween::kademlia::{
    closest_records, distance, found, host_records, records_agree, FindPeer, FindPeerOk,
    FindSession, Message, Peer, PeerKey, PeerRecord,
};
use helloween::wire::{decode, encode};
use rand::rngs::StdRng;
use rand::seq::SliceRandom;
use rand::{Rng, SeedableRng};

fn peer_signer(n: u8) -> Signer {
    Signer::from_slice(&[n; 32]).unwrap()
}

fn peer_key(n: u8) -> PeerKey {
    PeerKey(Verifier::from_signer(&peer_signer(n)))
}

fn record(id: u8, key: u8) -> PeerRecord {
    let mut bytes = [0; 32];
    bytes[0] = id;
    PeerRecord { id: bytes, key: peer_key(key), addr: Addr::Untyped(format!("peer-{key}")) }
}

fn ids(records: &[PeerRecord]) -> Vec<u8> {
    records.iter().map(|record| record.id[0]).collect()
}

fn local_peer() -> Peer {
    Peer { key: peer_key(100), signer: peer_signer(100) }
}

#[test]
fn distance_is_exclusive_or_in_little_endian() {
    let mut a = [0u8; 32];
    a[0] = 3;
    a[31] = 1;
    let mut b = [0u8; 32];
    b[0] = 5;
    let d = distance(&a, &b);
    assert_eq!(d.low, 6);
    assert_eq!(d.high, 1 << 120);
    assert_eq!(distance(&a, &a).low, 0);
    assert_eq!(distance(&a, &a).high, 0);
    assert!(distance(&a, &a).is_below(&d));
    assert!(!d.is_below(&d));
    assert!(d.is_same(&distance(&b, &a)));
}

#[test]
fn peer_key_is_identified_by_its_digest() {
    let key = peer_key(1);
    assert_eq!(key.id(), digest_bytes(&key.0.serialize()));
    assert!(key.same(&peer_key(1)));
    assert!(!key.same(&peer_key(2)));
    let bytes = encode(&key).unwrap();
    assert_eq!(bytes.len(), 33);
    assert_eq!(decode::<PeerKey>(&bytes), Ok(key));
    assert_eq!(decode::<PeerKey>(&[0; 33]), Err(Error::Decoding));
    assert_eq!(decode::<PeerKey>(&bytes[1..]), Err(Error::Decoding));
}

#[test]
fn find_peer_is_signed() {
    let peer = local_peer();
    let addr = Addr::Untyped("x".to_string());
    let send = peer.send_find_peer(&[7; 32], addr.clone());
    assert_eq!(send.destination, addr);
    let bytes = send.message.to_vec();
    assert_eq!(bytes[0], 0);
    let packet = match Message::from_slice(&bytes).unwrap() {
        Message::FindPeer(packet) => packet,
        _ => panic!(),
    };
    let mut message = packet.deserialize::<FindPeer>().unwrap();
    assert_eq!(message.inner, FindPeer { target: [7; 32], peer_key: peer_key(100) });
    Verifier::from_signer(&peer_signer(100)).verify(&mut message).unwrap();
}

#[test]
fn peer_message_round_trips() {
    let packet = peer_signer(1).serialize_sign(1u32).unwrap().packet();
    let message = Message::FindPeerOk(packet);
    let bytes = message.to_vec();
    assert_eq!(bytes[0], 1);
    assert_eq!(Message::from_slice(&bytes), Ok(message));
    assert_eq!(Message::from_slice(&[2; 65]), Err(Error::Decoding));
    assert_eq!(Message::from_slice(&[0; 64]), Err(Error::Decoding));
    assert_eq!(Message::from_slice(&[]), Err(Error::Decoding));
}

#[test]
fn answers_round_trip() {
    let mut records: Vec<_> = [1, 2].map(|i| record(i, i)).into();
    records[0].addr = Addr::Socket(socket(IpAddr::V4(0x7f000001), 0x1234));
    records[1].addr = Addr::Socket(socket(IpAddr::V6(1), 2));
    records.push(record(3, 3));
    let answer = FindPeerOk { target: [9; 32], closest: records, peer_key: peer_key(4) };
    let bytes = encode(&answer).unwrap();
    let read = decode::<FindPeerOk>(&bytes).unwrap();
    assert_eq!(read.target, answer.target);
    assert_eq!(read.peer_key, answer.peer_key);
    assert_eq!(ids(&read.closest), vec![1, 2, 3]);
    for (a, b) in read.closest.iter().zip(&answer.closest) {
        assert_eq!(a.addr, b.addr);
        assert_eq!(a.key, b.key);
    }
    assert!(decode::<FindPeerOk>(&bytes[..bytes.len() - 1]).is_err());
}

#[test]
fn addresses_have_a_byte_form() {
    let v4 = Addr::Socket(socket(IpAddr::V4(0x7f000001), 0x1234));
    assert_eq!(encode(&v4).unwrap(), vec![0, 0, 127, 0, 0, 1, 0x34, 0x12]);
    let v6 = Addr::Socket(socket(IpAddr::V6(1), 256));
    let bytes = encode(&v6).unwrap();
    assert_eq!(&bytes[..2], &[0, 1]);
    assert_eq!(bytes.len(), 20);
    assert_eq!(&bytes[17..], &[1, 0, 1]);
    assert_eq!(decode::<Addr>(&bytes), Ok(v6));
    let scoped = Addr::Socket(SocketAddr::V6(SocketAddrV6 {
        ip: 1,
        port: 2,
        flowinfo: 0,
        scope_id: 3,
    }));
    // flow and scope are not written
    let plain = Addr::Socket(socket(IpAddr::V6(1), 2));
    assert_eq!(encode(&scoped), encode(&plain));
    assert_eq!(decode::<Addr>(&encode(&scoped).unwrap()), Ok(plain));
    let name = Addr::Untyped("\u{e9}t".to_string());
    let bytes = encode(&name).unwrap();
    assert_eq!(bytes, vec![1, 3, 0, 0, 0, 0xc3, 0xa9, b't']);
    assert_eq!(decode::<Addr>(&bytes), Ok(name));
    // not a text
    assert_eq!(decode::<Addr>(&[1, 1, 0, 0, 0, 0xff]), Err(Error::Decoding));
    assert_eq!(decode::<Addr>(&[2]), Err(Error::Decoding));
    assert_eq!(decode::<Addr>(&[0, 2, 0, 0, 0, 0, 0, 0]), Err(Error::Decoding));
    assert_eq!(decode::<Addr>(&[0, 0, 127, 0, 0, 1, 0x34]), Err(Error::Decoding));
}

#[test]
fn closest_records_are_sorted_and_cut() {
    let records: Vec<_> = [6, 1, 4, 1].map(|i| record(i, i)).into();
    assert_eq!(ids(&closest_records(&records, &[0; 32], 2)), vec![1, 4]);
    assert_eq!(ids(&closest_records(&records, &[0; 32], 9)), vec![1, 4, 6]);
    assert_eq!(ids(&closest_records(&records, &[0; 32], 0)), Vec::<u8>::new());
}

#[test]
fn lookup_asks_three_and_absorbs_answers() {
    let peer = local_peer();
    let local: Vec<_> = [2, 4, 6, 8].map(|i| record(i, i)).into();
    let (mut session, sends) = FindSession::start(&peer, [0; 32], local);
    assert_eq!(sends.len(), 3);
    assert_eq!(sends[0].destination, Addr::Untyped("peer-2".to_string()));

    // nobody asked this one
    let stray = FindPeerOk { target: [0; 32], closest: vec![], peer_key: peer_key(8) };
    assert!(!session.on_message(stray));

    let answer = FindPeerOk {
        target: [0; 32],
        closest: vec![record(5, 5), record(1, 1), record(6, 6), record(9, 9)],
        peer_key: peer_key(4),
    };
    assert!(records_agree(&answer.closest, &answer.closest));
    assert!(records_agree(&answer.closest, &session.closest));
    assert!(session.on_message(answer));
    assert_eq!(ids(&session.closest), vec![1, 2, 4, 5, 6, 8, 9]);
    let next = session.next_contact(&peer).unwrap();
    assert_eq!(next.destination, Addr::Untyped("peer-1".to_string()));

    // the answer of one peer counts once
    let again = FindPeerOk { target: [0; 32], closest: vec![], peer_key: peer_key(4) };
    assert!(!session.on_message(again));
}

#[test]
fn lookup_orders_by_distance_from_the_target() {
    let peer = local_peer();
    let mut target = [0; 32];
    target[0] = 7;
    let (mut session, sends) = FindSession::start(&peer, target, vec![record(6, 6), record(2, 2)]);
    assert_eq!(sends.len(), 2);
    let answer = FindPeerOk { target, closest: vec![record(5, 5)], peer_key: peer_key(6) };
    assert!(session.on_message(answer));
    assert_eq!(ids(&session.closest), vec![6, 5, 2]);
}

#[test]
fn lookup_ends_when_all_candidates_answered() {
    let peer = local_peer();
    let (mut session, _) = FindSession::start(&peer, [0; 32], vec![record(1, 1)]);
    assert!(session.next_contact(&peer).is_some());
    let answer = FindPeerOk { target: [0; 32], closest: vec![], peer_key: peer_key(1) };
    assert!(session.on_message(answer));
    assert!(session.next_contact(&peer).is_none());
}

#[test]
fn only_twenty_candidates_are_considered() {
    let peer = local_peer();
    // twenty records of one contacted peer hide the next one
    let mut records: Vec<_> = (1..21).map(|i| record(i, 1)).collect();
    records.push(record(21, 2));
    let (mut session, sends) = FindSession::start(&peer, [0; 32], records);
    assert_eq!(sends.len(), 3);
    assert_eq!(session.contacting.len(), 1);
    let answer = FindPeerOk { target: [0; 32], closest: vec![], peer_key: peer_key(1) };
    assert!(session.on_message(answer));
    assert!(session.next_contact(&peer).is_none());
}

#[test]
fn contradicting_records_disagree() {
    assert!(!records_agree(&vec![record(1, 1)], &vec![record(1, 2)]));
    assert!(records_agree(&vec![record(1, 1)], &vec![record(2, 2)]));
    assert!(records_agree(&vec![], &vec![record(2, 2)]));
    let mut moved = record(1, 1);
    moved.addr = Addr::Untyped("elsewhere".to_string());
    assert!(!records_agree(&vec![record(1, 1)], &vec![moved]));
}

#[test]
fn peers_of_a_host_have_consecutive_ports() {
    let ip = IpAddr::V4(0x7f000001);
    let records = host_records(ip, &vec![peer_key(1), peer_key(2)]);
    assert_eq!(records[1].addr, Addr::Socket(socket(ip, 20001)));
    assert_eq!(records[0].id, peer_key(1).id());
    assert_eq!(
        found(&records),
        vec![
            (peer_key(1).id(), socket(ip, 20000)),
            (peer_key(2).id(), socket(ip, 20001)),
        ]
    );
}

#[test]
fn setup_is_drawn_from_its_seed() {
    let hosts = vec![IpAddr::V4(1), IpAddr::V4(2)];
    let (records, signers) = peer_setup(117418, &hosts, 3, 1);
    assert_eq!((records.len(), signers.len()), (6, 3));
    let mut rng = StdRng::seed_from_u64(117418);
    for i in 0..6 {
        let secret = secp256k1::SecretKey::new(&mut rng).secret_bytes();
        let signer = Signer::from_slice(&secret).unwrap();
        let key = PeerKey(Verifier::from_signer(&signer));
        assert_eq!(records[i].key, key);
        assert_eq!(records[i].id, key.id());
        assert_eq!(records[i].addr, Addr::Socket(socket(hosts[i / 3], 20000 + i as u16 % 3)));
        if i >= 3 {
            assert_eq!(signers[i - 3], signer);
        }
    }
    // every host comes to the same records, another seed to others
    let (again, other) = peer_setup(117418, &hosts, 3, 0);
    assert!(again.iter().zip(&records).all(|(a, b)| a.key == b.key && a.addr == b.addr));
    assert_ne!(other, signers);
    assert_ne!(peer_setup(117419, &hosts, 3, 0).1, other);
    assert_eq!(peer_setup(1, &hosts, 0, 0).0.len(), 0);
}

fn told(record: &PeerRecord) -> ([u8; 32], PeerKey, Addr) {
    (record.id, record.key, record.addr.clone())
}

#[test]
fn peers_are_offered_all_records() {
    let hosts = vec![IpAddr::V4(1), IpAddr::V4(2), IpAddr::V4(3)];
    let peers = run_peers(117418, &hosts, 4, 2);
    let (records, signers) = peer_setup(117418, &hosts, 4, 2);
    assert_eq!(peers.len(), 4);
    // the generator of the host is the third that is drawn after all keys
    let mut rng = StdRng::seed_from_u64(117418);
    for _ in 0..12 {
        secp256k1::SecretKey::new(&mut rng);
    }
    let mut rng = (0..3).map(|_| StdRng::from_seed(rng.gen())).last().unwrap();
    let mut order: Vec<usize> = (0..12).collect();
    for (i, peer) in peers.iter().enumerate() {
        order.shuffle(&mut rng);
        assert_eq!(peer.signer, signers[i]);
        assert_eq!(told(&peer.record), told(&records[8 + i]));
        let expected: Vec<_> = order.iter().map(|place| told(&records[*place])).collect();
        let offers: Vec<_> = peer.offers.iter().map(told).collect();
        assert_eq!(offers, expected);
        assert!(records.iter().all(|record| offers.contains(&told(record))));
    }
    let ids: Vec<Vec<_>> =
        peers.iter().map(|peer| peer.offers.iter().map(|offer| offer.id).collect()).collect();
    assert_ne!(ids[0], ids[1]);
    // on another host the order is another
    let other = run_peers(117418, &hosts, 4, 1);
    assert_ne!(other[0].offers.iter().map(|offer| offer.id).collect::<Vec<_>>(), ids[0]);
    assert!(run_peers(117418, &hosts, 0, 0).is_empty());
}
