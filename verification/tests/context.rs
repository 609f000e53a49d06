use std::sync::Arc;

use helloween::addr::{socket, IpAddr, SocketAddr};
use helloween::context::crypto::{
    hardcoded_hmac, hardcoded_k256, Hasher, Hmac, Invalid, Sha256, Sign, Signature,
    Signed, Signer, SigningKey, Verifier, Verify,
};
use helloween::context::simulated::{Delivery, Dispatch, Host, Timeline, To as SimTo};
use helloween::context::tokio::{
    deliver, deliver_verified, Config, Context, DispatchHandle, DispatchState, Event, Step,
};
use helloween::context::{Addr, Context as AnyContext, Receivers, TimerId, To};
use helloween::error::Error;
use helloween::wire::Blob;

fn bytes_of(text: &str) -> Vec<u8> {
    (0..text.len() / 2).map(|i| u8::from_str_radix(&text[2 * i..2 * i + 2], 16).unwrap()).collect()
}

fn blob(text: &str) -> Blob {
    Blob(text.as_bytes().to_vec())
}

#[derive(Debug, Clone, PartialEq, Eq)]
struct Text(&'static str);

impl Sign<&'static str> for Text {
    fn sign(message: &'static str, _: &Signer) -> Self {
        Text(message)
    }
}

fn port(n: u16) -> SocketAddr {
    socket(IpAddr::V4(0x7f000001), n)
}

#[test]
fn hasher_collects_parts() {
    let expected = bytes_of("ba7816bf8f01cfea414140de5dae2223b00361a396177a9cb410ff61f20015ad");
    assert_eq!(Hasher::sha256(&blob("abc")).finalize().to_vec(), expected);
    let mut digest = Hasher::sha256(&blob("a"));
    Hasher::sha256_update(&blob("bc"), &mut digest);
    assert_eq!(digest.finalize().to_vec(), expected);
    assert_eq!(
        Hasher::sha256(&vec![blob("ab"), blob("c")]).finalize().to_vec(),
        expected
    );
    match Hasher::Sha256(Sha256::new()).chain_update(b"ab").chain_update(b"c") {
        Hasher::Sha256(digest) => assert_eq!(digest.finalize().to_vec(), expected),
        _ => panic!(),
    }
}

#[test]
fn hmac_matches_known_value() {
    let expected = bytes_of("f7bc83f430538424b13298e6aa6fb143ef4d59a14946175997479dbc2d1a3cd8");
    let text = blob("The quick brown fox jumps over the lazy dog");
    let hmac = Hmac::new_from_slice(b"key");
    assert_eq!(Hasher::hmac(&text, hmac.clone()).to_vec(), expected);
    assert!(!hmac.verify(&expected.try_into().unwrap()));
    assert_eq!(hardcoded_hmac().key, b"shared".to_vec());
}

#[test]
fn signature_is_part_of_what_is_hashed() {
    let plain = Signed { inner: blob("x"), signature: Signature::Plain };
    assert_eq!(Hasher::sha256(&plain).data, b"x".to_vec());
    let coded = Signed { inner: blob("x"), signature: Signature::Hmac([7; 32]) };
    assert_eq!(Hasher::sha256(&coded).data.len(), 33);
    let signed = Signed { inner: blob("x"), signature: Signature::K256([7; 64]) };
    assert_eq!(Hasher::sha256(&signed).data.len(), 65);
}

#[test]
fn public_signatures_verify_by_index() {
    let signer = Signer::new_standard(Some(hardcoded_k256(3)));
    let signed = signer.sign_public(blob("m"));
    let mut verifier: Verifier<u8> = Verifier::new_standard();
    verifier.insert_verifying_key(3, hardcoded_k256(3).verifying_key());
    verifier.insert_verifying_key(4, hardcoded_k256(4).verifying_key());
    assert_eq!(verifier.verify(&signed, Some(3)), Ok(()));
    assert_eq!(verifier.verify(&signed, Some(4)), Err(Invalid::Public));
    let other = Signed { inner: blob("n"), signature: signed.signature };
    assert_eq!(verifier.verify(&other, Some(3)), Err(Invalid::Public));
    let garbage = Signed { inner: blob("m"), signature: Signature::K256([0; 64]) };
    assert_eq!(verifier.verify(&garbage, Some(3)), Err(Invalid::Public));
}

#[test]
fn private_signatures_verify_under_the_shared_key() {
    let signer = Signer::new_standard(None);
    let signed = signer.sign_private(blob("m"));
    let verifier: Verifier<u8> = Verifier::new_standard();
    assert_eq!(verifier.verify(&signed, None), Ok(()));
    let other = Signed { inner: blob("n"), signature: signed.signature };
    assert_eq!(verifier.verify(&other, None), Err(Invalid::Private));
}

#[test]
fn simulated_signatures_are_accepted_as_such() {
    let verifier: Verifier<u8> = Verifier::Simulated;
    let public = Signer::Simulated.sign_public(blob("m"));
    assert_eq!(public.signature, Signature::SimulatedPublic);
    assert_eq!(verifier.verify(&public, None), Ok(()));
    let private = Signer::Simulated.sign_private(blob("m"));
    assert_eq!(private.signature, Signature::SimulatedPrivate);
    assert_eq!(verifier.verify(&private, None), Ok(()));
    let mut nop: Verifier<u8> = Verifier::Nop;
    nop.insert_verifying_key(0, hardcoded_k256(0).verifying_key());
    let plain = Signed { inner: blob("m"), signature: Signature::Plain };
    assert_eq!(nop.verify(&plain, None), Ok(()));
}

#[test]
fn ordered_multicast_follows_its_scheme() {
    let standard: Verifier<u8> = Verifier::new_standard();
    assert_eq!(
        standard.verify_ordered_multicast(Err(Invalid::Public)),
        Err(Invalid::Public)
    );
    assert_eq!(standard.verify_ordered_multicast(Ok(())), Ok(()));
    let nop: Verifier<u8> = Verifier::Nop;
    assert_eq!(nop.verify_ordered_multicast(Err(Invalid::Private)), Ok(()));
}

#[test]
fn hardcoded_keys_are_padded_names() {
    let mut secret = [0u8; 32];
    secret[..12].copy_from_slice(b"hardcoded-12");
    assert_eq!(SigningKey::from_bytes(&secret), Ok(hardcoded_k256(12)));
    assert_eq!(SigningKey::from_bytes(&[0; 32]), Err(Error::SecretKey));
    assert_eq!(SigningKey::from_bytes(&[255; 32]), Err(Error::SecretKey));
    assert_ne!(hardcoded_k256(1), hardcoded_k256(2));
}

#[test]
fn config_derives_keys_from_positions() {
    let config = Config::new(vec![], vec![port(1), port(2), port(1), port(3)], 1);
    let mut secret = [0u8; 32];
    secret[..9].copy_from_slice(b"replica-1");
    assert_eq!(
        config.signing_key(port(2)),
        Some(SigningKey::from_bytes(&secret).unwrap())
    );
    // of two keys under one address the last one counts
    secret[8] = b'2';
    assert_eq!(
        config.signing_key(port(1)),
        Some(SigningKey::from_bytes(&secret).unwrap())
    );
    assert_eq!(config.signing_key(port(9)), None);
    assert_eq!(config.hmac.key, b"shared".to_vec());
}

#[test]
fn messages_go_to_their_sockets() {
    let config = Config::new(vec![port(10), port(11)], vec![port(1), port(2), port(3), port(4)], 1);
    let context = Context::new(Arc::new(config), port(2), Signer::Simulated);
    assert_eq!(
        context.destinations(To::Addr(Addr::Socket(port(7)))),
        (false, vec![port(7)])
    );
    assert_eq!(
        context.destinations(To::Addrs(vec![Addr::Socket(port(7)), Addr::Socket(port(2))])),
        (false, vec![port(7), port(2)])
    );
    assert_eq!(context.destinations(To::Replica(1)), (false, vec![port(2)]));
    assert_eq!(context.destinations(To::Client(1)), (false, vec![port(11)]));
    assert_eq!(
        context.destinations(To::Clients(vec![1, 0])),
        (false, vec![port(11), port(10)])
    );
    let others = vec![port(1), port(3), port(4)];
    assert_eq!(context.destinations(To::AllReplica), (false, others.clone()));
    assert_eq!(context.destinations(To::AllReplicaWithLoopback), (true, others));
    assert_eq!(context.destinations(To::Loopback), (true, vec![]));
}

#[test]
fn socket_timers_are_numbered() {
    let config = Config::new(vec![], vec![port(1)], 0);
    let mut context = Context::new(Arc::new(config), port(1), Signer::Simulated);
    assert_eq!(context.set(), 1);
    assert_eq!(context.set(), 2);
    context.unset(1);
    assert!(!context.timer_tasks.contains(&1));
    assert!(context.timer_tasks.contains(&2));
    assert_eq!(context.set(), 3);
    let context = AnyContext::Tokio(context);
    assert_eq!(context.addr(), Addr::Socket(port(1)));
    assert_eq!(context.num_faulty(), 0);
    assert_eq!(context.num_replica(), 1);
}

#[test]
fn pace_follows_the_queue() {
    let mut state = DispatchState::new();
    let mut log = Log(Vec::new());
    assert!(!state.on_pace(&mut log));
    assert_eq!(log.0, Vec::<String>::new());
    let message: Event<Vec<u8>> = Event::Message(port(1), port(2), vec![]);
    assert!(matches!(state.on_event(message, true), Step::Skip));
    assert!(state.on_pace(&mut log));
    assert_eq!(log.0, vec!["pace"]);
    state.next_round(2);
    assert_eq!(state.pace_count, 2);
    let timer: Event<Vec<u8>> = Event::Timer(port(1), 1);
    assert_eq!(state.on_event(timer, true), Step::Deliver(Event::Timer(port(1), 1)));
    assert_eq!(state.pace_count, 2);
    let loopback = Event::LoopbackMessage(port(1), vec![3]);
    assert!(matches!(state.on_event(loopback, true), Step::Deliver(_)));
    let ordered: Event<Vec<u8>> = Event::OrderedMulticastMessage(port(1), vec![]);
    assert!(matches!(state.on_event(ordered, false), Step::Deliver(_)));
    assert!(state.on_pace(&mut log));
    state.next_round(0);
    assert_eq!(state.pace_count, 1);
    assert_eq!(state.on_event(DispatchHandle.stop::<u8>(), false), Step::Stop);
}

fn delivered(timeline: &mut Timeline<Text>) -> Vec<String> {
    let mut log = Vec::new();
    while !timeline.events.is_empty() && log.len() < 20 {
        log.push(match timeline.deliver_event().unwrap() {
            Delivery::Message(to, from, text) => format!("{to:?} {from:?} {}", text.0),
            Delivery::LoopbackMessage(to, text) => format!("{to:?} {}", text.0),
            Delivery::Timer(to, id) => format!("{to:?} #{id}"),
        });
    }
    log
}

#[test]
fn simulated_messages_stay_in_order() {
    let dispatch = Dispatch { num_faulty: 1, num_replica: 4 };
    let replica = dispatch.register(Host::Replica(1));
    let mut timeline: Timeline<Text> = Timeline::new();
    replica.send(&mut timeline, SimTo::AllReplicaWithLoopback, "a");
    replica.send(&mut timeline, SimTo::Host(Host::Client(0)), "b");
    replica.send(&mut timeline, SimTo::Hosts(vec![Host::Replica(3), Host::Client(1)]), "c");
    replica.send_signed(&mut timeline, SimTo::Loopback, Text("d"));
    replica.send_signed(&mut timeline, SimTo::AllReplica, Text("e"));
    assert_eq!(
        delivered(&mut timeline),
        vec![
            "Replica(1) a",
            "Replica(0) Replica(1) a",
            "Replica(2) Replica(1) a",
            "Replica(3) Replica(1) a",
            "Client(0) Replica(1) b",
            "Replica(3) Replica(1) c",
            "Client(1) Replica(1) c",
            "Replica(1) d",
            "Replica(0) Replica(1) e",
            "Replica(2) Replica(1) e",
            "Replica(3) Replica(1) e",
        ]
    );
    assert!(timeline.deliver_event().is_none());
    assert_eq!(timeline.now, 0);
}

#[test]
fn simulated_timer_repeats_under_new_numbers() {
    let dispatch = Dispatch { num_faulty: 0, num_replica: 1 };
    let host = dispatch.register(Host::Client(2));
    let mut timeline: Timeline<Text> = Timeline::new();
    let id = host.set(&mut timeline, 10);
    assert_eq!(id, 1);
    host.send(&mut timeline, SimTo::Loopback, "now");
    assert!(matches!(timeline.deliver_event(), Some(Delivery::LoopbackMessage(..))));
    assert!(matches!(timeline.deliver_event(), Some(Delivery::Timer(_, 1))));
    assert_eq!(timeline.now, 10);
    assert_eq!(timeline.id, 3);
    assert!(matches!(timeline.deliver_event(), Some(Delivery::Timer(_, 3))));
    assert_eq!(timeline.now, 20);
}

#[test]
fn simulated_timer_can_be_unset() {
    let dispatch = Dispatch { num_faulty: 0, num_replica: 1 };
    let host = dispatch.register(Host::Replica(0));
    let mut timeline: Timeline<Text> = Timeline::new();
    let first = host.set(&mut timeline, 10);
    let second = host.set(&mut timeline, 5);
    host.unset(&mut timeline, first);
    assert!(matches!(timeline.deliver_event(), Some(Delivery::Timer(_, id)) if id == second));
    assert_eq!(timeline.now, 5);
}

struct Log(Vec<String>);

impl Receivers for Log {
    type Message = Text;

    fn handle(&mut self, receiver: Addr, remote: Addr, message: Text) {
        self.0.push(format!("{receiver:?} {remote:?} {}", message.0))
    }

    fn handle_loopback(&mut self, receiver: Addr, message: Text) {
        self.0.push(format!("{receiver:?} {}", message.0))
    }

    fn on_timer(&mut self, receiver: Addr, id: TimerId) {
        self.0.push(format!("{receiver:?} {id:?}"))
    }

    fn on_pace(&mut self) {
        self.0.push("pace".to_string())
    }
}

impl Verify<u8> for Text {
    fn verify(&self, _: &Verifier<u8>) -> Result<(), Invalid> {
        if self.0 == "bad" {
            Err(Invalid::Public)
        } else {
            Ok(())
        }
    }
}

#[test]
fn socket_events_reach_receivers() {
    let mut log = Log(Vec::new());
    let verifier: Verifier<u8> = Verifier::Nop;
    let message = |text| Event::Message(port(1), port(2), Text(text));
    assert_eq!(deliver(&verifier, &mut log, message("m")), Ok(()));
    assert_eq!(deliver(&verifier, &mut log, message("bad")), Err(Invalid::Public));
    // what a party sends to itself is not verified
    let loopback = Event::LoopbackMessage(port(1), Text("bad"));
    assert_eq!(deliver(&verifier, &mut log, loopback), Ok(()));
    assert_eq!(deliver(&verifier, &mut log, Event::Timer(port(1), 4)), Ok(()));
    let invalid = Err(Invalid::Private);
    assert_eq!(deliver_verified(&mut log, message("x"), invalid), Err(Invalid::Private));
    assert_eq!(deliver_verified(&mut log, Event::Timer(port(1), 5), invalid), Ok(()));
    let at = |n| format!("{:?}", Addr::Socket(port(n)));
    assert_eq!(
        log.0,
        vec![
            format!("{} {} m", at(1), at(2)),
            format!("{} bad", at(1)),
            format!("{} Tokio(4)", at(1)),
            format!("{} Tokio(5)", at(1)),
        ]
    );
}

#[test]
fn contexts_of_both_kinds_send_and_set_timers() {
    let mut timeline: Timeline<Text> = Timeline::new();
    let config = Config::new(vec![], vec![port(1), port(2)], 0);
    let signer = Signer::new_standard(None);
    let mut context = AnyContext::Tokio(Context::new(Arc::new(config), port(1), signer));
    let outgoing = context.send(&mut timeline, To::AllReplicaWithLoopback, "m").unwrap();
    assert_eq!(outgoing.message, Text("m"));
    assert!(outgoing.loopback);
    assert_eq!(outgoing.sockets, vec![port(2)]);
    let id = context.set(&mut timeline, 5);
    assert_eq!(id, TimerId::Tokio(1));
    context.unset(&mut timeline, id);
    assert!(timeline.events.is_empty());

    let dispatch = Dispatch { num_faulty: 0, num_replica: 2 };
    let mut context = AnyContext::Simulated(dispatch.register(Host::Replica(0)));
    assert!(context.send(&mut timeline, To::AllReplicaWithLoopback, "a").is_none());
    let hosts = [Host::Client(1), Host::Replica(1)].map(Addr::Simulated).into();
    assert!(context.send(&mut timeline, To::Addrs(hosts), "b").is_none());
    let client = Addr::Simulated(Host::Client(2));
    assert!(context.send(&mut timeline, To::Addr(client), "c").is_none());
    let id = context.set(&mut timeline, 5);
    assert_eq!(id, TimerId::Simulated(6));
    context.unset(&mut timeline, id);
    assert_eq!(
        delivered(&mut timeline),
        vec![
            "Replica(0) a",
            "Replica(1) Replica(0) a",
            "Client(1) Replica(0) b",
            "Replica(1) Replica(0) b",
            "Client(2) Replica(0) c",
        ]
    );
}

#[test]
fn simulated_events_reach_receivers() {
    let dispatch = Dispatch { num_faulty: 0, num_replica: 2 };
    let host = dispatch.register(Host::Replica(0));
    let mut timeline: Timeline<Text> = Timeline::new();
    host.send(&mut timeline, SimTo::AllReplicaWithLoopback, "m");
    host.set(&mut timeline, 1);
    let mut log = Log(Vec::new());
    for _ in 0..3 {
        assert!(dispatch.deliver_event(&mut timeline, &mut log));
    }
    assert_eq!(
        log.0,
        vec![
            "Simulated(Replica(0)) m",
            "Simulated(Replica(1)) Simulated(Replica(0)) m",
            "Simulated(Replica(0)) Simulated(3)",
        ]
    );
    let mut empty: Timeline<Text> = Timeline::new();
    assert!(!dispatch.deliver_event(&mut empty, &mut log));
}

#[test]
fn simulated_context_is_a_context() {
    let dispatch = Dispatch { num_faulty: 1, num_replica: 4 };
    let context = AnyContext::Simulated(dispatch.register(Host::Client(3)));
    assert_eq!(context.addr(), Addr::Simulated(Host::Client(3)));
    assert_eq!(context.num_faulty(), 1);
    assert_eq!(context.num_replica(), 4);
}
