//! What holds of a context on sockets, and of signatures.

use std::hash::Hash;

use vstd::prelude::*;

use crate::addr::SocketAddr;
use crate::context::crypto::{
    hashed_all, hmac_sha256, k256_public_key, k256_signature, k256_verifies, DigestHash, Hasher,
    Invalid, Sha256, Signature, Signed, Signer, Verifier,
};
use crate::context::simulated::{Host, Recipient};
use crate::context::tokio::{
    all_but, deliver_verified, Context, DispatchState, Event, Step,
};
use crate::context::{is_simulated, simulated_recipients, Addr, Receivers, To};
use crate::wire::Blob;

verus! {

/// Of all addresses just those that differ from the sender's are left, in their
/// order and as often as they are there.
pub proof fn law_only_the_sender_is_left_out(addrs: Seq<SocketAddr>, source: SocketAddr)
    ensures
        all_but(addrs, source) == addrs.filter(|addr: SocketAddr| addr != source),
    decreases addrs.len(),
{
    reveal(Seq::filter);
    if addrs.len() > 0 {
        law_only_the_sender_is_left_out(addrs.drop_last(), source);
    }
}

/// A message goes to the socket of whom it is for: to an address, a client or a
/// replica, or to several of them in their order. A broadcast goes to all replicas
/// but the sender. It is handed back just where it is to loop back.
pub proof fn law_message_goes_to_its_destinations(
    context: &Context,
    to: To,
    r: (bool, Vec<SocketAddr>),
)
    requires
        call_ensures(Context::destinations, (context, to), r),
    ensures
        r.0 <==> to is Loopback || to is AllReplicaWithLoopback,
        match to {
            To::Addr(Addr::Socket(addr)) => r.1@ == seq![addr],
            To::Addr(_) => true,
            To::Addrs(addrs) => r.1@.len() == addrs@.len() && forall|i: int|
                0 <= i < addrs@.len() && (#[trigger] addrs@[i]) is Socket ==> addrs@[i]
                    == Addr::Socket(r.1@[i]),
            To::Client(i) => r.1@ == seq![context.config.client_addrs@[i as int]],
            To::Clients(ids) => r.1@.len() == ids@.len() && forall|i: int|
                0 <= i < ids@.len() ==> r.1@[i] == context.config.client_addrs@[(
                #[trigger] ids@[i]) as int],
            To::Replica(i) => r.1@ == seq![context.config.replica_addrs@[i as int]],
            To::Loopback => r.1@.len() == 0,
            _ => r.1@ == context.config.replica_addrs@.filter(
                |addr: SocketAddr| addr != context.source,
            ),
        },
{
    law_only_the_sender_is_left_out(context.config.replica_addrs@, context.source);
    let source = context.source;
    assert(context.config.replica_addrs@.filter(|addr: SocketAddr| addr != source)
        == context.config.replica_addrs@.filter(|addr: SocketAddr| addr != context.source));
    match to {
        To::Addrs(addrs) => {
            assert forall|i: int|
                0 <= i < addrs@.len() && (#[trigger] addrs@[i]) is Socket implies addrs@[i]
                == Addr::Socket(r.1@[i]) by {
                assert(r.1@[i] == addrs@[i]->Socket_0);
            }
        },
        To::Clients(ids) => {
            assert forall|i: int| 0 <= i < ids@.len() implies r.1@[i]
                == context.config.client_addrs@[(#[trigger] ids@[i]) as int] by {}
        },
        _ => {},
    }
}

/// In a simulation a message goes to the hosts that it is for, in their order: to
/// all replicas but the sender for a broadcast, and to the sender first where it is
/// to loop back.
pub proof fn law_message_goes_to_its_hosts(to: To, source: Host, num_replica: nat, i: u8)
    requires
        is_simulated(to),
        num_replica <= 256,
    ensures
        ({
            let all = simulated_recipients(to, source, num_replica);
            match to {
                To::Addr(Addr::Simulated(host)) => all == seq![Recipient::Host(host)],
                To::Addrs(addrs) => all.len() == addrs@.len() && forall|k: int|
                    0 <= k < all.len() ==> (#[trigger] all[k] matches Recipient::Host(host)
                        && addrs@[k] == Addr::Simulated(host)),
                To::Loopback => all == seq![Recipient::Sender],
                To::AllReplica => (all.contains(Recipient::Host(Host::Replica(i))) <==> i
                    < num_replica && Host::Replica(i) != source) && all.no_duplicates(),
                To::AllReplicaWithLoopback => {
                    &&& all.len() > 0 && all[0] == Recipient::Sender
                    &&& all.skip(1).contains(Recipient::Host(Host::Replica(i))) <==> i
                        < num_replica && Host::Replica(i) != source
                    &&& all.skip(1).no_duplicates()
                },
                _ => false,
            }
        }),
{
    crate::context::laws::law_broadcast_reaches_every_other_replica(num_replica, source, i);
    let all = simulated_recipients(to, source, num_replica);
    let others = crate::context::simulated::other_replicas(num_replica, source);
    match to {
        To::Addrs(addrs) => {
            assert forall|k: int| 0 <= k < all.len() implies (#[trigger] all[k] matches
            Recipient::Host(host) && addrs@[k] == Addr::Simulated(host)) by {
                assert(addrs@[k] is Simulated);
            }
        },
        To::AllReplicaWithLoopback => {
            assert(all.skip(1) =~= others);
        },
        _ => {},
    }
}

/// Messages of others are handed over just if they were verified. What a party sends
/// to itself and timers are handed over in any case, each as what it is.
pub proof fn law_only_verified_messages_are_handed_over<R: Receivers>(
    receivers: &mut R,
    event: Event<R::Message>,
    verdict: Result<(), Invalid>,
    r: Result<(), Invalid>,
)
    requires
        event is Message || event is LoopbackMessage || event is Timer,
        call_ensures(deliver_verified::<R>, (receivers, event, verdict), r),
    ensures
        match event {
            Event::Message(receiver, remote, message) => {
                &&& r is Ok <==> verdict is Ok
                &&& verdict is Ok ==> R::handled(
                    *old(receivers),
                    Addr::Socket(receiver),
                    Addr::Socket(remote),
                    message,
                    *final(receivers),
                )
                &&& verdict is Err ==> *final(receivers) == *old(receivers) && r == verdict
            },
            Event::LoopbackMessage(receiver, message) => r is Ok && R::handled_loopback(
                *old(receivers),
                Addr::Socket(receiver),
                message,
                *final(receivers),
            ),
            Event::Timer(receiver, id) => r is Ok && R::timed(
                *old(receivers),
                Addr::Socket(receiver),
                crate::context::TimerId::Tokio(id),
                *final(receivers),
            ),
            _ => true,
        },
{
}

/// Every event but a dropped message goes on as it came, a stop stops, and every
/// message counts toward the round, dropped or not.
pub proof fn law_events_go_on_unless_dropped<P>(
    state: &mut DispatchState,
    event: Event<P>,
    drop_message: bool,
    r: Step<P>,
)
    requires
        old(state).pace_count > 0,
        call_ensures(DispatchState::on_event::<P>, (state, event, drop_message), r),
    ensures
        match event {
            Event::Stop => r is Stop && final(state).pace_count == old(state).pace_count,
            Event::Timer(_, _) => r == Step::Deliver(event) && final(state).pace_count == old(state).pace_count,
            Event::LoopbackMessage(_, _) => r == Step::Deliver(event) && final(state).pace_count
                + 1 == old(state).pace_count,
            _ => (r is Skip <==> drop_message) && (!drop_message ==> r == Step::Deliver(event))
                && final(state).pace_count + 1 == old(state).pace_count,
        },
{
}

/// A publicly signed message passes whoever has the public key of its signer, and a
/// privately signed one whoever shares the key.
pub proof fn law_signed_message_is_accepted<M: DigestHash, I: Hash + Eq>(
    signer: &Signer,
    message: M,
    public: Signed<M>,
    private: Signed<M>,
    verifier: &Verifier<I>,
    index: I,
    r: Result<(), Invalid>,
    s: Result<(), Invalid>,
)
    requires
        call_ensures(Signer::sign_public::<M>, (signer, message), public),
        call_ensures(Signer::sign_private::<M>, (signer, message), private),
        signer matches Signer::Standard(from) && from.signing_key is Some && (
        verifier matches Verifier::Standard(by) && by.verifying_keys@.contains_key(index)
            && by.verifying_keys@[index]@ == k256_public_key(from.signing_key.unwrap().secret())
            && by.hmac.key@ == from.hmac.key@ && by.hmac.data@ == from.hmac.data@),
        call_ensures(Verifier::<I>::verify::<M>, (verifier, &public, Some(index)), r),
        call_ensures(Verifier::<I>::verify::<M>, (verifier, &private, None::<I>), s),
    ensures
        public.inner == message,
        private.inner == message,
        r is Ok,
        s is Ok,
{
}

/// A verifier with keys says of a public signature whether it is one of the hashed
/// message under the key of the party, and of a private one whether it is the code
/// of the hashed message under the shared key. One without keys accepts anything.
pub proof fn law_verdict_is_that_of_the_keys<M: DigestHash, I: Hash + Eq>(
    verifier: &Verifier<I>,
    message: &Signed<M>,
    index: Option<I>,
    r: Result<(), Invalid>,
)
    requires
        call_ensures(Verifier::<I>::verify::<M>, (verifier, message, index), r),
    ensures
        !(verifier is Standard) ==> r is Ok,
        verifier matches Verifier::Standard(by) ==> {
            &&& message.signature matches Signature::K256(bytes) ==> {
                &&& r is Ok <==> k256_verifies(
                    by.verifying_keys@[index.unwrap()]@,
                    message.inner.hashed(),
                    bytes@,
                )
                &&& r matches Err(e) ==> e is Public
            }
            &&& message.signature matches Signature::Hmac(code) ==> {
                &&& r is Ok <==> code@ == hmac_sha256(
                    by.hmac.key@,
                    by.hmac.data@ + message.inner.hashed(),
                )
                &&& r matches Err(e) ==> e is Private
            }
        },
{
}

/// A message is signed for anyone by a signature of what it hashes to, and for those
/// who share a key by its code.
pub proof fn law_signature_is_of_the_message<M: DigestHash>(
    signer: &Signer,
    message: M,
    public: Signed<M>,
    private: Signed<M>,
)
    requires
        call_ensures(Signer::sign_public::<M>, (signer, message), public),
        call_ensures(Signer::sign_private::<M>, (signer, message), private),
    ensures
        signer is Simulated ==> public.signature is SimulatedPublic
            && private.signature is SimulatedPrivate,
        signer matches Signer::Standard(from) ==> {
            &&& public.signature matches Signature::K256(bytes) && bytes@ == k256_signature(
                from.signing_key.unwrap().secret(),
                message.hashed(),
            )
            &&& private.signature matches Signature::Hmac(code) && code@ == hmac_sha256(
                from.hmac.key@,
                from.hmac.data@ + message.hashed(),
            )
        },
{
}

/// Messages are hashed one after the other: what two lists hash to is what the one
/// hashes to that has both.
pub proof fn law_lists_are_hashed_in_order<T: DigestHash>(a: Seq<T>, b: Seq<T>, item: T)
    ensures
        hashed_all(a + b) == hashed_all(a) + hashed_all(b),
        hashed_all(seq![item]) == item.hashed(),
        hashed_all(Seq::<T>::empty()) == Seq::<u8>::empty(),
    decreases b.len(),
{
    let one = seq![item];
    assert(one.drop_last() =~= Seq::<T>::empty());
    assert(hashed_all(one.drop_last()) == Seq::<u8>::empty());
    assert(hashed_all(one) =~= item.hashed());
    if b.len() == 0 {
        assert(a + b =~= a);
        assert(hashed_all(a + b) =~= hashed_all(a) + hashed_all(b));
    } else {
        law_lists_are_hashed_in_order(a, b.drop_last(), item);
        assert((a + b).drop_last() =~= a + b.drop_last());
        assert(hashed_all(a + b) =~= hashed_all(a) + hashed_all(b));
    }
}

/// A signed message hashes to what the message hashes to and then the bytes of the
/// signature, where it has any.
pub proof fn law_signature_is_hashed_last<M: DigestHash>(signed: Signed<M>)
    ensures
        signed.hashed() == signed.inner.hashed() + match signed.signature {
            Signature::K256(bytes) => bytes@,
            Signature::Hmac(code) => code@,
            _ => Seq::<u8>::empty(),
        },
{
}

/// What is fed to a hasher in two pieces is the same as in one.
pub proof fn law_hasher_takes_pieces(
    first: &mut Hasher,
    second: &mut Hasher,
    once: &mut Hasher,
    a: &[u8],
    b: &[u8],
    both: &[u8],
)
    requires
        call_ensures(Hasher::update, (first, a), ()),
        *old(second) == *final(first),
        call_ensures(Hasher::update, (second, b), ()),
        both@ == a@ + b@,
        *old(once) == *old(first),
        call_ensures(Hasher::update, (once, both), ()),
    ensures
        final(second)@ == final(once)@,
        final(once)@.data == old(first)@.data + both@,
        final(once)@.key == old(first)@.key,
{
    assert(final(second)@.data =~= final(once)@.data);
}

/// A list hashes to what its items hash to, and bytes to themselves.
pub proof fn law_lists_and_bytes_are_hashed<T: DigestHash>(
    items: &Vec<T>,
    r: Sha256,
    bytes: &Blob,
    s: Sha256,
)
    requires
        call_ensures(Hasher::sha256::<Vec<T>>, (items,), r),
        call_ensures(Hasher::sha256::<Blob>, (bytes,), s),
    ensures
        r.data@ == hashed_all(items@),
        s.data@ == bytes.0@,
{
}

} // verus!
