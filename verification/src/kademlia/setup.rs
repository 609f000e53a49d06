//! Setups of peers whose keys come from a seed, so that all hosts of a setup know
//! of each other without a word.

use vstd::prelude::*;

use crate::addr::{socket, socket_at, Addr, AddrView, IpAddr};
use crate::crypto::{ecdsa_public_key, is_secret, sha256, Signer, Verifier};
use crate::kademlia::{host_records, views, PeerKey, PeerRecord, PeerRecordView, FIRST_PORT};
use crate::wire::u32_bytes;

verus! {

/// A generator of the `rand` crate.
#[verifier::external_type_specification]
#[verifier::external_body]
pub struct ExStdRng(rand::rngs::StdRng);

/// The words that a generator has to give, one after the other.
pub uninterp spec fn words_to_come(rng: rand::rngs::StdRng) -> Map<nat, u32>;

/// The words that a generator has to give when it starts from a number.
pub uninterp spec fn words_from_number(seed: u64) -> Map<nat, u32>;

/// The words that a generator has to give when it starts from bytes.
pub uninterp spec fn words_from_bytes(seed: Seq<u8>) -> Map<nat, u32>;

/// The places that the items of a list of some length come from when it is
/// shuffled, and how many words are used up by that.
pub uninterp spec fn shuffle_of(words: Map<nat, u32>, len: nat) -> (Seq<int>, nat);

/// Words without the first ones.
pub open spec fn skip_words(words: Map<nat, u32>, n: nat) -> Map<nat, u32> {
    Map::new(|i: nat| true, |i: nat| words[i + n])
}

/// The bytes of eight words, in groups of eight: every word with its lowest byte
/// first.
pub open spec fn group(words: Map<nat, u32>, k: nat) -> Seq<u8> {
    Seq::new(32, |i: int| u32_bytes(words[(8 * k + i / 4) as nat])[i % 4])
}

/// Whether a group of words is the first that is a secret key.
pub open spec fn is_key_place(words: Map<nat, u32>, k: nat) -> bool {
    is_secret(group(words, k)) && forall|m: nat| m < k ==> !is_secret(#[trigger] group(words, m))
}

/// The lowest bytes of words.
pub open spec fn seed_bytes(words: Map<nat, u32>) -> Seq<u8> {
    Seq::new(32, |i: int| (words[i as nat] % 256) as u8)
}

/// Whether a list of places holds each one below a number once.
pub open spec fn is_permutation(places: Seq<int>, n: nat) -> bool {
    &&& places.len() == n
    &&& forall|i: int| 0 <= i < n ==> 0 <= #[trigger] places[i] < n
    &&& forall|i: int, j: int|
        0 <= i < j < n ==> #[trigger] places[i] != #[trigger] places[j]
    &&& forall|p: int| 0 <= p < n ==> #[trigger] places.contains(p)
}

/// Items in the order of places.
pub open spec fn permuted<T>(items: Seq<T>, places: Seq<int>) -> Seq<T> {
    Seq::new(items.len(), |i: int| items[places[i]])
}

/// Calls `seed_from_u64` of `rand::rngs::StdRng`. What the generator has to give
/// comes from the seed alone.
#[verifier::external_body]
fn rng_from_number(seed: u64) -> (r: rand::rngs::StdRng)
    ensures
        words_to_come(r) == words_from_number(seed),
{
    rand::SeedableRng::seed_from_u64(seed)
}

/// Calls `from_seed` of `rand::rngs::StdRng`. What the generator has to give
/// comes from the seed alone.
#[verifier::external_body]
fn rng_from_bytes(seed: [u8; 32]) -> (r: rand::rngs::StdRng)
    ensures
        words_to_come(r) == words_from_bytes(seed@),
{
    rand::SeedableRng::from_seed(seed)
}

/// Calls `rand::Rng::gen` for 32 bytes. Each of them is the lowest byte of a word
/// of its own.
#[verifier::external_body]
fn rng_gen_bytes(rng: &mut rand::rngs::StdRng) -> (r: [u8; 32])
    ensures
        r@ == seed_bytes(words_to_come(*old(rng))),
        words_to_come(*final(rng)) == skip_words(words_to_come(*old(rng)), 32),
{
    rand::Rng::gen(rng)
}

/// Calls `rand::seq::SliceRandom::shuffle`. Where each item comes from is decided
/// by the words of the generator and the number of items alone, and every item
/// comes to one place.
#[verifier::external_body]
fn rng_shuffle<T>(rng: &mut rand::rngs::StdRng, items: &mut Vec<T>)
    ensures
        ({
            let (places, used) = shuffle_of(words_to_come(*old(rng)), old(items)@.len());
            &&& is_permutation(places, old(items)@.len())
            &&& final(items)@ == permuted(old(items)@, places)
            &&& words_to_come(*final(rng)) == skip_words(words_to_come(*old(rng)), used)
        }),
{
    rand::seq::SliceRandom::shuffle(items.as_mut_slice(), rng)
}

/// Calls `secp256k1::Secp256k1::generate_keypair` and gives the secret of the
/// pair. It takes eight words at a time, up to the first that are a secret key.
#[verifier::external_body]
fn secp_generate(rng: &mut rand::rngs::StdRng) -> (r: [u8; 32])
    ensures
        exists|k: nat|
            {
                &&& #[trigger] is_key_place(words_to_come(*old(rng)), k)
                &&& r@ == group(words_to_come(*old(rng)), k)
                &&& words_to_come(*final(rng)) == skip_words(
                    words_to_come(*old(rng)),
                    8 * (k + 1),
                )
            },
{
    secp256k1::Secp256k1::signing_only().generate_keypair(rng).0.secret_bytes()
}

/// Where the first secret key among words is.
pub open spec fn key_place(words: Map<nat, u32>) -> nat {
    choose|k: nat| is_key_place(words, k)
}

/// The first secret key among words.
pub open spec fn first_key(words: Map<nat, u32>) -> Seq<u8> {
    group(words, key_place(words))
}

/// The words behind the first secret key.
pub open spec fn after_key(words: Map<nat, u32>) -> Map<nat, u32> {
    skip_words(words, 8 * (key_place(words) + 1))
}

/// The words behind the first few secret keys.
pub open spec fn after_keys(words: Map<nat, u32>, n: nat) -> Map<nat, u32>
    decreases n,
{
    if n == 0 {
        words
    } else {
        after_key(after_keys(words, (n - 1) as nat))
    }
}

/// The secret key behind the first few.
pub open spec fn nth_key(words: Map<nat, u32>, n: nat) -> Seq<u8> {
    first_key(after_keys(words, n))
}

proof fn lemma_key_place(words: Map<nat, u32>, k: nat)
    requires
        is_key_place(words, k),
    ensures
        key_place(words) == k,
{
    let found = key_place(words);
    assert(is_key_place(words, found));
    assert(is_secret(group(words, found)) && is_secret(group(words, k)));
}

proof fn lemma_after_keys(words: Map<nat, u32>, a: nat, b: nat)
    ensures
        after_keys(after_keys(words, a), b) == after_keys(words, a + b),
    decreases b,
{
    if b > 0 {
        lemma_after_keys(words, a, (b - 1) as nat);
    }
}

/// Draws a secret key.
fn draw_signer(rng: &mut rand::rngs::StdRng) -> (r: Signer)
    ensures
        r.secret() == first_key(words_to_come(*old(rng))),
        words_to_come(*final(rng)) == after_key(words_to_come(*old(rng))),
{
    let secret = secp_generate(rng);
    proof {
        let words = words_to_come(*old(rng));
        let k = choose|k: nat|
            {
                &&& #[trigger] is_key_place(words, k)
                &&& secret@ == group(words, k)
                &&& words_to_come(*rng) == skip_words(words, 8 * (k + 1))
            };
        lemma_key_place(words, k);
    }
    Signer::from_slice(secret.as_slice()).unwrap()
}

/// Draws the keys of some peers.
fn draw_signers(rng: &mut rand::rngs::StdRng, count: usize) -> (r: (Vec<Signer>, Vec<PeerKey>))
    ensures
        r.0@.len() == count,
        r.1@.len() == count,
        forall|j: int|
            0 <= j < count ==> (#[trigger] r.0@[j]).secret() == nth_key(
                words_to_come(*old(rng)),
                j as nat,
            ),
        forall|j: int|
            0 <= j < count ==> (#[trigger] r.1@[j])@ == ecdsa_public_key(
                nth_key(words_to_come(*old(rng)), j as nat),
            ),
        words_to_come(*final(rng)) == after_keys(words_to_come(*old(rng)), count as nat),
{
    let mut signers: Vec<Signer> = Vec::new();
    let mut keys: Vec<PeerKey> = Vec::new();
    let mut i: usize = 0;
    while i < count
        invariant
            i <= count,
            signers@.len() == i,
            keys@.len() == i,
            forall|j: int|
                0 <= j < i ==> (#[trigger] signers@[j]).secret() == nth_key(
                    words_to_come(*old(rng)),
                    j as nat,
                ),
            forall|j: int|
                0 <= j < i ==> (#[trigger] keys@[j])@ == ecdsa_public_key(
                    nth_key(words_to_come(*old(rng)), j as nat),
                ),
            words_to_come(*rng) == after_keys(words_to_come(*old(rng)), i as nat),
        decreases count - i,
    {
        let signer = draw_signer(rng);
        keys.push(PeerKey(Verifier::from_signer(&signer)));
        signers.push(signer);
        i += 1;
    }
    (signers, keys)
}

/// The secret key of a peer of a setup. Peers are counted host by host.
pub open spec fn peer_secret(seed: u64, peer: nat) -> Seq<u8> {
    nth_key(words_from_number(seed), peer)
}

/// The record of a peer with a secret key.
pub open spec fn record_of(secret: Seq<u8>, host: IpAddr, j: int) -> PeerRecordView {
    PeerRecordView {
        id: sha256(ecdsa_public_key(secret)),
        key: ecdsa_public_key(secret),
        addr: AddrView::Socket(socket_at(host, (FIRST_PORT + j) as u16)),
    }
}

/// Whether records of a setup hold that of a peer of a host in its place.
pub open spec fn holds_peer(
    records: Seq<PeerRecord>,
    words: Map<nat, u32>,
    hosts: Seq<IpAddr>,
    num_host_peer: nat,
    host: int,
    j: int,
) -> bool {
    let place = host * num_host_peer + j;
    records[place]@ == record_of(nth_key(words, place as nat), hosts[host], j)
}

/// The records of a setup: as many peers on each host, on consecutive ports.
pub open spec fn setup_records(seed: u64, hosts: Seq<IpAddr>, num_host_peer: nat) -> Seq<
    PeerRecordView,
> {
    Seq::new(
        hosts.len() * num_host_peer,
        |i: int|
            record_of(
                peer_secret(seed, i as nat),
                hosts[i / (num_host_peer as int)],
                i % (num_host_peer as int),
            ),
    )
}

/// Draws the peers of a setup: the records of all of them, and the signers of
/// those on one host.
fn draw_peers(
    rng: &mut rand::rngs::StdRng,
    hosts: &Vec<IpAddr>,
    num_host_peer: usize,
    index: usize,
) -> (r: (Vec<PeerRecord>, Vec<Signer>))
    requires
        index < hosts@.len(),
        FIRST_PORT + num_host_peer <= u16::MAX + 1,
    ensures
        r.0@.len() == hosts@.len() * num_host_peer,
        forall|h: int, j: int|
            0 <= h < hosts@.len() && 0 <= j < num_host_peer ==> #[trigger] holds_peer(
                r.0@,
                words_to_come(*old(rng)),
                hosts@,
                num_host_peer as nat,
                h,
                j,
            ),
        r.1@.len() == num_host_peer,
        forall|j: int|
            0 <= j < num_host_peer ==> (#[trigger] r.1@[j]).secret() == nth_key(
                words_to_come(*old(rng)),
                (index * num_host_peer + j) as nat,
            ),
        words_to_come(*final(rng)) == after_keys(
            words_to_come(*old(rng)),
            (hosts@.len() * num_host_peer) as nat,
        ),
{
    let ghost words = words_to_come(*rng);
    let mut records: Vec<PeerRecord> = Vec::new();
    let mut run_signers: Vec<Signer> = Vec::new();
    let ghost n = num_host_peer as nat;
    let mut i: usize = 0;
    assert(0 * n == 0);
    while i < hosts.len()
        invariant
            i <= hosts@.len(),
            n == num_host_peer,
            FIRST_PORT + num_host_peer <= u16::MAX + 1,
            records@.len() == i * n,
            words == words_to_come(*old(rng)),
            words_to_come(*rng) == after_keys(words, (i * n) as nat),
            forall|h: int, j: int|
                0 <= h < i && 0 <= j < n ==> #[trigger] holds_peer(
                    records@,
                    words,
                    hosts@,
                    n,
                    h,
                    j,
                ),
            i > index ==> run_signers@.len() == n && forall|j: int|
                0 <= j < n ==> (#[trigger] run_signers@[j]).secret() == nth_key(
                    words,
                    (index * n + j) as nat,
                ),
        decreases hosts@.len() - i,
    {
        let ghost before = records@;
        let ghost start = words_to_come(*rng);
        let (signers, keys) = draw_signers(rng, num_host_peer);
        let mut host = host_records(hosts[i], &keys);
        let ghost added = host@;
        proof {
            assert(i * n >= 0) by (nonlinear_arith);
            assert forall|j: int| 0 <= j < n implies nth_key(start, j as nat) == #[trigger] nth_key(
                words,
                (i * n + j) as nat,
            ) by {
                lemma_after_keys(words, (i * n) as nat, j as nat);
            }
            lemma_after_keys(words, (i * n) as nat, n);
            assert((i + 1) * n == i * n + n) by (nonlinear_arith);
        }
        records.append(&mut host);
        proof {
            assert forall|h: int, j: int| 0 <= h < i + 1 && 0 <= j < n implies #[trigger] holds_peer(
                records@,
                words,
                hosts@,
                n,
                h,
                j,
            ) by {
                if h < i {
                    assert(0 <= h * n + j < i * n) by (nonlinear_arith)
                        requires
                            0 <= h < i,
                            0 <= j < n,
                    ;
                    assert(records@[h * n + j] == before[h * n + j]);
                    assert(holds_peer(before, words, hosts@, n, h, j));
                } else {
                    assert(records@[h * n + j] == added[j]);
                    assert(added[j].key == keys@[j]);
                    assert(nth_key(start, j as nat) == nth_key(words, (i * n + j) as nat));
                }
            }
        }
        if i == index {
            run_signers = signers;
            assert forall|j: int| 0 <= j < n implies (#[trigger] run_signers@[j]).secret()
                == nth_key(words, (index * n + j) as nat) by {
                assert(nth_key(start, j as nat) == nth_key(words, (i * n + j) as nat));
            }
        }
        i += 1;
    }
    (records, run_signers)
}

/// The records of all peers of a setup, and the signers of the peers on one host.
/// Keys come from the seed, one after the other, host by host.
pub fn peer_setup(seed: u64, hosts: &Vec<IpAddr>, num_host_peer: usize, index: usize) -> (r: (
    Vec<PeerRecord>,
    Vec<Signer>,
))
    requires
        index < hosts@.len(),
        FIRST_PORT + num_host_peer <= u16::MAX + 1,
    ensures
        views(r.0@) == setup_records(seed, hosts@, num_host_peer as nat),
        r.1@.len() == num_host_peer,
        forall|j: int|
            0 <= j < num_host_peer ==> {
                &&& (#[trigger] r.1@[j]).secret() == peer_secret(
                    seed,
                    (index * num_host_peer + j) as nat,
                )
                &&& r.0@[index * num_host_peer + j].key@ == ecdsa_public_key(r.1@[j].secret())
            },
{
    let mut rng = rng_from_number(seed);
    let (records, signers) = draw_peers(&mut rng, hosts, num_host_peer, index);
    proof {
        lemma_setup_records(records@, seed, hosts@, num_host_peer as nat);
        assert forall|j: int| 0 <= j < num_host_peer implies records@[index * num_host_peer
            + j].key@ == ecdsa_public_key((#[trigger] signers@[j]).secret()) by {
            assert(holds_peer(
                records@,
                words_from_number(seed),
                hosts@,
                num_host_peer as nat,
                index as int,
                j,
            ));
        }
    }
    (records, signers)
}

proof fn lemma_setup_records(
    records: Seq<PeerRecord>,
    seed: u64,
    hosts: Seq<IpAddr>,
    num_host_peer: nat,
)
    requires
        records.len() == hosts.len() * num_host_peer,
        forall|h: int, j: int|
            0 <= h < hosts.len() && 0 <= j < num_host_peer ==> #[trigger] holds_peer(
                records,
                words_from_number(seed),
                hosts,
                num_host_peer,
                h,
                j,
            ),
    ensures
        views(records) == setup_records(seed, hosts, num_host_peer),
{
    let expected = setup_records(seed, hosts, num_host_peer);
    assert forall|i: int| 0 <= i < records.len() implies #[trigger] records[i]@ == expected[i] by {
        let n = num_host_peer as int;
        assert(n > 0) by (nonlinear_arith)
            requires
                0 <= i < hosts.len() * n,
                n >= 0,
        ;
        let (h, j) = (i / n, i % n);
        assert(0 <= h < hosts.len() && 0 <= j < n && h * n + j == i) by (nonlinear_arith)
            requires
                0 <= i < hosts.len() * n,
                n > 0,
                h == i / n,
                j == i % n,
        ;
        assert(holds_peer(records, words_from_number(seed), hosts, num_host_peer, h, j));
    }
    assert(views(records) =~= expected);
}

/// The words of the generator of a host: it starts from the bytes that follow the
/// keys of all peers, and those for the hosts before.
pub open spec fn host_words(seed: u64, num_peer: nat, index: nat) -> Map<nat, u32> {
    words_from_bytes(
        seed_bytes(skip_words(after_keys(words_from_number(seed), num_peer), 32 * index)),
    )
}

/// Items that are shuffled a number of times over, and the words that are left.
pub open spec fn shuffled<T>(items: Seq<T>, words: Map<nat, u32>, n: nat) -> (
    Seq<T>,
    Map<nat, u32>,
)
    decreases n,
{
    if n == 0 {
        (items, words)
    } else {
        let (before, left) = shuffled(items, words, (n - 1) as nat);
        let (places, used) = shuffle_of(left, items.len());
        (permuted(before, places), skip_words(left, used))
    }
}

/// Whether records are the same as others, in some order.
pub open spec fn is_offer(offers: Seq<PeerRecordView>, records: Seq<PeerRecordView>) -> bool {
    exists|places: Seq<int>| #[trigger]
        is_permutation(places, records.len()) && offers == permuted(records, places)
}

/// A peer is offered the record of every peer of a setup, its own among them, and
/// nothing else.
pub proof fn law_offers_are_the_records(
    offers: Seq<PeerRecordView>,
    records: Seq<PeerRecordView>,
)
    requires
        is_offer(offers, records),
    ensures
        offers.len() == records.len(),
        forall|record: PeerRecordView| offers.contains(record) <==> records.contains(record),
{
    let places = choose|places: Seq<int>| #[trigger]
        is_permutation(places, records.len()) && offers == permuted(records, places);
    assert forall|record: PeerRecordView| offers.contains(record) implies records.contains(
        record,
    ) by {
        let i = offers.index_of(record);
        assert(records[places[i]] == record);
    }
    assert forall|record: PeerRecordView| records.contains(record) implies offers.contains(
        record,
    ) by {
        let p = records.index_of(record);
        assert(places.contains(p));
        let i = places.index_of(p);
        assert(offers[i] == record);
    }
}

proof fn lemma_offer_again(
    offers: Seq<PeerRecordView>,
    records: Seq<PeerRecordView>,
    places: Seq<int>,
)
    requires
        is_offer(offers, records),
        is_permutation(places, records.len()),
    ensures
        is_offer(permuted(offers, places), records),
{
    let n = records.len();
    let first = choose|first: Seq<int>| #[trigger]
        is_permutation(first, n) && offers == permuted(records, first);
    let both = permuted(first, places);
    assert forall|p: int| 0 <= p < n implies #[trigger] both.contains(p) by {
        assert(first.contains(p));
        let k = first.index_of(p);
        assert(places.contains(k));
        let i = places.index_of(k);
        assert(both[i] == p);
    }
    assert forall|i: int, j: int| 0 <= i < j < n implies #[trigger] both[i] != #[trigger] both[j] by {
        assert(places[i] != places[j]);
        assert(first[places[i]] != first[places[j]]);
    }
    assert(is_permutation(both, n));
    assert(permuted(offers, places) =~= permuted(records, both));
}

/// A peer that runs on a host.
pub struct RunPeer {
    pub signer: Signer,
    /// Its own record.
    pub record: PeerRecord,
    /// The records of all peers, in the order in which the peer comes to know them.
    pub offers: Vec<PeerRecord>,
}

/// Draws the generator of a host.
fn draw_host_rng(rng: &mut rand::rngs::StdRng, index: usize) -> (r: rand::rngs::StdRng)
    ensures
        words_to_come(r) == words_from_bytes(
            seed_bytes(skip_words(words_to_come(*old(rng)), (32 * index) as nat)),
        ),
{
    let ghost words = words_to_come(*rng);
    proof {
        lemma_skip_none(words);
    }
    let mut i: usize = 0;
    while i < index
        invariant
            i <= index,
            seed_bytes(words_to_come(*rng)) == seed_bytes(skip_words(words, (32 * i) as nat)),
            skip_words(words_to_come(*rng), 32) == skip_words(words, (32 * i + 32) as nat),
        decreases index - i,
    {
        let seed = rng_gen_bytes(rng);
        proof {
            lemma_skip_twice(words, (32 * i + 32) as nat, 32);
        }
        i += 1;
    }
    let seed = rng_gen_bytes(rng);
    rng_from_bytes(seed)
}

proof fn lemma_skip_none(words: Map<nat, u32>)
    ensures
        seed_bytes(words) == seed_bytes(skip_words(words, 0)),
{
    assert(seed_bytes(words) =~= seed_bytes(skip_words(words, 0)));
}

proof fn lemma_skip_twice(words: Map<nat, u32>, a: nat, b: nat)
    ensures
        skip_words(skip_words(words, a), b) == skip_words(words, a + b),
{
    assert(skip_words(skip_words(words, a), b) =~= skip_words(words, a + b));
}

/// A copy of records.
fn copied(records: &Vec<PeerRecord>) -> (r: Vec<PeerRecord>)
    ensures
        views(r@) == views(records@),
{
    let mut r: Vec<PeerRecord> = Vec::new();
    while r.len() < records.len()
        invariant
            r@.len() <= records@.len(),
            forall|j: int| 0 <= j < r@.len() ==> (#[trigger] r@[j])@ == records@[j]@,
        decreases records@.len() - r@.len(),
    {
        let record = records[r.len()].clone();
        r.push(record);
    }
    assert(views(r@) =~= views(records@));
    r
}

/// The peers that run on one host of a setup. Each one comes to know the records
/// of all peers, in an order that is drawn for it.
pub fn run_peers(seed: u64, hosts: &Vec<IpAddr>, num_host_peer: usize, index: usize) -> (r: Vec<
    RunPeer,
>)
    requires
        index < hosts@.len(),
        FIRST_PORT + num_host_peer <= u16::MAX + 1,
    ensures
        r@.len() == num_host_peer,
        forall|j: int|
            0 <= j < num_host_peer ==> {
                let secret = peer_secret(seed, (index * num_host_peer + j) as nat);
                let records = setup_records(seed, hosts@, num_host_peer as nat);
                let words = host_words(seed, records.len(), index as nat);
                &&& (#[trigger] r@[j]).signer.secret() == secret
                &&& r@[j].record@ == record_of(secret, hosts@[index as int], j)
                &&& views(r@[j].offers@) == shuffled(records, words, (j + 1) as nat).0
                &&& is_offer(views(r@[j].offers@), records)
            },
{
    let mut rng = rng_from_number(seed);
    let (mut records, mut signers) = draw_peers(&mut rng, hosts, num_host_peer, index);
    let mut rng = draw_host_rng(&mut rng, index);
    let ghost all = setup_records(seed, hosts@, num_host_peer as nat);
    let ghost words = host_words(seed, all.len(), index as nat);
    let ghost secrets = Seq::new(
        num_host_peer as nat,
        |j: int| peer_secret(seed, (index * num_host_peer + j) as nat),
    );
    proof {
        lemma_setup_records(records@, seed, hosts@, num_host_peer as nat);
        let same = Seq::new(all.len(), |i: int| i);
        assert forall|p: int| 0 <= p < all.len() implies #[trigger] same.contains(p) by {
            assert(same[p] == p);
        }
        assert(is_permutation(same, all.len()) && all =~= permuted(all, same));
    }
    let host = hosts[index];
    let mut r: Vec<RunPeer> = Vec::new();
    while r.len() < num_host_peer
        invariant
            r@.len() <= num_host_peer,
            FIRST_PORT + num_host_peer <= u16::MAX + 1,
            secrets.len() == num_host_peer,
            signers@.len() == num_host_peer - r@.len(),
            forall|j: int|
                0 <= j < signers@.len() ==> (#[trigger] signers@[j]).secret() == secrets[r@.len()
                    + j],
            views(records@) == shuffled(all, words, r@.len()).0,
            words_to_come(rng) == shuffled(all, words, r@.len()).1,
            records@.len() == all.len(),
            is_offer(views(records@), all),
            forall|j: int|
                0 <= j < r@.len() ==> {
                    &&& (#[trigger] r@[j]).signer.secret() == secrets[j]
                    &&& r@[j].record@ == record_of(secrets[j], host, j)
                    &&& views(r@[j].offers@) == shuffled(all, words, (j + 1) as nat).0
                    &&& is_offer(views(r@[j].offers@), all)
                },
        decreases num_host_peer - r@.len(),
    {
        let ghost before = signers@;
        let ghost unshuffled = records@;
        let signer = signers.remove(0);
        let port: u16 = FIRST_PORT + r.len() as u16;
        let addr = Addr::Socket(socket(host, port));
        let record = PeerRecord::new(PeerKey(Verifier::from_signer(&signer)), addr);
        rng_shuffle(&mut rng, &mut records);
        let offers = copied(&records);
        proof {
            let places = shuffle_of(shuffled(all, words, r@.len()).1, all.len()).0;
            assert(views(permuted(unshuffled, places)) =~= permuted(views(unshuffled), places));
            lemma_offer_again(views(unshuffled), all, places);
        }
        r.push(RunPeer { signer, record, offers });
    }
    r
}

/// All hosts of a setup come to the same records, whichever of them each one is.
pub proof fn law_hosts_agree_on_records(
    seed: u64,
    hosts: &Vec<IpAddr>,
    num_host_peer: usize,
    index: usize,
    other: usize,
    r: (Vec<PeerRecord>, Vec<Signer>),
    s: (Vec<PeerRecord>, Vec<Signer>),
)
    requires
        call_ensures(peer_setup, (seed, hosts, num_host_peer, index), r),
        call_ensures(peer_setup, (seed, hosts, num_host_peer, other), s),
    ensures
        views(r.0@) == views(s.0@),
{
}

/// A peer that runs on a host finds its own record among those it is offered.
pub proof fn law_own_record_is_offered(
    seed: u64,
    hosts: &Vec<IpAddr>,
    num_host_peer: usize,
    index: usize,
    r: Vec<RunPeer>,
    j: int,
)
    requires
        index < hosts@.len(),
        call_ensures(run_peers, (seed, hosts, num_host_peer, index), r),
        0 <= j < num_host_peer,
    ensures
        views(r@[j].offers@).contains(r@[j].record@),
{
    let n = num_host_peer as int;
    let records = setup_records(seed, hosts@, n as nat);
    let place = index * n + j;
    assert(0 <= place < hosts@.len() * n && place / n == index && place % n == j)
        by (nonlinear_arith)
        requires
            0 <= index < hosts@.len(),
            0 <= j < n,
            place == index * n + j,
    ;
    assert(records[place] == r@[j].record@);
    law_offers_are_the_records(views(r@[j].offers@), records);
}

} // verus!
