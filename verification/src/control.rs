//! What the programs compute around the protocols: figures of benchmarks, who
//! gets a broadcast, and how identifiers are shown.

use vstd::prelude::*;

pub mod laws;

verus! {

/// The digit for a number below sixteen.
pub open spec fn hex_digit(d: int) -> char {
    if d < 10 {
        (48 + d) as char
    } else {
        (87 + d) as char
    }
}

/// Bytes in hexadecimal, two digits each.
pub open spec fn hex(bytes: Seq<u8>) -> Seq<char> {
    Seq::new(
        2 * bytes.len(),
        |i: int|
            if i % 2 == 0 {
                hex_digit(bytes[i / 2] as int / 16)
            } else {
                hex_digit(bytes[i / 2] as int % 16)
            },
    )
}

fn hex_digit_str(d: u8) -> (r: &'static str)
    requires
        d < 16,
    ensures
        r@ == seq![hex_digit(d as int)],
{
    proof {
        reveal_strlit("0");
        reveal_strlit("1");
        reveal_strlit("2");
        reveal_strlit("3");
        reveal_strlit("4");
        reveal_strlit("5");
        reveal_strlit("6");
        reveal_strlit("7");
        reveal_strlit("8");
        reveal_strlit("9");
        reveal_strlit("a");
        reveal_strlit("b");
        reveal_strlit("c");
        reveal_strlit("d");
        reveal_strlit("e");
        reveal_strlit("f");
    }
    let r: &'static str = match d {
        0 => "0",
        1 => "1",
        2 => "2",
        3 => "3",
        4 => "4",
        5 => "5",
        6 => "6",
        7 => "7",
        8 => "8",
        9 => "9",
        10 => "a",
        11 => "b",
        12 => "c",
        13 => "d",
        14 => "e",
        _ => "f",
    };
    assert(r@ =~= seq![hex_digit(d as int)]);
    r
}

/// An identifier in hexadecimal.
pub fn hex_string(id: &[u8; 32]) -> (r: String)
    ensures
        r@ == hex(id@),
{
    proof {
        reveal_strlit("");
    }
    let mut r: String = "".to_owned();
    let mut i: usize = 0;
    assert(r@ =~= hex(id@).take(0));
    while i < 32
        invariant
            i <= 32,
            r@ == hex(id@).take(2 * i as int),
        decreases 32 - i,
    {
        let n: u8 = id[i];
        r.append(hex_digit_str(n / 16));
        r.append(hex_digit_str(n % 16));
        assert(hex(id@)[2 * i as int] == hex_digit(id@[i as int] as int / 16));
        assert(hex(id@)[2 * i as int + 1] == hex_digit(id@[i as int] as int % 16));
        assert(r@ =~= hex(id@).take(2 * (i + 1) as int));
        i += 1;
    }
    assert(hex(id@).take(64) =~= hex(id@));
    r
}

/// The sum of times.
pub open spec fn total(times: Seq<u128>) -> nat
    decreases times.len(),
{
    if times.len() == 0 {
        0
    } else {
        total(times.drop_last()) + times.last() as nat
    }
}

proof fn lemma_total_grows(times: Seq<u128>, n: int)
    requires
        0 <= n <= times.len(),
    ensures
        total(times.take(n)) <= total(times),
    decreases times.len(),
{
    if n < times.len() {
        lemma_total_grows(times.drop_last(), n);
        assert(times.drop_last().take(n) =~= times.take(n));
    } else {
        assert(times.take(n) =~= times);
    }
}

/// The sum of latencies, each as often as its weight says.
pub open spec fn weighted_total(weights: Seq<u32>, latencies: Seq<u128>) -> nat
    recommends
        weights.len() == latencies.len(),
    decreases latencies.len(),
{
    if latencies.len() == 0 {
        0
    } else {
        weighted_total(weights.drop_last(), latencies.drop_last()) + latencies.last() as nat
            * weights.last() as nat
    }
}

proof fn lemma_weighted_total_grows(weights: Seq<u32>, latencies: Seq<u128>, n: int)
    requires
        weights.len() == latencies.len(),
        0 <= n <= latencies.len(),
    ensures
        weighted_total(weights.take(n), latencies.take(n)) <= weighted_total(weights, latencies),
    decreases latencies.len(),
{
    if n < latencies.len() {
        lemma_weighted_total_grows(weights.drop_last(), latencies.drop_last(), n);
        assert(weights.drop_last().take(n) =~= weights.take(n));
        assert(latencies.drop_last().take(n) =~= latencies.take(n));
        assert(latencies.last() as nat * weights.last() as nat >= 0) by (nonlinear_arith);
    } else {
        assert(weights.take(n) =~= weights);
        assert(latencies.take(n) =~= latencies);
    }
}

/// The mean of latencies that have weights, over the total of the weights.
pub fn weighted_latency(weights: &Vec<u32>, latencies: &Vec<u128>, total: u32) -> (r: u128)
    requires
        weights@.len() == latencies@.len(),
        total > 0,
        weighted_total(weights@, latencies@) <= u128::MAX,
    ensures
        r == weighted_total(weights@, latencies@) / total as nat,
{
    let mut sum: u128 = 0;
    let mut i: usize = 0;
    while i < latencies.len()
        invariant
            i <= latencies@.len(),
            weights@.len() == latencies@.len(),
            weighted_total(weights@, latencies@) <= u128::MAX,
            sum == weighted_total(weights@.take(i as int), latencies@.take(i as int)),
        decreases latencies@.len() - i,
    {
        assert(latencies@.take(i + 1).drop_last() =~= latencies@.take(i as int));
        assert(weights@.take(i + 1).drop_last() =~= weights@.take(i as int));
        let weight: u128 = weights[i] as u128;
        let latency: u128 = latencies[i];
        proof {
            lemma_weighted_total_grows(weights@, latencies@, i + 1);
            assert(latency * weight >= 0) by (nonlinear_arith);
        }
        sum += latency * weight;
        i += 1;
    }
    assert(latencies@.take(i as int) =~= latencies@);
    assert(weights@.take(i as int) =~= weights@);
    sum / total as u128
}

/// The mean of latencies, of which there is at least one.
pub fn mean_latency(latencies: &Vec<u128>) -> (r: u128)
    requires
        latencies@.len() > 0,
        total(latencies@) <= u128::MAX,
    ensures
        r == total(latencies@) / latencies@.len(),
{
    let mut sum: u128 = 0;
    let mut i: usize = 0;
    while i < latencies.len()
        invariant
            i <= latencies@.len(),
            total(latencies@) <= u128::MAX,
            sum == total(latencies@.take(i as int)),
        decreases latencies@.len() - i,
    {
        assert(latencies@.take(i + 1).drop_last() =~= latencies@.take(i as int));
        proof {
            lemma_total_grows(latencies@, i + 1);
        }
        sum = sum + latencies[i];
        i += 1;
    }
    assert(latencies@.take(i as int) =~= latencies@);
    sum / latencies.len() as u128
}

/// Whether times are in ascending order.
pub open spec fn is_ascending(times: Seq<u128>) -> bool {
    forall|i: int, j: int| 0 <= i <= j < times.len() ==> times[i] <= times[j]
}

/// Calls `sort` of slices, which puts the elements in ascending order and keeps
/// each of them.
#[verifier::external_body]
fn sort_times(times: &mut Vec<u128>)
    ensures
        is_ascending(final(times)@),
        final(times)@.to_multiset() == old(times)@.to_multiset(),
{
    times.sort()
}

/// Whether `time` is at a position when times are put in ascending order.
pub open spec fn is_at_position(times: Seq<u128>, position: int, time: u128) -> bool {
    exists|sorted: Seq<u128>|
        {
            &&& is_ascending(sorted)
            &&& #[trigger] sorted.to_multiset() == times.to_multiset()
            &&& 0 <= position < sorted.len()
            &&& sorted[position] == time
        }
}

/// The latency that 99 of 100 do not exceed, or zero if there are none.
pub fn percentile_latency(latencies: Vec<u128>) -> (r: u128)
    requires
        latencies@.len() * 99 <= usize::MAX,
    ensures
        latencies@.len() == 0 ==> r == 0,
        latencies@.len() > 0 ==> is_at_position(
            latencies@,
            latencies@.len() as int * 99 / 100,
            r,
        ),
{
    let mut sorted = latencies;
    sort_times(&mut sorted);
    proof {
        latencies@.to_multiset_ensures();
        sorted@.to_multiset_ensures();
    }
    assert(sorted@.len() == latencies@.len());
    if sorted.len() == 0 {
        return 0;
    }
    let position: usize = sorted.len() * 99 / 100;
    assert(sorted@.to_multiset() == latencies@.to_multiset());
    sorted[position]
}

/// The replicas that a broadcast of a replica goes to: all but itself. The
/// number of replicas counts modulo the 256 identifiers that there are.
pub open spec fn broadcast_ids(num_replica: nat, id: u8) -> Seq<u8>
    decreases num_replica,
{
    if num_replica == 0 {
        Seq::empty()
    } else if num_replica - 1 == id {
        broadcast_ids((num_replica - 1) as nat, id)
    } else {
        broadcast_ids((num_replica - 1) as nat, id).push((num_replica - 1) as u8)
    }
}

/// Where a message of a replica goes: to one other, or to all others.
#[derive(Debug, Clone, Copy, PartialEq, Eq, Structural)]
pub enum Egress {
    To(u8),
    ToAll,
}

/// The replicas that a message goes to.
pub fn egress_ids(num_replica: usize, id: u8, egress: Egress) -> (r: Vec<u8>)
    requires
        egress matches Egress::To(to) ==> to != id,
    ensures
        r@ == match egress {
            Egress::To(to) => seq![to],
            Egress::ToAll => broadcast_ids(num_replica as nat % 256, id),
        },
{
    let mut r: Vec<u8> = Vec::new();
    match egress {
        Egress::To(to) => {
            r.push(to);
            assert(r@ =~= seq![to]);
        },
        Egress::ToAll => {
            let end: u8 = (num_replica % 256) as u8;
            let mut i: u8 = 0;
            while i < end
                invariant
                    i <= end,
                    r@ == broadcast_ids(i as nat, id),
                decreases end - i,
            {
                if i != id {
                    r.push(i);
                }
                i += 1;
            }
        },
    }
    r
}

/// A broadcast goes to each other replica once, and not to its sender.
pub proof fn law_broadcast_reaches_all_others(num_replica: nat, id: u8, other: u8)
    requires
        num_replica <= 256,
    ensures
        broadcast_ids(num_replica, id).contains(other) <==> other < num_replica && other != id,
        broadcast_ids(num_replica, id).no_duplicates(),
    decreases num_replica,
{
    if num_replica > 0 {
        let n = (num_replica - 1) as nat;
        let shorter = broadcast_ids(n, id);
        let all = broadcast_ids(num_replica, id);
        law_broadcast_reaches_all_others(n, id, other);
        law_broadcast_reaches_all_others(n, id, n as u8);
        if n != id {
            assert(all.last() == n as u8);
            if shorter.contains(other) {
                let i = choose|i: int| 0 <= i < shorter.len() && shorter[i] == other;
                assert(all[i] == other);
            }
            if all.contains(other) && other != n as u8 {
                let i = choose|i: int| 0 <= i < all.len() && all[i] == other;
                assert(shorter[i] == other);
            }
            assert forall|i: int, j: int| 0 <= i < j < all.len() implies all[i] != all[j] by {
                if j == shorter.len() {
                    assert(shorter[i] == all[i]);
                    assert(shorter.contains(shorter[i]));
                }
            }
        }
    }
}

/// A client that submits an operation as soon as the one before is done, and
/// takes the times.
#[derive(Debug)]
pub struct Workload {
    pub latencies: Vec<u128>,
    pub outstanding_start: u128,
}

impl Workload {
    pub fn new(now: u128) -> (r: Self)
        ensures
            r.latencies@ == Seq::<u128>::empty(),
            r.outstanding_start == now,
    {
        Workload { latencies: Vec::new(), outstanding_start: now }
    }

    /// Takes a result in, which is empty. The next operation is to be submitted
    /// at once.
    pub fn update(&mut self, result: &Vec<u8>, now: u128)
        requires
            result@.len() == 0,
            old(self).outstanding_start <= now,
        ensures
            final(self).latencies@ == old(self).latencies@.push(
                (now - old(self).outstanding_start) as u128,
            ),
            final(self).outstanding_start == now,
    {
        self.latencies.push(now - self.outstanding_start);
        self.outstanding_start = now;
    }
}

/// The latencies of a workload add up to the time from its start to its latest
/// result: each update adds as much to their total as to that time.
pub proof fn law_latencies_add_up(latencies: Seq<u128>, start: u128, previous: u128, now: u128)
    requires
        start <= previous <= now,
        total(latencies) == previous - start,
    ensures
        total(latencies.push((now - previous) as u128)) == now - start,
{
    assert(latencies.push((now - previous) as u128).drop_last() =~= latencies);
}

} // verus!
