//! What holds of the figures that are taken of benchmarks.

use vstd::prelude::*;

use crate::control::{
    egress_ids, hex_string, mean_latency, percentile_latency, total, weighted_latency,
    weighted_total, Egress, Workload,
};

verus! {

/// Times add up whichever way they are parted.
pub proof fn law_totals_add_up(a: Seq<u128>, b: Seq<u128>, time: u128)
    ensures
        total(a + b) == total(a) + total(b),
        total(seq![time]) == time,
        total(Seq::<u128>::empty()) == 0,
    decreases b.len(),
{
    let one = seq![time];
    assert(one.drop_last() =~= Seq::<u128>::empty());
    assert(total(one.drop_last()) == 0);
    assert(total(one) == time);
    if b.len() == 0 {
        assert(a + b =~= a);
    } else {
        law_totals_add_up(a, b.drop_last(), time);
        assert((a + b).drop_last() =~= a + b.drop_last());
    }
}

/// The mean is the largest time that, taken as often as there are latencies, is not
/// more than they are together.
pub proof fn law_mean_is_rounded_down(latencies: &Vec<u128>, r: u128)
    requires
        latencies@.len() > 0,
        call_ensures(mean_latency, (latencies,), r),
    ensures
        r * latencies@.len() <= total(latencies@) < (r + 1) * latencies@.len(),
{
    let (t, n) = (total(latencies@) as int, latencies@.len() as int);
    assert((t / n) * n <= t < (t / n + 1) * n) by (nonlinear_arith)
        requires
            n > 0,
            t >= 0,
    ;
}

/// Weighted times add up whichever way they are parted, and a time counts as often
/// as its weight says.
pub proof fn law_weighted_totals_add_up(
    weights: Seq<u32>,
    latencies: Seq<u128>,
    weight: u32,
    latency: u128,
)
    requires
        weights.len() == latencies.len(),
    ensures
        weighted_total(weights.push(weight), latencies.push(latency)) == weighted_total(
            weights,
            latencies,
        ) + weight * latency,
        weighted_total(Seq::<u32>::empty(), Seq::<u128>::empty()) == 0,
{
    assert(weights.push(weight).drop_last() =~= weights);
    assert(latencies.push(latency).drop_last() =~= latencies);
    assert(latency as nat * weight as nat == weight * latency) by (nonlinear_arith);
}

/// The weighted mean is rounded down as well.
pub proof fn law_weighted_mean_is_rounded_down(
    weights: &Vec<u32>,
    latencies: &Vec<u128>,
    all: u32,
    r: u128,
)
    requires
        all > 0,
        call_ensures(weighted_latency, (weights, latencies, all), r),
    ensures
        r * all <= weighted_total(weights@, latencies@) < (r + 1) * all,
{
    let (t, n) = (weighted_total(weights@, latencies@) as int, all as int);
    assert((t / n) * n <= t < (t / n + 1) * n) by (nonlinear_arith)
        requires
            n > 0,
            t >= 0,
    ;
}

proof fn lemma_filter_parts(s: Seq<u128>, i: int, pred: spec_fn(u128) -> bool)
    requires
        0 <= i < s.len(),
    ensures
        s.filter(pred).len() == s.remove(i).filter(pred).len() + if pred(s[i]) {
            1int
        } else {
            0int
        },
{
    let (a, b) = (s.take(i), s.skip(i + 1));
    let one = seq![s[i]];
    assert(s =~= (a + one) + b);
    assert(s.remove(i) =~= a + b);
    Seq::filter_distributes_over_add(a + one, b, pred);
    Seq::filter_distributes_over_add(a, one, pred);
    Seq::filter_distributes_over_add(a, b, pred);
    reveal(Seq::filter);
    assert(one.drop_last() =~= Seq::<u128>::empty());
    assert(one.drop_last().filter(pred).len() == 0);
    assert(one.last() == s[i]);
}

proof fn lemma_same_counts(s: Seq<u128>, t: Seq<u128>, pred: spec_fn(u128) -> bool)
    requires
        s.to_multiset() == t.to_multiset(),
    ensures
        s.filter(pred).len() == t.filter(pred).len(),
        s.len() == t.len(),
    decreases s.len(),
{
    s.to_multiset_ensures();
    t.to_multiset_ensures();
    assert(s.len() == t.len());
    if s.len() > 0 {
        let last = s.len() - 1;
        let x = s[last];
        assert(s.contains(x));
        assert(s.to_multiset().count(x) > 0);
        assert(t.contains(x));
        let i = t.index_of(x);
        vstd::seq_lib::to_multiset_remove(s, last);
        vstd::seq_lib::to_multiset_remove(t, i);
        lemma_same_counts(s.remove(last), t.remove(i), pred);
        lemma_filter_parts(s, last, pred);
        lemma_filter_parts(t, i, pred);
    } else {
        assert(s =~= t);
    }
}

/// More than 99 of 100 latencies, rounded down, are not above the one that is given,
/// and no more than as many are below it. It is one of them.
pub proof fn law_percentile_splits_latencies(latencies: Vec<u128>, r: u128)
    requires
        latencies@.len() > 0,
        call_ensures(percentile_latency, (latencies,), r),
    ensures
        latencies@.contains(r),
        latencies@.filter(|time: u128| time <= r).len() > latencies@.len() * 99 / 100,
        latencies@.filter(|time: u128| time < r).len() <= latencies@.len() * 99 / 100,
{
    let times = latencies@;
    let p = times.len() as int * 99 / 100;
    let sorted = choose|sorted: Seq<u128>|
        {
            &&& crate::control::is_ascending(sorted)
            &&& #[trigger] sorted.to_multiset() == times.to_multiset()
            &&& 0 <= p < sorted.len()
            &&& sorted[p] == r
        };
    let most = |time: u128| time <= r;
    let few = |time: u128| time < r;
    lemma_same_counts(sorted, times, most);
    lemma_same_counts(sorted, times, few);
    sorted.to_multiset_ensures();
    times.to_multiset_ensures();
    assert(sorted.contains(r));
    assert(sorted.to_multiset().count(r) > 0);
    let (a, b) = (sorted.take(p + 1), sorted.skip(p + 1));
    assert(sorted =~= a + b);
    Seq::filter_distributes_over_add(a, b, most);
    lemma_all_count(a, most);
    let (c, d) = (sorted.take(p), sorted.skip(p));
    assert(sorted =~= c + d);
    Seq::filter_distributes_over_add(c, d, few);
    assert forall|i: int| 0 <= i < d.len() implies !few(#[trigger] d[i]) by {
        assert(d[i] == sorted[p + i]);
        assert(sorted[p] <= sorted[p + i]);
    }
    lemma_none_count(d, few);
    c.lemma_filter_len(few);
    assert(times.filter(most).len() > p);
    assert(times.filter(few).len() <= p);
}

proof fn lemma_all_count(s: Seq<u128>, pred: spec_fn(u128) -> bool)
    requires
        forall|i: int| 0 <= i < s.len() ==> pred(#[trigger] s[i]),
    ensures
        s.filter(pred).len() == s.len(),
    decreases s.len(),
{
    reveal(Seq::filter);
    if s.len() > 0 {
        assert(pred(s[s.len() - 1]));
        assert forall|i: int| 0 <= i < s.drop_last().len() implies pred(
            #[trigger] s.drop_last()[i],
        ) by {
            assert(s.drop_last()[i] == s[i]);
        }
        lemma_all_count(s.drop_last(), pred);
    }
}

proof fn lemma_none_count(s: Seq<u128>, pred: spec_fn(u128) -> bool)
    requires
        forall|i: int| 0 <= i < s.len() ==> !pred(#[trigger] s[i]),
    ensures
        s.filter(pred).len() == 0,
    decreases s.len(),
{
    reveal(Seq::filter);
    if s.len() > 0 {
        assert(!pred(s[s.len() - 1]));
        assert forall|i: int| 0 <= i < s.drop_last().len() implies !pred(
            #[trigger] s.drop_last()[i],
        ) by {
            assert(s.drop_last()[i] == s[i]);
        }
        lemma_none_count(s.drop_last(), pred);
    }
}

/// The number that a hexadecimal digit stands for.
pub open spec fn hex_value(digit: char) -> int {
    if '0' <= digit <= '9' {
        digit as int - '0' as int
    } else if 'a' <= digit <= 'f' {
        digit as int - 'a' as int + 10
    } else {
        -1
    }
}

/// An identifier in hexadecimal is read as its bytes: two digits each, the more
/// significant one first.
pub proof fn law_hex_is_read_back(id: &[u8; 32], r: String, i: int)
    requires
        call_ensures(hex_string, (id,), r),
        0 <= i < 32,
    ensures
        r@.len() == 64,
        0 <= hex_value(r@[2 * i]) < 16,
        0 <= hex_value(r@[2 * i + 1]) < 16,
        16 * hex_value(r@[2 * i]) + hex_value(r@[2 * i + 1]) == id@[i],
{
    let b = id@[i] as int;
    assert((2 * i) / 2 == i && (2 * i + 1) / 2 == i);
    assert((2 * i) % 2 == 0 && (2 * i + 1) % 2 == 1);
    assert(r@[2 * i] == crate::control::hex_digit(b / 16));
    assert(r@[2 * i + 1] == crate::control::hex_digit(b % 16));
    assert(0 <= b / 16 < 16 && 0 <= b % 16 < 16);
}

/// A message to one replica goes to that one alone, and one to all goes to each of
/// them once but to its sender.
pub proof fn law_message_leaves_for_its_replicas(
    num_replica: usize,
    id: u8,
    egress: Egress,
    r: Vec<u8>,
    other: u8,
)
    requires
        num_replica <= 255,
        call_ensures(egress_ids, (num_replica, id, egress), r),
    ensures
        r@.contains(other) <==> match egress {
            Egress::To(to) => other == to,
            Egress::ToAll => other < num_replica && other != id,
        },
        r@.no_duplicates(),
{
    match egress {
        Egress::To(to) => {
            assert(r@[0] == to);
        },
        Egress::ToAll => {
            crate::control::law_broadcast_reaches_all_others(num_replica as nat, id, other);
        },
    }
}

/// A result is noted with the time since the one before it.
pub proof fn law_latency_is_noted(
    workload: &mut Workload,
    result: &Vec<u8>,
    now: u128,
)
    requires
        old(workload).outstanding_start <= now,
        call_ensures(Workload::update, (workload, result, now), ()),
    ensures
        final(workload).latencies@.len() == old(workload).latencies@.len() + 1,
        final(workload).latencies@.last() + old(workload).outstanding_start == now,
        final(workload).latencies@.drop_last() == old(workload).latencies@,
        final(workload).outstanding_start == now,
{
    assert(final(workload).latencies@.drop_last() =~= old(workload).latencies@);
}

} // verus!
