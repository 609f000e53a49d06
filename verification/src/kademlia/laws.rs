//! What holds of a lookup: which peers are close, which are asked, and what is
//! learned from answers.

use vstd::prelude::*;

use crate::addr::{Addr, AddrView, IpAddr, SocketAddr};
use crate::crypto::{ecdsa_public_key, ecdsa_signature, sha256, Signer};
use crate::kademlia::setup::{peer_setup, setup_records};
use crate::kademlia::{
    agree, closest_records, distance, distance_of, has_id, is_next_contact, is_sorted, key_set,
    law_distance_is_injective, little_endian, rank, records_agree, views,
    with_record, with_records, xor_bytes, Distance, FindPeerOk, FindSession, Location, Message,
    MessageView, Peer, PeerId, PeerKey, PeerRecord, PeerRecordView,
};
use crate::transport::SendTo;

verus! {

proof fn lemma_little_endian_order(a: Seq<u8>, b: Seq<u8>, i: int)
    requires
        a.len() == b.len(),
        0 <= i < a.len(),
        a[i] < b[i],
        forall|j: int| i < j < a.len() ==> #[trigger] a[j] == b[j],
    ensures
        little_endian(a) < little_endian(b),
    decreases a.len(),
{
    let (x, y) = (a.drop_first(), b.drop_first());
    if i == 0 {
        assert(x =~= y) by {
            assert forall|j: int| 0 <= j < x.len() implies x[j] == y[j] by {
                assert(a[j + 1] == b[j + 1]);
            }
        }
    } else {
        assert forall|j: int| i - 1 < j < x.len() implies #[trigger] x[j] == y[j] by {
            assert(a[j + 1] == b[j + 1]);
        }
        lemma_little_endian_order(x, y, i - 1);
    }
}

/// Of two identifiers the one that differs less from a location is closer: the
/// last byte in which they differ from each other decides.
pub proof fn law_last_different_byte_decides(
    a: Seq<u8>,
    b: Seq<u8>,
    target: Seq<u8>,
    i: int,
)
    requires
        a.len() == 32,
        b.len() == 32,
        target.len() == 32,
        0 <= i < 32,
        a[i] ^ target[i] < b[i] ^ target[i],
        forall|j: int| i < j < 32 ==> #[trigger] a[j] == b[j],
    ensures
        distance_of(a, target) < distance_of(b, target),
{
    let (x, y) = (xor_bytes(a, target), xor_bytes(b, target));
    assert forall|j: int| i < j < 32 implies #[trigger] x[j] == y[j] by {
        assert(a[j] == b[j]);
    }
    lemma_little_endian_order(x, y, i);
}

/// The same of distances that are computed and compared.
pub proof fn law_distances_compare(
    a: &PeerId,
    b: &PeerId,
    target: &Location,
    x: Distance,
    y: Distance,
    r: bool,
    i: int,
)
    requires
        call_ensures(distance, (a, target), x),
        call_ensures(distance, (b, target), y),
        call_ensures(Distance::is_below, (&x, &y), r),
        0 <= i < 32,
        a@[i] ^ target@[i] < b@[i] ^ target@[i],
        forall|j: int| i < j < 32 ==> #[trigger] a@[j] == b@[j],
    ensures
        r,
{
    law_last_different_byte_decides(a@, b@, target@, i);
}

/// Two computed distances to a location are the same just for one identifier.
pub proof fn law_same_distance_is_same_identifier(
    a: &PeerId,
    b: &PeerId,
    target: &Location,
    x: Distance,
    y: Distance,
    r: bool,
)
    requires
        call_ensures(distance, (a, target), x),
        call_ensures(distance, (b, target), y),
        call_ensures(Distance::is_same, (&x, &y), r),
    ensures
        r <==> a@ == b@,
{
    if r {
        law_distance_is_injective(a@, b@, target@);
    }
}

/// The peer that is asked next is at least as close as every other candidate that
/// was not contacted.
pub proof fn law_next_contact_is_closest(
    closest: Seq<PeerRecordView>,
    contacted: Set<Seq<u8>>,
    target: Seq<u8>,
    i: int,
    j: int,
)
    requires
        is_sorted(closest, target),
        is_next_contact(closest, contacted, i),
        0 <= j < closest.len(),
        j < 20,
        !contacted.contains(closest[j].key),
    ensures
        !contacted.contains(closest[i].key),
        i < 20,
        distance_of(closest[i].id, target) <= distance_of(closest[j].id, target),
{
    if j < i {
        assert(contacted.contains(closest[j].key));
    }
    let (a, b) = (closest[i], closest[j]);
    assert(distance_of(a.id, target) <= distance_of(b.id, target));
}

/// Whether a key is in a list.
pub open spec fn lists_key(keys: Seq<PeerKey>, key: Seq<u8>) -> bool {
    exists|i: int| 0 <= i < keys.len() && (#[trigger] keys[i])@ == key
}

/// Whether one of the records that were known is asked: one of the twenty closest
/// that was not contacted, and closer than any other of those.
pub open spec fn asks_closest(session: FindSession, addr: AddrView, i: int) -> bool {
    &&& 0 <= i < session.closest@.len()
    &&& i < 20
    &&& !lists_key(session.contacted@, session.closest@[i].key@)
    &&& addr == session.closest@[i].addr@
    &&& forall|j: int|
        0 <= j < session.closest@.len() && j < 20 && !lists_key(
            session.contacted@,
            (#[trigger] session.closest@[j]).key@,
        ) ==> distance_of(session.closest@[i].id@, session.target@) <= distance_of(
            session.closest@[j].id@,
            session.target@,
        )
}

/// A lookup goes on with the closest candidate that was not contacted, which is
/// asked about the location under the own key. It is over just when all candidates
/// were contacted.
pub proof fn law_lookup_goes_on_with_the_closest(
    session: &FindSession,
    peer: &Peer,
    r: Option<SendTo<Message>>,
)
    requires
        session.wf(),
        call_ensures(FindSession::next_contact, (session, peer), r),
    ensures
        match r {
            Some(send) => {
                &&& exists|i: int| #[trigger] asks_closest(*session, send.destination@, i)
                &&& send.message@ matches MessageView::FindPeer(packet)
                &&& packet.inner == session.target@ + peer.key@
                &&& packet.signature == ecdsa_signature(
                    peer.signer.secret(),
                    sha256(session.target@ + peer.key@),
                )
            },
            None => forall|i: int|
                0 <= i < session.closest@.len() && i < 20 ==> lists_key(
                    session.contacted@,
                    (#[trigger] session.closest@[i]).key@,
                ),
        },
{
    let closest = views(session.closest@);
    let contacted = key_set(session.contacted@);
    assert forall|key: Seq<u8>| #[trigger] contacted.contains(key) <==> lists_key(
        session.contacted@,
        key,
    ) by {}
    match r {
        Some(send) => {
            let i = choose|i: int| #[trigger]
                is_next_contact(closest, contacted, i) && send.destination@
                    == session.closest@[i].addr@ && crate::kademlia::is_query(
                    peer,
                    session.target@,
                    send.message@,
                );
            assert(closest[i] == session.closest@[i]@);
            assert forall|j: int|
                0 <= j < session.closest@.len() && j < 20 && !lists_key(
                    session.contacted@,
                    (#[trigger] session.closest@[j]).key@,
                ) implies distance_of(session.closest@[i].id@, session.target@) <= distance_of(
                session.closest@[j].id@,
                session.target@,
            ) by {
                assert(closest[j] == session.closest@[j]@);
                law_next_contact_is_closest(closest, contacted, session.target@, i, j);
            }
            assert(asks_closest(*session, send.destination@, i));
        },
        None => {
            assert forall|i: int| 0 <= i < session.closest@.len() && i < 20 implies lists_key(
                session.contacted@,
                (#[trigger] session.closest@[i]).key@,
            ) by {
                assert(contacted.contains(session.closest@[i].key@));
            }
        },
    }
}

proof fn lemma_rank_splits(records: Seq<PeerRecordView>, target: Seq<u8>, d: nat)
    requires
        forall|i: int, j: int|
            0 <= i <= j < records.len() ==> distance_of((#[trigger] records[i]).id, target)
                <= distance_of((#[trigger] records[j]).id, target),
    ensures
        rank(records, target, d) <= records.len(),
        forall|i: int|
            0 <= i < rank(records, target, d) ==> distance_of((#[trigger] records[i]).id, target)
                < d,
        forall|i: int|
            rank(records, target, d) <= i < records.len() ==> distance_of(
                (#[trigger] records[i]).id,
                target,
            ) >= d,
    decreases records.len(),
{
    if records.len() > 0 {
        let shorter = records.drop_last();
        let last = records.len() - 1;
        assert forall|i: int, j: int| 0 <= i <= j < shorter.len() implies distance_of(
            (#[trigger] shorter[i]).id,
            target,
        ) <= distance_of((#[trigger] shorter[j]).id, target) by {
            assert(distance_of(records[i].id, target) <= distance_of(records[j].id, target));
        }
        lemma_rank_splits(shorter, target, d);
        let n = rank(shorter, target, d);
        assert forall|i: int| 0 <= i < n implies distance_of((#[trigger] records[i]).id, target)
            < d by {
            assert(shorter[i] == records[i]);
        }
        assert forall|i: int| n <= i < last implies distance_of((#[trigger] records[i]).id, target)
            >= d by {
            assert(shorter[i] == records[i]);
        }
        if n < last {
            assert(distance_of(records[n as int].id, target) <= distance_of(
                records[last].id,
                target,
            ));
        }
    }
}

/// Whether records are in the order of their distances and of different
/// identifiers.
pub open spec fn is_ranked(records: Seq<PeerRecordView>, target: Seq<u8>) -> bool {
    forall|i: int, j: int|
        0 <= i < j < records.len() ==> distance_of((#[trigger] records[i]).id, target)
            < distance_of((#[trigger] records[j]).id, target)
}

/// Whether a record is the first one of its identifier in a list.
pub open spec fn is_first(records: Seq<PeerRecordView>, record: PeerRecordView, k: int) -> bool {
    &&& 0 <= k < records.len()
    &&& records[k] == record
    &&& forall|j: int| 0 <= j < k ==> (#[trigger] records[j]).id != record.id
}

/// Whether a record is in a list, and before any other of its identifier.
pub open spec fn came_first(records: Seq<PeerRecordView>, record: PeerRecordView) -> bool {
    exists|k: int| is_first(records, record, k)
}

/// Whether no record has an identifier.
pub open spec fn lacks(records: Seq<PeerRecordView>, id: Seq<u8>) -> bool {
    forall|j: int| 0 <= j < records.len() ==> (#[trigger] records[j]).id != id
}

/// Whether records hold just those that were known and the first one of every
/// other identifier that came.
pub open spec fn is_merged(
    records: Seq<PeerRecordView>,
    more: Seq<PeerRecordView>,
    after: Seq<PeerRecordView>,
) -> bool {
    &&& forall|i: int| 0 <= i < records.len() ==> after.contains(#[trigger] records[i])
    &&& forall|i: int| 0 <= i < more.len() ==> !lacks(after, (#[trigger] more[i]).id)
    &&& forall|k: int|
        0 <= k < after.len() ==> records.contains(#[trigger] after[k]) || (came_first(
            more,
            after[k],
        ) && lacks(records, after[k].id))
}

spec fn in_order(records: Seq<PeerRecordView>, target: Seq<u8>) -> bool {
    forall|i: int, j: int|
        0 <= i <= j < records.len() ==> distance_of((#[trigger] records[i]).id, target)
            <= distance_of((#[trigger] records[j]).id, target)
}

spec fn have_ids(records: Seq<PeerRecordView>) -> bool {
    forall|i: int| 0 <= i < records.len() ==> (#[trigger] records[i]).id.len() == 32
}

/// One more record is there, in some place, or nothing has changed because its
/// identifier was there.
spec fn is_added(
    middle: Seq<PeerRecordView>,
    record: PeerRecordView,
    after: Seq<PeerRecordView>,
) -> bool {
    ||| after == middle && !lacks(middle, record.id)
    ||| lacks(middle, record.id) && exists|n: int|
        0 <= n <= middle.len() && after == #[trigger] middle.insert(n, record)
}

proof fn lemma_add_one(middle: Seq<PeerRecordView>, record: PeerRecordView, target: Seq<u8>)
    requires
        target.len() == 32,
        record.id.len() == 32,
        have_ids(middle),
        in_order(middle, target),
    ensures
        is_added(middle, record, with_record(middle, record, target)),
        have_ids(with_record(middle, record, target)),
        in_order(with_record(middle, record, target), target),
        is_ranked(middle, target) ==> is_ranked(with_record(middle, record, target), target),
{
    let after = with_record(middle, record, target);
    let d = distance_of(record.id, target);
    lemma_rank_splits(middle, target, d);
    let n = rank(middle, target, d) as int;
    if has_id(middle, record.id) {
        let k = choose|k: int| 0 <= k < middle.len() && #[trigger] middle[k].id == record.id;
        let held = middle[k];
        assert(!lacks(middle, record.id)) by {
            assert(held.id == record.id);
        }
    } else {
        assert(lacks(middle, record.id)) by {
            assert forall|j: int| 0 <= j < middle.len() implies (#[trigger] middle[j]).id
                != record.id by {
                let id = middle[j].id;
                if id == record.id {
                    assert(has_id(middle, record.id));
                }
            }
        }
        assert(after == middle.insert(n, record));
        assert forall|k: int| 0 <= k < middle.len() implies distance_of(
            (#[trigger] middle[k]).id,
            target,
        ) != d by {
            if distance_of(middle[k].id, target) == d {
                law_distance_is_injective(middle[k].id, record.id, target);
            }
        }
        assert forall|i: int| 0 <= i < after.len() implies (#[trigger] after[i]).id.len()
            == 32 by {
            if i < n {
                assert(after[i] == middle[i]);
            } else if i > n {
                assert(after[i] == middle[i - 1]);
            }
        }
        assert forall|i: int, j: int| 0 <= i <= j < after.len() implies distance_of(
            (#[trigger] after[i]).id,
            target,
        ) <= distance_of((#[trigger] after[j]).id, target) by {
            lemma_inserted(middle, target, n, record, i, j);
        }
        if is_ranked(middle, target) {
            assert forall|i: int, j: int| 0 <= i < j < after.len() implies distance_of(
                (#[trigger] after[i]).id,
                target,
            ) < distance_of((#[trigger] after[j]).id, target) by {
                lemma_inserted_ranked(middle, target, n, record, i, j);
            }
        }
    }
}

proof fn lemma_added_members(
    middle: Seq<PeerRecordView>,
    record: PeerRecordView,
    after: Seq<PeerRecordView>,
)
    requires
        is_added(middle, record, after),
    ensures
        forall|k: int| 0 <= k < middle.len() ==> after.contains(#[trigger] middle[k]),
        forall|id: Seq<u8>| #[trigger] lacks(after, id) ==> lacks(middle, id) && id != record.id,
        forall|k: int|
            0 <= k < after.len() ==> middle.contains(#[trigger] after[k]) || (after[k] == record
                && lacks(middle, record.id)),
{
    if after == middle && !lacks(middle, record.id) {
        assert forall|k: int| 0 <= k < middle.len() implies after.contains(
            #[trigger] middle[k],
        ) by {
            assert(after[k] == middle[k]);
        }
    } else {
        let n = choose|n: int|
            0 <= n <= middle.len() && after == #[trigger] middle.insert(n, record);
        assert(after[n] == record);
        assert forall|k: int| 0 <= k < middle.len() implies after.contains(
            #[trigger] middle[k],
        ) by {
            assert(after[if k < n {
                k
            } else {
                k + 1
            }] == middle[k]);
        }
        assert forall|id: Seq<u8>| #[trigger] lacks(after, id) implies lacks(middle, id) && id
            != record.id by {
            assert(after[n].id != id);
            assert forall|k: int| 0 <= k < middle.len() implies (#[trigger] middle[k]).id
                != id by {
                assert(after.contains(middle[k]));
                let m = after.index_of(middle[k]);
                assert(after[m].id != id);
            }
        }
        assert forall|k: int| 0 <= k < after.len() implies middle.contains(#[trigger] after[k]) || (
        after[k] == record && lacks(middle, record.id)) by {
            if k != n {
                assert(middle[if k < n {
                    k
                } else {
                    k - 1
                }] == after[k]);
            }
        }
    }
}

proof fn lemma_merge_one(
    records: Seq<PeerRecordView>,
    shorter: Seq<PeerRecordView>,
    middle: Seq<PeerRecordView>,
    record: PeerRecordView,
    after: Seq<PeerRecordView>,
)
    requires
        is_merged(records, shorter, middle),
        is_added(middle, record, after),
    ensures
        is_merged(records, shorter.push(record), after),
{
    let more = shorter.push(record);
    let last = shorter.len() as int;
    lemma_added_members(middle, record, after);
    assert forall|i: int| 0 <= i < records.len() implies after.contains(#[trigger] records[i]) by {
        assert(middle.contains(records[i]));
        let k = middle.index_of(records[i]);
        assert(after.contains(middle[k]));
    }
    assert forall|i: int| 0 <= i < more.len() implies !lacks(after, (#[trigger] more[i]).id) by {
        if i < last {
            assert(shorter[i] == more[i]);
            assert(!lacks(middle, shorter[i].id));
        }
    }
    assert forall|k: int| 0 <= k < after.len() implies records.contains(#[trigger] after[k]) || (
    came_first(more, after[k]) && lacks(records, after[k].id)) by {
        let held = after[k];
        if middle.contains(held) {
            let m = middle.index_of(held);
            assert(middle[m] == held);
            if !records.contains(held) {
                let i = choose|i: int| is_first(shorter, held, i);
                assert forall|j: int| 0 <= j < i implies (#[trigger] more[j]).id != held.id by {
                    assert(shorter[j] == more[j]);
                }
                assert(is_first(more, held, i));
            }
        } else {
            assert forall|j: int| 0 <= j < last implies (#[trigger] more[j]).id != record.id by {
                assert(shorter[j] == more[j]);
                assert(!lacks(middle, shorter[j].id));
            }
            assert(is_first(more, record, last));
            assert forall|j: int| 0 <= j < records.len() implies (#[trigger] records[j]).id
                != record.id by {
                assert(middle.contains(records[j]));
                let m = middle.index_of(records[j]);
                assert(middle[m].id != record.id);
            }
        }
    }
}

proof fn lemma_merged(records: Seq<PeerRecordView>, more: Seq<PeerRecordView>, target: Seq<u8>)
    requires
        target.len() == 32,
        have_ids(records),
        have_ids(more),
        in_order(records, target),
    ensures
        is_merged(records, more, with_records(records, more, target)),
        have_ids(with_records(records, more, target)),
        in_order(with_records(records, more, target), target),
        is_ranked(records, target) ==> is_ranked(with_records(records, more, target), target),
    decreases more.len(),
{
    let after = with_records(records, more, target);
    if more.len() == 0 {
        assert(after == records);
        assert forall|i: int| 0 <= i < records.len() implies after.contains(
            #[trigger] records[i],
        ) by {}
    } else {
        let shorter = more.drop_last();
        let record = more.last();
        let middle = with_records(records, shorter, target);
        assert forall|i: int| 0 <= i < shorter.len() implies (#[trigger] shorter[i]).id.len()
            == 32 by {
            assert(more[i].id.len() == 32);
        }
        assert(more[more.len() - 1].id.len() == 32);
        lemma_merged(records, shorter, target);
        lemma_add_one(middle, record, target);
        lemma_merge_one(records, shorter, middle, record, after);
        assert(shorter.push(record) =~= more);
    }
}

proof fn lemma_inserted(
    middle: Seq<PeerRecordView>,
    target: Seq<u8>,
    n: int,
    record: PeerRecordView,
    i: int,
    j: int,
)
    requires
        0 <= n <= middle.len(),
        0 <= i <= j < middle.len() + 1,
        forall|a: int, b: int|
            0 <= a <= b < middle.len() ==> distance_of((#[trigger] middle[a]).id, target)
                <= distance_of((#[trigger] middle[b]).id, target),
        forall|a: int|
            0 <= a < n ==> distance_of((#[trigger] middle[a]).id, target) < distance_of(
                record.id,
                target,
            ),
        forall|a: int|
            n <= a < middle.len() ==> distance_of((#[trigger] middle[a]).id, target)
                >= distance_of(record.id, target),
    ensures
        distance_of(middle.insert(n, record)[i].id, target) <= distance_of(
            middle.insert(n, record)[j].id,
            target,
        ),
{
    let after = middle.insert(n, record);
    let a = if i < n {
        i
    } else {
        i - 1
    };
    let b = if j < n {
        j
    } else {
        j - 1
    };
    if i != n {
        assert(after[i] == middle[a]);
    }
    if j != n {
        assert(after[j] == middle[b]);
    }
}

proof fn lemma_inserted_ranked(
    middle: Seq<PeerRecordView>,
    target: Seq<u8>,
    n: int,
    record: PeerRecordView,
    i: int,
    j: int,
)
    requires
        0 <= n <= middle.len(),
        0 <= i < j < middle.len() + 1,
        is_ranked(middle, target),
        forall|a: int|
            0 <= a < n ==> distance_of((#[trigger] middle[a]).id, target) < distance_of(
                record.id,
                target,
            ),
        forall|a: int|
            n <= a < middle.len() ==> distance_of((#[trigger] middle[a]).id, target)
                > distance_of(record.id, target),
    ensures
        distance_of(middle.insert(n, record)[i].id, target) < distance_of(
            middle.insert(n, record)[j].id,
            target,
        ),
{
    let after = middle.insert(n, record);
    let a = if i < n {
        i
    } else {
        i - 1
    };
    let b = if j < n {
        j
    } else {
        j - 1
    };
    if i != n {
        assert(after[i] == middle[a]);
    }
    if j != n {
        assert(after[j] == middle[b]);
    }
}

/// The closest records come in the order of their distances, each identifier once,
/// and for each the first record of it. There are as many as were asked for, unless
/// there are no more, and no record that was left out is closer than one that was
/// not.
pub proof fn law_closest_records_are_closest(
    records: &Vec<PeerRecord>,
    target: &Location,
    count: usize,
    r: Vec<PeerRecord>,
    k: int,
)
    requires
        call_ensures(closest_records, (records, target, count), r),
        0 <= k < records@.len(),
    ensures
        is_ranked(views(r@), target@),
        r@.len() <= count,
        forall|i: int|
            0 <= i < r@.len() ==> came_first(views(records@), (#[trigger] r@[i])@),
        ({
            let id = records@[k].id@;
            ||| exists|i: int| 0 <= i < r@.len() && (#[trigger] r@[i]).id@ == id
            ||| r@.len() == count && forall|i: int|
                0 <= i < r@.len() ==> distance_of((#[trigger] r@[i]).id@, target@) < distance_of(
                    id,
                    target@,
                )
        }),
{
    let more = views(records@);
    let none = Seq::<PeerRecordView>::empty();
    let all = with_records(none, more, target@);
    let id = records@[k].id@;
    assert forall|i: int| 0 <= i < more.len() implies (#[trigger] more[i]).id.len() == 32 by {
        assert(more[i] == records@[i]@);
    }
    lemma_merged(none, more, target@);
    let part = views(r@);
    assert forall|i: int| 0 <= i < part.len() implies #[trigger] part[i] == all[i] by {}
    assert forall|i: int| 0 <= i < r@.len() implies came_first(more, (#[trigger] r@[i])@) by {
        assert(part[i] == r@[i]@);
        assert(!none.contains(all[i]));
    }
    assert(more[k].id == id);
    assert(!lacks(all, more[k].id));
    let m = choose|m: int| 0 <= m < all.len() && (#[trigger] all[m]).id == more[k].id;
    if m < part.len() {
        assert(part[m] == r@[m]@);
        assert(r@[m].id@ == id);
    } else {
        assert forall|i: int| 0 <= i < r@.len() implies distance_of((#[trigger] r@[i]).id@, target@)
            < distance_of(id, target@) by {
            assert(part[i] == r@[i]@);
            assert(distance_of(all[i].id, target@) < distance_of(all[m].id, target@));
        }
    }
}

/// An answer counts just if its sender was asked. Then the sender was contacted,
/// and what is known afterwards is what was known and the first record of every
/// other identifier in the answer, in the order of distances. Other answers change
/// nothing.
pub proof fn law_answer_adds_its_records(
    session: &mut FindSession,
    message: FindPeerOk,
    r: bool,
    key: Seq<u8>,
)
    requires
        old(session).wf(),
        call_ensures(FindSession::on_message, (session, message), r),
    ensures
        r <==> lists_key(old(session).contacting@, message.peer_key@),
        final(session).target == old(session).target,
        lists_key(final(session).contacting@, key) <==> lists_key(old(session).contacting@, key)
            && !(r && key == message.peer_key@),
        lists_key(final(session).contacted@, key) <==> lists_key(old(session).contacted@, key) || (r
            && key == message.peer_key@),
        !r ==> final(session).closest == old(session).closest,
        r ==> {
            &&& is_merged(
                views(old(session).closest@),
                views(message.closest@),
                views(final(session).closest@),
            )
            &&& forall|i: int, j: int|
                0 <= i <= j < final(session).closest@.len() ==> distance_of(
                    (#[trigger] final(session).closest@[i]).id@,
                    old(session).target@,
                ) <= distance_of(
                    (#[trigger] final(session).closest@[j]).id@,
                    old(session).target@,
                )
            &&& is_ranked(views(old(session).closest@), old(session).target@) ==> is_ranked(
                views(final(session).closest@),
                old(session).target@,
            )
        },
{
    let (a, b) = (*old(session), *final(session));
    assert(key_set(a.contacting@).contains(key) <==> lists_key(a.contacting@, key));
    assert(key_set(b.contacting@).contains(key) <==> lists_key(b.contacting@, key));
    assert(key_set(a.contacted@).contains(key) <==> lists_key(a.contacted@, key));
    assert(key_set(b.contacted@).contains(key) <==> lists_key(b.contacted@, key));
    assert(key_set(a.contacting@).contains(message.peer_key@) <==> lists_key(
        a.contacting@,
        message.peer_key@,
    ));
    if r {
        let records = views(a.closest@);
        let more = views(message.closest@);
        assert forall|i: int| 0 <= i < records.len() implies (#[trigger] records[i]).id.len()
            == 32 by {
            assert(records[i] == a.closest@[i]@);
        }
        assert forall|i: int| 0 <= i < more.len() implies (#[trigger] more[i]).id.len() == 32 by {
            assert(more[i] == message.closest@[i]@);
        }
        assert forall|i: int, j: int| 0 <= i <= j < records.len() implies distance_of(
            (#[trigger] records[i]).id,
            a.target@,
        ) <= distance_of((#[trigger] records[j]).id, a.target@) by {
            let (p, q) = (records[i].id, records[j].id);
            assert(is_sorted(records, a.target@));
            assert(distance_of(p, a.target@) <= distance_of(q, a.target@));
        }
        lemma_merged(records, more, a.target@);
        let after = views(b.closest@);
        assert forall|i: int, j: int| 0 <= i <= j < b.closest@.len() implies distance_of(
            (#[trigger] b.closest@[i]).id@,
            a.target@,
        ) <= distance_of((#[trigger] b.closest@[j]).id@, a.target@) by {
            assert(after[i] == b.closest@[i]@);
            assert(after[j] == b.closest@[j]@);
        }
    }
}

/// A lookup starts by asking the three closest peers that are known, or as many as
/// there are, and nobody has answered yet.
pub proof fn law_lookup_starts_with_three(
    peer: &Peer,
    target: Location,
    local_closest: Vec<PeerRecord>,
    r: (FindSession, Vec<SendTo<Message>>),
    key: Seq<u8>,
    i: int,
)
    requires
        call_ensures(FindSession::start, (peer, target, local_closest), r),
    ensures
        r.0.target == target,
        r.0.closest == local_closest,
        !lists_key(r.0.contacted@, key),
        lists_key(r.0.contacting@, key) <==> exists|k: int|
            0 <= k < 3 && k < local_closest@.len() && (#[trigger] local_closest@[k]).key@ == key,
        0 <= i < r.1@.len() <==> 0 <= i < 3 && i < local_closest@.len(),
        0 <= i < r.1@.len() ==> {
            &&& r.1@[i].destination@ == local_closest@[i].addr@
            &&& r.1@[i].message@ matches MessageView::FindPeer(packet)
            &&& packet.inner == target@ + peer.key@
            &&& packet.signature == ecdsa_signature(
                peer.signer.secret(),
                sha256(target@ + peer.key@),
            )
        },
{
    let (contacted, contacting) = (r.0.contacted@, r.0.contacting@);
    assert(key_set(contacted).contains(key) <==> lists_key(contacted, key));
    assert(key_set(contacting).contains(key) <==> lists_key(contacting, key));
    let known = views(local_closest@);
    assert forall|k: int| 0 <= k < known.len() implies #[trigger] known[k].key
        == local_closest@[k].key@ by {}
    if lists_key(contacting, key) {
        let k = choose|k: int| 0 <= k < known.len() && k < 3 && #[trigger] known[k].key == key;
        assert(local_closest@[k].key@ == key);
    }
    if exists|k: int|
        0 <= k < 3 && k < local_closest@.len() && (#[trigger] local_closest@[k]).key@ == key {
        let k = choose|k: int|
            0 <= k < 3 && k < local_closest@.len() && (#[trigger] local_closest@[k]).key@ == key;
        assert(known[k].key == key);
    }
}

/// Records agree just if no identifier has two keys or two addresses in them.
pub proof fn law_records_agree_on_identifiers(a: &Vec<PeerRecord>, b: &Vec<PeerRecord>, r: bool)
    requires
        call_ensures(records_agree, (a, b), r),
    ensures
        r <==> forall|i: int, j: int|
            0 <= i < a@.len() && 0 <= j < b@.len() && (#[trigger] a@[i]).id@ == (
            #[trigger] b@[j]).id@ ==> a@[i].key@ == b@[j].key@ && a@[i].addr@ == b@[j].addr@,
{
    let (va, vb) = (views(a@), views(b@));
    assert forall|i: int| 0 <= i < a@.len() implies #[trigger] va[i] == a@[i]@ by {}
    assert forall|j: int| 0 <= j < b@.len() implies #[trigger] vb[j] == b@[j]@ by {}
    if r {
        assert forall|i: int, j: int|
            0 <= i < a@.len() && 0 <= j < b@.len() && (#[trigger] a@[i]).id@ == (
            #[trigger] b@[j]).id@ implies a@[i].key@ == b@[j].key@ && a@[i].addr@
            == b@[j].addr@ by {
            assert(va[i] == a@[i]@ && vb[j] == b@[j]@);
            assert(va[i] == vb[j]);
        }
    }
    if forall|i: int, j: int|
        0 <= i < a@.len() && 0 <= j < b@.len() && (#[trigger] a@[i]).id@ == (#[trigger] b@[j]).id@
            ==> a@[i].key@ == b@[j].key@ && a@[i].addr@ == b@[j].addr@ {
        assert forall|i: int, j: int|
            0 <= i < va.len() && 0 <= j < vb.len() && (#[trigger] va[i]).id == (
            #[trigger] vb[j]).id implies va[i] == vb[j] by {
            assert(a@[i].id@ == b@[j].id@);
        }
        assert(agree(va, vb));
    }
}

/// The peers of a setup are counted host by host. Each one is on its host, under the
/// port of its place from 20000 on, and is identified by the digest of its key. The
/// signers of a host are those of its peers.
pub proof fn law_peers_are_placed_on_hosts(
    seed: u64,
    hosts: &Vec<IpAddr>,
    num_host_peer: usize,
    index: usize,
    r: (Vec<PeerRecord>, Vec<Signer>),
    h: int,
    j: int,
)
    requires
        call_ensures(peer_setup, (seed, hosts, num_host_peer, index), r),
        0 <= h < hosts@.len(),
        0 <= j < num_host_peer,
        20000 + num_host_peer <= 65536,
    ensures
        r.0@.len() == hosts@.len() * num_host_peer,
        r.1@.len() == num_host_peer,
        0 <= h * num_host_peer + j < r.0@.len(),
        ({
            let record = r.0@[h * num_host_peer + j];
            &&& record.id@ == sha256(record.key@)
            &&& match (hosts@[h], record.addr) {
                (IpAddr::V4(ip), Addr::Socket(SocketAddr::V4(at))) => at.ip == ip && at.port
                    == 20000 + j,
                (IpAddr::V6(ip), Addr::Socket(SocketAddr::V6(at))) => at.ip == ip && at.port
                    == 20000 + j,
                _ => false,
            }
            &&& h == index ==> record.key@ == ecdsa_public_key(r.1@[j].secret())
        }),
{
    let n = num_host_peer as int;
    let place = h * n + j;
    let count = hosts@.len() as int;
    assert(0 <= place < count * n && place / n == h && place % n == j) by (nonlinear_arith)
        requires
            0 <= h < count,
            0 <= j < n,
            place == h * n + j,
    ;
    let all = setup_records(seed, hosts@, num_host_peer as nat);
    assert(views(r.0@).len() == all.len());
    let record = r.0@[place];
    assert(views(r.0@)[place] == record@);
    assert(all[place].id == sha256(all[place].key));
    if h == index {
        assert(r.0@[index * num_host_peer + j].key@ == ecdsa_public_key(r.1@[j].secret()));
    }
}

} // verus!
