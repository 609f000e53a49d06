//! The bytes of a book of sockets. Each of its maps is a sequence of entries, which
//! is written with ascending keys and read in any order: of entries with the same
//! key, the last one counts.

use std::collections::{BTreeMap, HashMap};

use vstd::prelude::*;

use crate::addr::{plain_socket, SocketAddr};
use crate::error::Error;
use crate::replication::SocketAddrBook;
use crate::wire::{decode, decodes, encode, Encode, Format};

verus! {

/// The entries of a book: those of replicas, and those of clients.
pub type BookEntries = (Vec<(u8, SocketAddr)>, Vec<(u32, SocketAddr)>);

/// How many keys a client can have.
pub open spec fn num_client_keys() -> nat {
    0x1_0000_0000
}

/// The entries of replicas below a number, in ascending order.
pub open spec fn replica_entries(m: Map<u8, SocketAddr>, n: nat) -> Seq<(u8, SocketAddr)>
    decreases n,
{
    if n == 0 {
        Seq::empty()
    } else {
        let before = replica_entries(m, (n - 1) as nat);
        let key = (n - 1) as u8;
        if m.contains_key(key) {
            before.push((key, m[key]))
        } else {
            before
        }
    }
}

/// The entries of clients below a number, in ascending order.
pub open spec fn client_entries(m: Map<u32, SocketAddr>, n: nat) -> Seq<(u32, SocketAddr)>
    decreases n,
{
    if n == 0 {
        Seq::empty()
    } else {
        let before = client_entries(m, (n - 1) as nat);
        let key = (n - 1) as u32;
        if m.contains_key(key) {
            before.push((key, m[key]))
        } else {
            before
        }
    }
}

/// What entries come to when they are taken in, one after the other.
pub open spec fn collected<K>(entries: Seq<(K, SocketAddr)>) -> Map<K, SocketAddr>
    decreases entries.len(),
{
    if entries.len() == 0 {
        Map::empty()
    } else {
        collected(entries.drop_last()).insert(entries.last().0, entries.last().1)
    }
}

/// What the bytes of addresses say.
pub open spec fn plain_addrs<K>(m: Map<K, SocketAddr>) -> Map<K, SocketAddr> {
    m.map_values(|addr: SocketAddr| plain_socket(addr))
}

/// Whether entries are those of clients, with ascending keys.
spec fn lists_clients(entries: Seq<(u32, SocketAddr)>, m: Map<u32, SocketAddr>, n: nat) -> bool {
    &&& forall|i: int, j: int|
        0 <= i < j < entries.len() ==> (#[trigger] entries[i]).0 < (#[trigger] entries[j]).0
    &&& forall|i: int|
        0 <= i < entries.len() ==> {
            &&& (#[trigger] entries[i]).0 < n
            &&& m.contains_key(entries[i].0)
            &&& m[entries[i].0] == entries[i].1
        }
    &&& forall|k: u32| k < n && #[trigger] m.contains_key(k) ==> has_entry(entries, k)
}

spec fn has_entry(entries: Seq<(u32, SocketAddr)>, k: u32) -> bool {
    exists|i: int| 0 <= i < entries.len() && (#[trigger] entries[i]).0 == k
}

proof fn lemma_client_entries(entries: Seq<(u32, SocketAddr)>, m: Map<u32, SocketAddr>, n: nat)
    requires
        lists_clients(entries, m, n),
        n <= num_client_keys(),
    ensures
        client_entries(m, n) == entries,
    decreases n,
{
    if n == 0 {
        if entries.len() > 0 {
            assert(entries[0].0 < n);
        }
        assert(entries =~= Seq::empty());
    } else {
        let key = (n - 1) as u32;
        if m.contains_key(key) {
            assert(has_entry(entries, key));
            let i = choose|i: int| 0 <= i < entries.len() && (#[trigger] entries[i]).0 == key;
            let last = entries.len() - 1;
            assert(i == last) by {
                if i < last {
                    assert(entries[i].0 < entries[last].0);
                    assert(entries[last].0 < n);
                }
            }
            let before = entries.drop_last();
            assert forall|k: u32| k < n - 1 && #[trigger] m.contains_key(k) implies has_entry(
                before,
                k,
            ) by {
                assert(has_entry(entries, k));
                let j = choose|j: int| 0 <= j < entries.len() && (#[trigger] entries[j]).0 == k;
                assert(before[j].0 == k);
            }
            assert forall|j: int| 0 <= j < before.len() implies {
                &&& (#[trigger] before[j]).0 < n - 1
                &&& m.contains_key(before[j].0)
                &&& m[before[j].0] == before[j].1
            } by {
                assert(entries[j].0 < entries[last].0);
            }
            lemma_client_entries(before, m, (n - 1) as nat);
            assert(entries =~= before.push((key, m[key])));
        } else {
            assert forall|j: int| 0 <= j < entries.len() implies (#[trigger] entries[j]).0 < n
                - 1 by {
                assert(m.contains_key(entries[j].0));
            }
            lemma_client_entries(entries, m, (n - 1) as nat);
        }
    }
}

/// Puts an entry in its place among entries with ascending keys.
fn insert_entry(entries: &mut Vec<(u32, SocketAddr)>, key: u32, addr: SocketAddr)
    requires
        forall|i: int, j: int|
            0 <= i < j < old(entries)@.len() ==> (#[trigger] old(entries)@[i]).0 < (
            #[trigger] old(entries)@[j]).0,
        !has_entry(old(entries)@, key),
    ensures
        forall|i: int, j: int|
            0 <= i < j < final(entries)@.len() ==> (#[trigger] final(entries)@[i]).0 < (
            #[trigger] final(entries)@[j]).0,
        exists|place: int|
            0 <= place <= old(entries)@.len() && final(entries)@ == #[trigger] old(
                entries,
            )@.insert(place, (key, addr)),
{
    let mut place: usize = entries.len();
    while place > 0 && entries[place - 1].0 > key
        invariant
            entries@ == old(entries)@,
            place <= entries@.len(),
            forall|i: int| place <= i < entries@.len() ==> (#[trigger] entries@[i]).0 > key,
        decreases place,
    {
        place -= 1;
    }
    assert(place > 0 ==> entries@[place - 1].0 < key);
    assert forall|i: int| 0 <= i < place implies (#[trigger] entries@[i]).0 < key by {
        if i < place - 1 {
            assert(entries@[i].0 < entries@[place - 1].0);
        }
    }
    entries.insert(place, (key, addr));
}

impl SocketAddrBook {
    /// Where replicas are, as far as bytes say.
    pub open spec fn plain_replicas(&self) -> Map<u8, SocketAddr> {
        plain_addrs(self.replica_addrs@)
    }

    /// Where clients are, as far as bytes say.
    pub open spec fn plain_clients(&self) -> Map<u32, SocketAddr> {
        plain_addrs(self.client_addrs@)
    }

    /// The entries of the book, in the order in which they are written.
    pub open spec fn listed(&self) -> (Seq<(u8, SocketAddr)>, Seq<(u32, SocketAddr)>) {
        (
            replica_entries(self.plain_replicas(), 256),
            client_entries(self.plain_clients(), num_client_keys()),
        )
    }

    fn replicas(&self) -> (r: Vec<(u8, SocketAddr)>)
        ensures
            r.deep_view() == replica_entries(self.plain_replicas(), 256),
    {
        let mut r: Vec<(u8, SocketAddr)> = Vec::new();
        let ghost m = self.plain_replicas();
        let mut n: u16 = 0;
        assert(r.deep_view() =~= replica_entries(m, 0));
        while n < 256
            invariant
                n <= 256,
                m == self.plain_replicas(),
                r.deep_view() == replica_entries(m, n as nat),
            decreases 256 - n,
        {
            let key: u8 = n as u8;
            let ghost before = r.deep_view();
            if let Some(addr) = self.replica_addrs.get(&key) {
                r.push((key, *addr));
                assert(r.deep_view() =~= before.push((key, m[key])));
            }
            n += 1;
        }
        r
    }

    fn clients(&self) -> (r: Vec<(u32, SocketAddr)>)
        ensures
            r.deep_view() == client_entries(self.plain_clients(), num_client_keys()),
    {
        let mut r: Vec<(u32, SocketAddr)> = Vec::new();
        let ghost mut seen: Seq<u32> = Seq::empty();
        for key in it: self.client_addrs.keys()
            invariant
                it.seq().unref().to_set() == self.client_addrs@.dom(),
                it.seq().unref().no_duplicates(),
                seen == it.seq().unref().take(it.index() as int),
                it.index() == it.seq().len() ==> seen == it.seq().unref(),
                forall|i: int, j: int|
                    0 <= i < j < r@.len() ==> (#[trigger] r@[i]).0 < (#[trigger] r@[j]).0,
                forall|i: int|
                    0 <= i < r@.len() ==> {
                        &&& seen.contains((#[trigger] r@[i]).0)
                        &&& self.client_addrs@.contains_key(r@[i].0)
                        &&& self.client_addrs@[r@[i].0] == r@[i].1
                    },
                forall|k: u32| #[trigger] seen.contains(k) ==> has_entry(r@, k),
        {
            let ghost all = it.seq().unref();
            let ghost before = r@;
            assert(all[it.index() as int] == *key && all.contains(*key));
            assert(!has_entry(r@, *key)) by {
                if has_entry(r@, *key) {
                    let i = choose|i: int| 0 <= i < r@.len() && (#[trigger] r@[i]).0 == *key;
                    assert(seen.contains(r@[i].0));
                    let j = seen.index_of(*key);
                    assert(all[j] == all[it.index() as int]);
                }
            }
            let addr = *self.client_addrs.get(key).unwrap();
            insert_entry(&mut r, *key, addr);
            proof {
                let place = choose|place: int|
                    0 <= place <= before.len() && r@ == #[trigger] before.insert(
                        place,
                        (*key, addr),
                    );
                let after = seen.push(*key);
                assert(it.index() + 1 == it.seq().len() ==> after =~= all);
                assert(after =~= all.take(it.index() + 1));
                assert forall|k: u32| #[trigger] after.contains(k) implies has_entry(r@, k) by {
                    if k == *key {
                        assert(r@[place].0 == k);
                    } else {
                        let s = after.index_of(k);
                        assert(seen[s] == k);
                        assert(seen.contains(k));
                        let i = choose|i: int|
                            0 <= i < before.len() && (#[trigger] before[i]).0 == k;
                        assert(r@[if i < place { i } else { i + 1 }].0 == k);
                    }
                }
                assert forall|i: int| 0 <= i < r@.len() implies {
                    &&& after.contains((#[trigger] r@[i]).0)
                    &&& self.client_addrs@.contains_key(r@[i].0)
                    &&& self.client_addrs@[r@[i].0] == r@[i].1
                } by {
                    if i == place {
                        assert(after[after.len() - 1] == r@[i].0);
                    } else {
                        let j = if i < place { i } else { i - 1 };
                        assert(r@[i] == before[j]);
                        let s = seen.index_of(before[j].0);
                        assert(after[s] == before[j].0);
                    }
                }
                seen = after;
            }
        }
        proof {
            let m = self.plain_clients();
            let entries = r.deep_view();
            assert forall|k: u32| #[trigger] m.contains_key(k) implies has_entry(entries, k) by {
                assert(seen.to_set().contains(k));
                assert(has_entry(r@, k));
                let i = choose|i: int| 0 <= i < r@.len() && (#[trigger] r@[i]).0 == k;
                assert(entries[i].0 == k);
            }
            assert forall|i: int, j: int| 0 <= i < j < entries.len() implies (
            #[trigger] entries[i]).0 < (#[trigger] entries[j]).0 by {
                assert(r@[i].0 < r@[j].0);
            }
            assert forall|i: int| 0 <= i < entries.len() implies {
                &&& (#[trigger] entries[i]).0 < num_client_keys()
                &&& m.contains_key(entries[i].0)
                &&& m[entries[i].0] == entries[i].1
            } by {
                assert(self.client_addrs@.contains_key(r@[i].0));
            }
            lemma_client_entries(entries, m, num_client_keys());
        }
        r
    }

    /// The bytes of the book.
    pub fn to_vec(&self) -> (r: Result<Vec<u8>, Error>)
        ensures
            match r {
                Ok(bytes) => BookEntries::encodable(self.listed()) && bytes@
                    == BookEntries::encoding(self.listed()),
                Err(e) => e == Error::Encoding && !BookEntries::encodable(self.listed()),
            },
    {
        let entries: BookEntries = (self.replicas(), self.clients());
        assert(entries.deep_view() == self.listed());
        encode(&entries)
    }

    /// The book in bytes.
    pub fn from_slice(bytes: &[u8]) -> (r: Result<Self, Error>)
        ensures
            match r {
                Ok(book) => book.is_read_from(bytes@),
                Err(e) => e == Error::Decoding && !decodes::<BookEntries>(bytes@),
            },
    {
        let (replicas, clients) = match decode::<BookEntries>(bytes) {
            Ok(entries) => entries,
            Err(e) => {
                return Err(e);
            },
        };
        let ghost entries = (replicas.deep_view(), clients.deep_view());
        let mut replica_addrs: HashMap<u8, SocketAddr> = HashMap::new();
        let mut i: usize = 0;
        assert(entries.0.take(0) =~= Seq::empty());
        while i < replicas.len()
            invariant
                i <= replicas@.len(),
                entries.0 == replicas.deep_view(),
                replicas.is_plain(),
                replica_addrs@ == collected(entries.0.take(i as int)),
            decreases replicas@.len() - i,
        {
            let (key, addr) = replicas[i];
            replica_addrs.insert(key, addr);
            proof {
                assert(replicas@[i as int].is_plain());
                assert(entries.0.take(i + 1).drop_last() =~= entries.0.take(i as int));
            }
            i += 1;
        }
        assert(entries.0.take(i as int) =~= entries.0);
        let mut client_addrs: BTreeMap<u32, SocketAddr> = BTreeMap::new();
        let mut i: usize = 0;
        assert(entries.1.take(0) =~= Seq::empty());
        while i < clients.len()
            invariant
                i <= clients@.len(),
                entries.1 == clients.deep_view(),
                clients.is_plain(),
                client_addrs@ == collected(entries.1.take(i as int)),
            decreases clients@.len() - i,
        {
            let (key, addr) = clients[i];
            client_addrs.insert(key, addr);
            proof {
                assert(clients@[i as int].is_plain());
                assert(entries.1.take(i + 1).drop_last() =~= entries.1.take(i as int));
            }
            i += 1;
        }
        assert(entries.1.take(i as int) =~= entries.1);
        let book = SocketAddrBook { replica_addrs, client_addrs };
        assert(book.holds(entries));
        Ok(book)
    }

    /// Whether the book is what entries come to.
    pub open spec fn holds(
        &self,
        entries: (Seq<(u8, SocketAddr)>, Seq<(u32, SocketAddr)>),
    ) -> bool {
        self.replica_addrs@ == collected(entries.0) && self.client_addrs@ == collected(entries.1)
    }

    /// Whether the book is what the entries in bytes come to.
    pub open spec fn is_read_from(&self, bytes: Seq<u8>) -> bool {
        exists|entries: (Seq<(u8, SocketAddr)>, Seq<(u32, SocketAddr)>)|
            {
                &&& BookEntries::encodable(entries)
                &&& bytes == BookEntries::encoding(entries)
                &&& #[trigger] self.holds(entries)
            }
    }
}

proof fn lemma_collected_replicas(m: Map<u8, SocketAddr>, n: nat)
    requires
        n <= 256,
    ensures
        collected(replica_entries(m, n)) == m.restrict(Set::new(|k: u8| k < n)),
    decreases n,
{
    if n > 0 {
        let key = (n - 1) as u8;
        let before = replica_entries(m, (n - 1) as nat);
        lemma_collected_replicas(m, (n - 1) as nat);
        assert(before.push((key, m[key])).drop_last() =~= before);
        if m.contains_key(key) {
            let after = replica_entries(m, n);
            assert(after == before.push((key, m[key])));
            assert(collected(after) == collected(before).insert(key, m[key]));
        }
    }
    assert(collected(replica_entries(m, n)) =~= m.restrict(Set::new(|k: u8| k < n)));
}

proof fn lemma_collected_clients(m: Map<u32, SocketAddr>, n: nat)
    requires
        n <= num_client_keys(),
    ensures
        collected(client_entries(m, n)) == m.restrict(Set::new(|k: u32| k < n)),
    decreases n,
{
    if n > 0 {
        let key = (n - 1) as u32;
        let before = client_entries(m, (n - 1) as nat);
        lemma_collected_clients(m, (n - 1) as nat);
        assert(before.push((key, m[key])).drop_last() =~= before);
        if m.contains_key(key) {
            let after = client_entries(m, n);
            assert(after == before.push((key, m[key])));
            assert(collected(after) == collected(before).insert(key, m[key]));
        }
    }
    assert(collected(client_entries(m, n)) =~= m.restrict(Set::new(|k: u32| k < n)));
}

/// A book that is written and read back is the same, but for the parts of
/// addresses that are not in the bytes.
pub proof fn law_book_round_trip(
    book: SocketAddrBook,
    written: Vec<u8>,
    bytes: &[u8],
    read: Result<SocketAddrBook, Error>,
)
    requires
        call_ensures(SocketAddrBook::to_vec, (&book,), Ok(written)),
        bytes@ == written@,
        call_ensures(SocketAddrBook::from_slice, (bytes,), read),
    ensures
        read matches Ok(other) && other.replica_addrs@ == book.plain_replicas()
            && other.client_addrs@ == book.plain_clients(),
{
    let listed = book.listed();
    let nothing = Seq::<u8>::empty();
    assert(decodes::<BookEntries>(bytes@));
    let other = read.unwrap();
    let entries = choose|entries: (Seq<(u8, SocketAddr)>, Seq<(u32, SocketAddr)>)|
        {
            &&& BookEntries::encodable(entries)
            &&& bytes@ == BookEntries::encoding(entries)
            &&& #[trigger] other.holds(entries)
        };
    assert(BookEntries::encoding(entries) + nothing =~= BookEntries::encoding(listed) + nothing);
    BookEntries::encoding_prefix(entries, nothing, listed, nothing);
    lemma_collected_replicas(book.plain_replicas(), 256);
    lemma_collected_clients(book.plain_clients(), num_client_keys());
    assert(other.replica_addrs@ =~= book.plain_replicas());
    assert(other.client_addrs@ =~= book.plain_clients());
}

} // verus!
