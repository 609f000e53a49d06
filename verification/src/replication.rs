//! The parties of a replicated service and where they are found.

use std::collections::{BTreeMap, HashMap};
use std::time::Duration;

use vstd::prelude::*;

use crate::addr::{decimal, numbered, Addr, AddrView, SocketAddr};
use crate::crypto::{Signer, Verifier};
use crate::transport::{SendTo, SendToAll};

pub mod book;
pub mod laws;

verus! {

/// Where replicas and clients are.
#[derive(Debug, Clone, PartialEq, Eq)]
pub enum AddrBook {
    Socket(SocketAddrBook),
    Untyped(UntypedAddrBook),
}

/// The sockets of replicas, and of clients by ranges of identifiers: the socket
/// of a client is under the least key that is not below its identifier.
#[derive(Debug, Clone, PartialEq, Eq)]
pub struct SocketAddrBook {
    pub replica_addrs: HashMap<u8, SocketAddr>,
    pub client_addrs: BTreeMap<u32, SocketAddr>,
}

/// Whether `k` is the least key of `m` that is not below `id`.
pub open spec fn is_next_key<V>(m: Map<u32, V>, id: u32, k: u32) -> bool {
    &&& m.contains_key(k)
    &&& id <= k
    &&& forall|other: u32| #[trigger] m.contains_key(other) && id <= other ==> k <= other
}

impl SocketAddrBook {
    fn replica_addr(&self, id: u8) -> (r: Addr)
        requires
            self.replica_addrs@.contains_key(id),
        ensures
            r@ == AddrView::Socket(self.replica_addrs@[id]),
    {
        Addr::Socket(*self.replica_addrs.get(&id).unwrap())
    }

    /// Takes the address of a replica out of the book.
    pub fn remove_addr(&mut self, id: u8) -> (r: SocketAddr)
        requires
            old(self).replica_addrs@.contains_key(id),
        ensures
            r == old(self).replica_addrs@[id],
            final(self).replica_addrs@ == old(self).replica_addrs@.remove(id),
            final(self).client_addrs == old(self).client_addrs,
    {
        self.replica_addrs.remove(&id).unwrap()
    }

    fn replica_addrs(&self) -> (r: Vec<Addr>)
        ensures
            lists_values(r@, self.replica_addrs@),
    {
        let mut r: Vec<Addr> = Vec::new();
        let ghost mut ids: Seq<u8> = Seq::empty();
        for id in it: self.replica_addrs.keys()
            invariant
                it.seq().unref().to_set() == self.replica_addrs@.dom(),
                it.seq().no_duplicates(),
                ids == it.seq().unref().take(it.index() as int),
                it.index() == it.seq().len() ==> ids == it.seq().unref(),
                r@.len() == it.index(),
                forall|i: int|
                    0 <= i < r@.len() ==> (#[trigger] r@[i])@ == AddrView::Socket(
                        self.replica_addrs@[ids[i]],
                    ),
        {
            assert(it.seq().unref().contains(*id));
            r.push(self.replica_addr(*id));
            assert(it.index() + 1 == it.seq().len() ==> ids.push(*id) =~= it.seq().unref());
            proof {
                ids = ids.push(*id);
            }
        }
        assert(lists_values_by(r@, self.replica_addrs@, ids));
        r
    }

    fn client_addr(&self, id: u32) -> (r: Addr)
        requires
            exists|k: u32| #[trigger] self.client_addrs@.contains_key(k) && id <= k,
        ensures
            exists|k: u32| #[trigger]
                is_next_key(self.client_addrs@, id, k) && r@ == AddrView::Socket(
                    self.client_addrs@[k],
                ),
    {
        let mut next: Option<u32> = None;
        let ghost mut seen: Set<u32> = Set::empty();
        for k in it: self.client_addrs.keys()
            invariant
                it.seq().unref().to_set() == self.client_addrs@.dom(),
                seen == it.seq().unref().take(it.index() as int).to_set(),
                it.index() == it.seq().len() ==> seen == self.client_addrs@.dom(),
                match next {
                    Some(best) => {
                        &&& self.client_addrs@.contains_key(best)
                        &&& id <= best
                        &&& forall|o: u32| #[trigger] seen.contains(o) && id <= o ==> best <= o
                    },
                    None => forall|o: u32| #[trigger] seen.contains(o) ==> o < id,
                },
        {
            assert(it.seq().unref().contains(*k));
            assert(it.seq().unref().take(it.index() + 1) =~= it.seq().unref().take(
                it.index() as int,
            ).push(*k));
            assert(it.seq().unref().take(it.index() + 1).to_set() =~= seen.insert(*k)) by {
                broadcast use vstd::seq_lib::group_seq_properties;

            }
            assert(it.index() + 1 == it.seq().len() ==> it.seq().unref().take(it.index() + 1)
                =~= it.seq().unref());
            proof {
                seen = seen.insert(*k);
            }
            if id <= *k {
                next =
                match next {
                    Some(best) if best <= *k => Some(best),
                    _ => Some(*k),
                };
            }
        }
        let key: u32 = next.unwrap();
        assert(is_next_key(self.client_addrs@, id, key));
        Addr::Socket(*self.client_addrs.get(&key).unwrap())
    }
}

/// Whether `addrs` are the values of `m` in the order of the keys `ids`.
pub open spec fn lists_values_by(addrs: Seq<Addr>, m: Map<u8, SocketAddr>, ids: Seq<u8>) -> bool {
    &&& ids.no_duplicates()
    &&& ids.to_set() == m.dom()
    &&& addrs.len() == ids.len()
    &&& forall|i: int|
        0 <= i < addrs.len() ==> (#[trigger] addrs[i])@ == AddrView::Socket(m[ids[i]])
}

/// Whether `addrs` are the values of `m`, one for each key, in some order.
pub open spec fn lists_values(addrs: Seq<Addr>, m: Map<u8, SocketAddr>) -> bool {
    exists|ids: Seq<u8>| lists_values_by(addrs, m, ids)
}

/// Replicas that are found by name, as replica `replica_id` sees them.
#[derive(Debug, Clone, Copy, PartialEq, Eq, Structural)]
pub struct UntypedAddrBook {
    pub num_replica: usize,
    pub replica_id: u8,
}

/// The name of a replica.
pub open spec fn replica_name(id: u8) -> AddrView {
    AddrView::Untyped("replica-"@ + decimal(id as nat))
}

/// The name of a client.
pub open spec fn client_name(id: u32) -> AddrView {
    AddrView::Untyped("client-"@ + decimal(id as nat))
}

impl UntypedAddrBook {
    /// The identifiers of the other replicas in ascending order. The number of
    /// replicas counts modulo the 256 identifiers that there are.
    pub open spec fn others(&self) -> Seq<u8> {
        let me = self.replica_id as int;
        let end = self.num_replica as int % 256;
        Seq::new(me as nat, |i: int| i as u8) + Seq::new(
            (if me + 1 <= end {
                end - (me + 1)
            } else {
                0
            }) as nat,
            |i: int| (me + 1 + i) as u8,
        )
    }

    fn replica_addr(&self, id: u8) -> (r: Addr)
        ensures
            r@ == replica_name(id),
    {
        Addr::Untyped(numbered("replica-", id as u64))
    }

    fn replica_addrs(&self) -> (r: Vec<Addr>)
        requires
            self.replica_id < u8::MAX,
        ensures
            lists_names(r@, self.others()),
    {
        let mut r: Vec<Addr> = Vec::new();
        let mut id: u8 = 0;
        while id < self.replica_id
            invariant
                self.replica_id < u8::MAX,
                id <= self.replica_id,
                r@.len() == id,
                forall|i: int|
                    0 <= i < r@.len() ==> (#[trigger] r@[i])@ == replica_name(self.others()[i]),
            decreases self.replica_id - id,
        {
            r.push(self.replica_addr(id));
            id += 1;
        }
        let end: u8 = (self.num_replica % 256) as u8;
        id = self.replica_id + 1;
        while id < end
            invariant
                self.replica_id < id,
                end == self.num_replica as int % 256,
                self.replica_id + 1 <= end ==> id <= end,
                self.replica_id + 1 > end ==> id == self.replica_id + 1,
                r@.len() == id - 1,
                forall|i: int|
                    0 <= i < r@.len() ==> (#[trigger] r@[i])@ == replica_name(self.others()[i]),
            decreases end - id,
        {
            r.push(self.replica_addr(id));
            id += 1;
        }
        r
    }

    fn client_addr(&self, id: u32) -> (r: Addr)
        ensures
            r@ == client_name(id),
    {
        Addr::Untyped(numbered("client-", id as u64))
    }
}

/// Whether `addrs` are the names of the replicas `ids`, in their order.
pub open spec fn lists_names(addrs: Seq<Addr>, ids: Seq<u8>) -> bool {
    &&& addrs.len() == ids.len()
    &&& forall|i: int| 0 <= i < addrs.len() ==> (#[trigger] addrs[i])@ == replica_name(ids[i])
}

impl AddrBook {
    /// Whether the book has the address of a replica.
    pub open spec fn knows_replica(&self, id: u8) -> bool {
        match self {
            AddrBook::Socket(book) => book.replica_addrs@.contains_key(id),
            AddrBook::Untyped(_) => true,
        }
    }

    /// The address of a replica that the book knows.
    pub open spec fn replica_view(&self, id: u8) -> AddrView {
        match self {
            AddrBook::Socket(book) => AddrView::Socket(book.replica_addrs@[id]),
            AddrBook::Untyped(_) => replica_name(id),
        }
    }

    /// Whether the replicas of the book can be enumerated.
    pub open spec fn enumerable(&self) -> bool {
        match self {
            AddrBook::Socket(_) => true,
            AddrBook::Untyped(book) => book.replica_id < u8::MAX,
        }
    }

    /// Whether `addrs` are all replicas of the book: each one once, for named
    /// replicas in ascending order.
    pub open spec fn lists_replicas(&self, addrs: Seq<Addr>) -> bool {
        match self {
            AddrBook::Socket(book) => lists_values(addrs, book.replica_addrs@),
            AddrBook::Untyped(book) => lists_names(addrs, book.others()),
        }
    }

    /// Whether the book has the address of a client.
    pub open spec fn knows_client(&self, id: u32) -> bool {
        match self {
            AddrBook::Socket(book) => exists|k: u32| #[trigger]
                book.client_addrs@.contains_key(k) && id <= k,
            AddrBook::Untyped(_) => true,
        }
    }

    /// Whether `addr` is the address of a client.
    pub open spec fn is_client(&self, id: u32, addr: AddrView) -> bool {
        match self {
            AddrBook::Socket(book) => exists|k: u32| #[trigger]
                is_next_key(book.client_addrs@, id, k) && addr == AddrView::Socket(
                    book.client_addrs@[k],
                ),
            AddrBook::Untyped(_) => addr == client_name(id),
        }
    }

    pub fn replica_addr(&self, id: u8) -> (r: Addr)
        requires
            self.knows_replica(id),
        ensures
            r@ == self.replica_view(id),
    {
        match self {
            AddrBook::Socket(book) => book.replica_addr(id),
            AddrBook::Untyped(book) => book.replica_addr(id),
        }
    }

    pub fn replica_addrs(&self) -> (r: Vec<Addr>)
        requires
            self.enumerable(),
        ensures
            self.lists_replicas(r@),
    {
        match self {
            AddrBook::Socket(book) => book.replica_addrs(),
            AddrBook::Untyped(book) => book.replica_addrs(),
        }
    }

    pub fn client_addr(&self, id: u32) -> (r: Addr)
        requires
            self.knows_client(id),
        ensures
            self.is_client(id, r@),
    {
        match self {
            AddrBook::Socket(book) => book.client_addr(id),
            AddrBook::Untyped(book) => book.client_addr(id),
        }
    }
}

/// The replica that leads a view: views take turns through the replicas.
pub open spec fn primary_of(view_num: u32, num_replica: usize) -> u8 {
    ((view_num as int % num_replica as int) % 256) as u8
}

/// The primary of a view among `num_replica` replicas.
pub fn primary(view_num: u32, num_replica: usize) -> (r: u8)
    requires
        num_replica > 0,
    ensures
        r == primary_of(view_num, num_replica),
{
    ((view_num as usize % num_replica) % 256) as u8
}

/// What a replica knows of itself and its peers.
#[derive(Debug)]
pub struct Replica {
    pub id: u8,
    pub num_replica: usize,
    pub num_faulty: usize,
    pub signer: Signer,
    pub verifiers: HashMap<u8, Verifier>,
    pub addr_book: AddrBook,
}

impl Replica {
    pub fn primary(&self, view_num: u32) -> (r: u8)
        requires
            self.num_replica > 0,
        ensures
            r == primary_of(view_num, self.num_replica),
    {
        primary(view_num, self.num_replica)
    }

    pub fn is_primary(&self, view_num: u32) -> (r: bool)
        requires
            self.num_replica > 0,
        ensures
            r == (primary_of(view_num, self.num_replica) == self.id),
    {
        self.primary(view_num) == self.id
    }

    pub fn send_to_replica<M>(&self, id: u8, message: M) -> (r: SendTo<M>)
        requires
            id != self.id,
            self.addr_book.knows_replica(id),
        ensures
            r.destination@ == self.addr_book.replica_view(id),
            r.message == message,
    {
        SendTo { destination: self.addr_book.replica_addr(id), message }
    }

    pub fn send_to_all_replica<M>(&self, message: M) -> (r: SendToAll<M>)
        requires
            self.addr_book.enumerable(),
        ensures
            self.addr_book.lists_replicas(r.destinations@),
            r.message == message,
            r.sent == 0,
    {
        SendToAll::new(self.addr_book.replica_addrs(), message)
    }

    pub fn send_to_client<M>(&self, id: u32, message: M) -> (r: SendTo<M>)
        requires
            self.addr_book.knows_client(id),
        ensures
            self.addr_book.is_client(id, r.destination@),
            r.message == message,
    {
        SendTo { destination: self.addr_book.client_addr(id), message }
    }
}

/// What a client knows of the service.
#[derive(Debug)]
pub struct Client {
    pub id: u32,
    pub num_replica: usize,
    pub num_faulty: usize,
    pub addr_book: AddrBook,
    pub retry_interval: Duration,
}

/// The others of a replica among at most 255 are all replicas but itself.
pub proof fn law_others_are_all_but_self(book: UntypedAddrBook, id: u8)
    requires
        book.replica_id < book.num_replica <= u8::MAX,
    ensures
        book.others().no_duplicates(),
        book.others().contains(id) <==> id < book.num_replica && id != book.replica_id,
{
    let others = book.others();
    assert forall|i: int, j: int| 0 <= i < j < others.len() implies others[i] != others[j] by {}
    if id < book.num_replica && id != book.replica_id {
        let i = if id < book.replica_id {
            id as int
        } else {
            id - 1
        };
        assert(others[i] == id);
    }
}

/// Different numbers have different decimal forms.
pub proof fn lemma_decimal_injective(a: nat, b: nat)
    requires
        decimal(a) == decimal(b),
    ensures
        a == b,
    decreases a,
{
    if a < 10 && b < 10 {
        assert(decimal(a)[0] as nat == 48 + a);
        assert(decimal(b)[0] as nat == 48 + b);
    } else if a < 10 {
        assert(decimal(b).len() == decimal(b / 10).len() + 1);
        lemma_decimal_nonempty(b / 10);
    } else if b < 10 {
        assert(decimal(a).len() == decimal(a / 10).len() + 1);
        lemma_decimal_nonempty(a / 10);
    } else {
        assert(decimal(a).drop_last() =~= decimal(a / 10));
        assert(decimal(b).drop_last() =~= decimal(b / 10));
        assert(decimal(a).last() as nat == 48 + a % 10);
        assert(decimal(b).last() as nat == 48 + b % 10);
        lemma_decimal_injective(a / 10, b / 10);
    }
}

proof fn lemma_decimal_nonempty(n: nat)
    ensures
        decimal(n).len() > 0,
    decreases n,
{
}

/// A message to all replicas by name never comes back to its sender: none of
/// the destinations is the sender's own name.
pub proof fn law_named_broadcast_excludes_sender(book: UntypedAddrBook, addrs: Seq<Addr>, i: int)
    requires
        lists_names(addrs, book.others()),
        0 <= i < addrs.len(),
    ensures
        addrs[i]@ != replica_name(book.replica_id),
{
    if addrs[i]@ == replica_name(book.replica_id) {
        let a = "replica-"@ + decimal(book.others()[i] as nat);
        let b = "replica-"@ + decimal(book.replica_id as nat);
        let n = "replica-"@.len() as int;
        assert(a.skip(n) =~= decimal(book.others()[i] as nat));
        assert(b.skip(n) =~= decimal(book.replica_id as nat));
        lemma_decimal_injective(book.others()[i] as nat, book.replica_id as nat);
    }
}

/// Once a replica has taken its own socket out of a book whose sockets differ,
/// no message to all replicas comes back to it.
pub proof fn law_socket_broadcast_excludes_sender(
    before: Map<u8, SocketAddr>,
    id: u8,
    addrs: Seq<Addr>,
    i: int,
)
    requires
        before.contains_key(id),
        before.is_injective(),
        lists_values(addrs, before.remove(id)),
        0 <= i < addrs.len(),
    ensures
        addrs[i]@ != AddrView::Socket(before[id]),
{
    let ids = choose|ids: Seq<u8>| lists_values_by(addrs, before.remove(id), ids);
    assert(ids.contains(ids[i]));
    assert(ids.to_set().contains(ids[i]));
}

} // verus!
