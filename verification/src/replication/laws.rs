//! What holds of parties and where they are found.

use vstd::prelude::*;

use crate::addr::{decimal, numbered, socket, Addr, AddrView, IpAddr, SocketAddr};
use crate::error::Error;
use crate::replication::book::{
    client_entries, collected, num_client_keys, plain_addrs, replica_entries,
};
use crate::replication::{lists_values_by, primary, AddrBook, Replica, SocketAddrBook};

verus! {

/// Views take turns through the replicas: each view is led by the replica that its
/// number leaves over when the replicas are counted off, and the next view by the
/// next replica.
pub proof fn law_views_take_turns(view_num: u32, num_replica: usize, r: u8, next: u8)
    requires
        0 < num_replica <= 256,
        view_num < u32::MAX,
        call_ensures(primary, (view_num, num_replica), r),
        call_ensures(primary, ((view_num + 1) as u32, num_replica), next),
    ensures
        r < num_replica,
        (view_num - r) % (num_replica as int) == 0,
        next == if r + 1 == num_replica {
            0int
        } else {
            r + 1
        },
{
    let (v, n) = (view_num as int, num_replica as int);
    let (q, m) = (v / n, v % n);
    assert(0 <= m < n && v == n * q + m) by (nonlinear_arith)
        requires
            n > 0,
            v >= 0,
            q == v / n,
            m == v % n,
    ;
    assert((v - m) % n == 0) by (nonlinear_arith)
        requires
            v == n * q + m,
            n > 0,
    ;
    if m + 1 == n {
        assert((v + 1) % n == 0) by (nonlinear_arith)
            requires
                v == n * q + m,
                m + 1 == n,
                n > 0,
        ;
    } else {
        assert((v + 1) % n == m + 1) by (nonlinear_arith)
            requires
                v == n * q + m,
                0 <= m < n - 1,
                n > 0,
        ;
    }
    assert(m % 256 == m);
    assert(((v + 1) % n) % 256 == (v + 1) % n);
}

/// A replica is the primary just of the views that it leads.
pub proof fn law_primary_leads_its_views(replica: &Replica, view_num: u32, r: bool, leader: u8)
    requires
        call_ensures(Replica::is_primary, (replica, view_num), r),
        call_ensures(Replica::primary, (replica, view_num), leader),
    ensures
        r <==> leader == replica.id,
        leader == (view_num as int % replica.num_replica as int) % 256,
{
}

/// What a book of sockets lists are the sockets of all its replicas: each of them is
/// there, nothing else is, and there are as many as replicas.
pub proof fn law_sockets_of_all_replicas_are_listed(book: &AddrBook, r: Vec<Addr>, id: u8, i: int)
    requires
        call_ensures(AddrBook::replica_addrs, (book,), r),
        book is Socket,
    ensures
        ({
            let sockets = book->Socket_0.replica_addrs@;
            &&& r@.len() == sockets.dom().len()
            &&& sockets.contains_key(id) ==> exists|k: int|
                0 <= k < r@.len() && (#[trigger] r@[k])@ == AddrView::Socket(sockets[id])
            &&& 0 <= i < r@.len() ==> exists|other: u8| #[trigger]
                sockets.contains_key(other) && r@[i]@ == AddrView::Socket(sockets[other])
        }),
{
    let sockets = book->Socket_0.replica_addrs@;
    let ids = choose|ids: Seq<u8>| lists_values_by(r@, sockets, ids);
    ids.unique_seq_to_set();
    if sockets.contains_key(id) {
        assert(ids.to_set().contains(id));
        let k = ids.index_of(id);
        assert(r@[k]@ == AddrView::Socket(sockets[id]));
    }
    if 0 <= i < r@.len() {
        assert(ids.to_set().contains(ids[i]));
        assert(sockets.contains_key(ids[i]));
    }
}

/// What a book of names lists are the names of the other replicas: replica by
/// replica from the first one on, without the own one.
pub proof fn law_names_of_other_replicas_are_listed(book: &AddrBook, r: Vec<Addr>, i: int)
    requires
        call_ensures(AddrBook::replica_addrs, (book,), r),
        book matches AddrBook::Untyped(names) && names.num_replica <= 255,
    ensures
        ({
            let names = book->Untyped_0;
            let other = if i < names.replica_id {
                i
            } else {
                i + 1
            };
            &&& r@.len() == if names.replica_id < names.num_replica {
                names.num_replica - 1
            } else {
                names.replica_id as int
            }
            &&& 0 <= i < r@.len() ==> r@[i]@ == AddrView::Untyped(
                "replica-"@ + decimal(other as nat),
            )
        }),
{
    let names = book->Untyped_0;
    let others = names.others();
    if 0 <= i < r@.len() {
        assert(others[i] == (if i < names.replica_id {
            i
        } else {
            i + 1
        }));
    }
}

/// A client is found under the least key that is not below its number, or by name.
pub proof fn law_client_is_found_under_the_next_key(book: &AddrBook, id: u32, r: Addr)
    requires
        call_ensures(AddrBook::client_addr, (book, id), r),
    ensures
        match book {
            AddrBook::Socket(sockets) => exists|k: u32|
                {
                    &&& #[trigger] sockets.client_addrs@.contains_key(k)
                    &&& k >= id
                    &&& r@ == AddrView::Socket(sockets.client_addrs@[k])
                    &&& forall|other: u32|
                        id <= other < k ==> !#[trigger] sockets.client_addrs@.contains_key(other)
                },
            AddrBook::Untyped(_) => r@ == AddrView::Untyped("client-"@ + decimal(id as nat)),
        },
{
    if let AddrBook::Socket(sockets) = book {
        let k = choose|k: u32| #[trigger]
            crate::replication::is_next_key(sockets.client_addrs@, id, k) && r@
                == AddrView::Socket(sockets.client_addrs@[k]);
        assert(sockets.client_addrs@.contains_key(k));
    }
}

/// A replica is found under its number, or by name.
pub proof fn law_replica_is_found_under_its_number(book: &AddrBook, id: u8, r: Addr)
    requires
        call_ensures(AddrBook::replica_addr, (book, id), r),
    ensures
        match book {
            AddrBook::Socket(sockets) => r@ == AddrView::Socket(sockets.replica_addrs@[id]),
            AddrBook::Untyped(_) => r@ == AddrView::Untyped("replica-"@ + decimal(id as nat)),
        },
{
}

/// The number that digits stand for.
pub open spec fn read_decimal(digits: Seq<char>) -> int
    decreases digits.len(),
{
    if digits.len() == 0 {
        0
    } else {
        10 * read_decimal(digits.drop_last()) + (digits.last() as int - 48)
    }
}

/// A number in decimal is read as that number. It is made of digits alone, and
/// starts with a zero only if it is zero.
pub proof fn law_decimal_is_read_back(n: nat)
    ensures
        read_decimal(decimal(n)) == n,
        decimal(n).len() > 0,
        forall|i: int| 0 <= i < decimal(n).len() ==> '0' <= #[trigger] decimal(n)[i] <= '9',
        decimal(n)[0] == '0' <==> n == 0,
    decreases n,
{
    reveal_with_fuel(read_decimal, 2);
    if n < 10 {
        assert(decimal(n).drop_last() =~= Seq::<char>::empty());
        assert(decimal(n).last() as int == 48 + n);
    } else {
        law_decimal_is_read_back(n / 10);
        let shorter = decimal(n / 10);
        assert(decimal(n).drop_last() =~= shorter);
        assert(decimal(n).last() as int == 48 + n % 10);
        assert(decimal(n)[0] == shorter[0]);
        assert forall|i: int| 0 <= i < decimal(n).len() implies '0' <= #[trigger] decimal(n)[i]
            <= '9' by {
            if i < shorter.len() {
                assert(decimal(n)[i] == shorter[i]);
            }
        }
    }
}

/// A name is its prefix and then its number.
pub proof fn law_name_ends_with_its_number(prefix: &str, n: u64, r: String)
    requires
        call_ensures(numbered, (prefix, n), r),
    ensures
        r@.take(prefix@.len() as int) == prefix@,
        read_decimal(r@.skip(prefix@.len() as int)) == n,
{
    law_decimal_is_read_back(n as nat);
    assert(r@.take(prefix@.len() as int) =~= prefix@);
    assert(r@.skip(prefix@.len() as int) =~= decimal(n as nat));
}

/// Replicas are written in ascending order, each one that is in the book and no
/// other.
pub proof fn law_replicas_are_written_in_order(m: Map<u8, SocketAddr>, n: nat, key: u8)
    requires
        n <= 256,
    ensures
        forall|i: int, j: int|
            0 <= i < j < replica_entries(m, n).len() ==> (#[trigger] replica_entries(m, n)[i]).0 < (
            #[trigger] replica_entries(m, n)[j]).0,
        forall|i: int|
            0 <= i < replica_entries(m, n).len() ==> {
                let entry = #[trigger] replica_entries(m, n)[i];
                entry.0 < n && m.contains_key(entry.0) && m[entry.0] == entry.1
            },
        key < n && m.contains_key(key) ==> replica_entries(m, n).contains((key, m[key])),
    decreases n,
{
    if n > 0 {
        law_replicas_are_written_in_order(m, (n - 1) as nat, key);
        let before = replica_entries(m, (n - 1) as nat);
        let after = replica_entries(m, n);
        let last = (n - 1) as u8;
        if m.contains_key(last) {
            assert(after == before.push((last, m[last])));
            assert(after[after.len() - 1] == (last, m[last]));
            assert forall|i: int, j: int| 0 <= i < j < after.len() implies (#[trigger] after[i]).0
                < (#[trigger] after[j]).0 by {
                assert(after[i] == before[i]);
                if j < before.len() {
                    assert(after[j] == before[j]);
                }
            }
            assert forall|i: int| 0 <= i < after.len() implies {
                let entry = #[trigger] after[i];
                entry.0 < n && m.contains_key(entry.0) && m[entry.0] == entry.1
            } by {
                if i < before.len() {
                    assert(after[i] == before[i]);
                }
            }
            if key < n - 1 && m.contains_key(key) {
                let i = before.index_of((key, m[key]));
                assert(after[i] == (key, m[key]));
            }
        }
    }
}

/// Clients are written in ascending order, each one that is in the book and no
/// other.
pub proof fn law_clients_are_written_in_order(m: Map<u32, SocketAddr>, n: nat, key: u32)
    requires
        n <= 0x1_0000_0000,
    ensures
        forall|i: int, j: int|
            0 <= i < j < client_entries(m, n).len() ==> (#[trigger] client_entries(m, n)[i]).0 < (
            #[trigger] client_entries(m, n)[j]).0,
        forall|i: int|
            0 <= i < client_entries(m, n).len() ==> {
                let entry = #[trigger] client_entries(m, n)[i];
                entry.0 < n && m.contains_key(entry.0) && m[entry.0] == entry.1
            },
        key < n && m.contains_key(key) ==> client_entries(m, n).contains((key, m[key])),
        num_client_keys() == 0x1_0000_0000,
    decreases n,
{
    if n > 0 {
        law_clients_are_written_in_order(m, (n - 1) as nat, key);
        let before = client_entries(m, (n - 1) as nat);
        let after = client_entries(m, n);
        let last = (n - 1) as u32;
        if m.contains_key(last) {
            assert(after == before.push((last, m[last])));
            assert(after[after.len() - 1] == (last, m[last]));
            assert forall|i: int, j: int| 0 <= i < j < after.len() implies (#[trigger] after[i]).0
                < (#[trigger] after[j]).0 by {
                assert(after[i] == before[i]);
                if j < before.len() {
                    assert(after[j] == before[j]);
                }
            }
            assert forall|i: int| 0 <= i < after.len() implies {
                let entry = #[trigger] after[i];
                entry.0 < n && m.contains_key(entry.0) && m[entry.0] == entry.1
            } by {
                if i < before.len() {
                    assert(after[i] == before[i]);
                }
            }
            if key < n - 1 && m.contains_key(key) {
                let i = before.index_of((key, m[key]));
                assert(after[i] == (key, m[key]));
            }
        }
    }
}

/// Of the entries that are read the last one of a key counts.
pub proof fn law_last_entry_counts<K>(
    entries: Seq<(K, SocketAddr)>,
    key: K,
    addr: SocketAddr,
    other: K,
)
    ensures
        collected(entries.push((key, addr))).contains_key(key),
        collected(entries.push((key, addr)))[key] == addr,
        other != key ==> (collected(entries.push((key, addr))).contains_key(other) <==> collected(
            entries,
        ).contains_key(other)) && collected(entries.push((key, addr)))[other] == collected(
            entries,
        )[other],
        collected(Seq::<(K, SocketAddr)>::empty()) == Map::<K, SocketAddr>::empty(),
{
    assert(entries.push((key, addr)).drop_last() =~= entries);
}

/// What bytes say of an address is where it is: its IP address and its port. All of
/// an IPv4 address is said.
pub proof fn law_bytes_say_where_an_address_is<K>(m: Map<K, SocketAddr>, key: K)
    requires
        m.contains_key(key),
    ensures
        plain_addrs(m).contains_key(key),
        match (m[key], plain_addrs(m)[key]) {
            (SocketAddr::V4(a), SocketAddr::V4(b)) => a == b,
            (SocketAddr::V6(a), SocketAddr::V6(b)) => a.ip == b.ip && a.port == b.port
                && b.flowinfo == 0 && b.scope_id == 0,
            _ => false,
        },
        forall|other: K| #[trigger] plain_addrs(m).contains_key(other) ==> m.contains_key(other),
{
}

/// Whether one address is where another one is.
pub open spec fn same_place(a: SocketAddr, b: SocketAddr) -> bool {
    match (a, b) {
        (SocketAddr::V4(a), SocketAddr::V4(b)) => a == b,
        (SocketAddr::V6(a), SocketAddr::V6(b)) => a.ip == b.ip && a.port == b.port,
        _ => false,
    }
}

/// A book that is written and read back has the same replicas and clients, each one
/// in its place.
pub proof fn law_book_is_read_back(
    book: SocketAddrBook,
    written: Vec<u8>,
    bytes: &[u8],
    read: Result<SocketAddrBook, Error>,
    id: u8,
    key: u32,
)
    requires
        call_ensures(SocketAddrBook::to_vec, (&book,), Ok(written)),
        bytes@ == written@,
        call_ensures(SocketAddrBook::from_slice, (bytes,), read),
    ensures
        ({
            &&& read matches Ok(other)
            &&& other.replica_addrs@.contains_key(id) <==> book.replica_addrs@.contains_key(id)
            &&& book.replica_addrs@.contains_key(id) ==> same_place(
                book.replica_addrs@[id],
                other.replica_addrs@[id],
            )
            &&& other.client_addrs@.contains_key(key) <==> book.client_addrs@.contains_key(key)
            &&& book.client_addrs@.contains_key(key) ==> same_place(
                book.client_addrs@[key],
                other.client_addrs@[key],
            )
        }),
{
    crate::replication::book::law_book_round_trip(book, written, bytes, read);
    let other = read.unwrap();
    if other.replica_addrs@.contains_key(id) {
        assert(plain_addrs(book.replica_addrs@).contains_key(id));
    }
    if book.replica_addrs@.contains_key(id) {
        law_bytes_say_where_an_address_is(book.replica_addrs@, id);
    }
    if other.client_addrs@.contains_key(key) {
        assert(plain_addrs(book.client_addrs@).contains_key(key));
    }
    if book.client_addrs@.contains_key(key) {
        law_bytes_say_where_an_address_is(book.client_addrs@, key);
    }
}

/// A socket at an IP address is at that address and has its port, and nothing else.
pub proof fn law_socket_is_at_its_port(ip: IpAddr, port: u16, r: SocketAddr)
    requires
        call_ensures(socket, (ip, port), r),
    ensures
        match (ip, r) {
            (IpAddr::V4(ip), SocketAddr::V4(at)) => at.ip == ip && at.port == port,
            (IpAddr::V6(ip), SocketAddr::V6(at)) => at.ip == ip && at.port == port && at.flowinfo
                == 0 && at.scope_id == 0,
            _ => false,
        },
{
}

/// A server is announced at an IP address under the port that it was bound to.
pub proof fn law_server_is_announced_under_its_port(ip: IpAddr, local: SocketAddr, r: SocketAddr)
    requires
        call_ensures(crate::blob::stream::announced, (ip, local), r),
    ensures
        ({
            let bound = match local {
                SocketAddr::V4(at) => at.port,
                SocketAddr::V6(at) => at.port,
            };
            match (ip, r) {
                (IpAddr::V4(ip), SocketAddr::V4(at)) => at.ip == ip && at.port == bound,
                (IpAddr::V6(ip), SocketAddr::V6(at)) => at.ip == ip && at.port == bound,
                _ => false,
            }
        }),
{
}

} // verus!
