use std::collections::{BTreeMap, HashMap};

use helloween::addr::{
    numbered, socket, Addr, IpAddr, SocketAddr, SocketAddrV4, SocketAddrV6,
};
use helloween::error::Error;
use helloween::replication::{primary, AddrBook, SocketAddrBook, UntypedAddrBook};
use helloween::transport::SendToAll;

fn at(port: u16) -> SocketAddr {
    SocketAddr::V4(SocketAddrV4 { ip: 0x7f000001, port })
}

fn name(text: &str) -> Addr {
    Addr::Untyped(text.to_string())
}

fn book() -> SocketAddrBook {
    SocketAddrBook {
        replica_addrs: HashMap::from([(0, at(30000)), (1, at(30001)), (2, at(30002))]),
        client_addrs: BTreeMap::from([(9, at(20000)), (19, at(20001))]),
    }
}

#[test]
fn numbers_are_decimal() {
    assert_eq!(numbered("x-", 0), "x-0");
    assert_eq!(numbered("x-", 10), "x-10");
    assert_eq!(numbered("", 4294967295), "4294967295");
}

#[test]
fn named_replicas_are_all_others() {
    let book = AddrBook::Untyped(UntypedAddrBook { num_replica: 4, replica_id: 1 });
    assert_eq!(
        book.replica_addrs(),
        vec![name("replica-0"), name("replica-2"), name("replica-3")]
    );
    assert_eq!(book.replica_addr(7), name("replica-7"));
    assert_eq!(book.client_addr(12), name("client-12"));
}

#[test]
fn named_replicas_without_others() {
    let book = AddrBook::Untyped(UntypedAddrBook { num_replica: 1, replica_id: 0 });
    assert_eq!(book.replica_addrs(), vec![]);
    // the number of replicas is taken modulo the number of identifiers
    let book = AddrBook::Untyped(UntypedAddrBook { num_replica: 258, replica_id: 0 });
    assert_eq!(book.replica_addrs(), vec![name("replica-1")]);
}

#[test]
fn client_socket_is_under_the_next_key() {
    let book = AddrBook::Socket(book());
    assert_eq!(book.client_addr(0), Addr::Socket(at(20000)));
    assert_eq!(book.client_addr(9), Addr::Socket(at(20000)));
    assert_eq!(book.client_addr(10), Addr::Socket(at(20001)));
    assert_eq!(book.client_addr(19), Addr::Socket(at(20001)));
}

#[test]
fn removed_replica_is_left_out() {
    let mut book = book();
    assert_eq!(book.remove_addr(1), at(30001));
    let mut ports: Vec<_> = AddrBook::Socket(book)
        .replica_addrs()
        .into_iter()
        .map(|addr| match addr {
            Addr::Socket(SocketAddr::V4(addr)) => addr.port,
            _ => panic!(),
        })
        .collect();
    ports.sort();
    assert_eq!(ports, vec![30000, 30002]);
}

#[test]
fn views_take_turns() {
    assert_eq!(primary(0, 4), 0);
    assert_eq!(primary(5, 4), 1);
    assert_eq!(primary(300, 1000), 44);
}

#[test]
fn broadcast_stops_at_loopback() {
    let mut send = SendToAll::new(vec![name("a"), name("b"), name("c")], 0u8);
    assert_eq!(send.next(&name("b")), Ok(Some(name("a"))));
    assert_eq!(send.next(&name("b")), Err(Error::Loopback));
    assert_eq!(send.next(&name("x")), Ok(Some(name("b"))));
    assert_eq!(send.next(&name("x")), Ok(Some(name("c"))));
    assert_eq!(send.next(&name("x")), Ok(None));
}

#[test]
fn sockets_from_parts() {
    assert_eq!(socket(IpAddr::V4(0x7f000001), 80), at(80));
    assert_ne!(socket(IpAddr::V6(1), 80), at(80));
}

#[test]
fn book_is_written_with_ascending_keys() {
    let small = SocketAddrBook {
        replica_addrs: HashMap::from([(7, at(258)), (2, at(1))]),
        client_addrs: BTreeMap::from([(300, at(3))]),
    };
    let bytes = vec![
        2, 0, 0, 0, 2, 0, 127, 0, 0, 1, 1, 0, 7, 0, 127, 0, 0, 1, 2, 1, 1, 0, 0, 0, 44, 1, 0, 0,
        0, 127, 0, 0, 1, 3, 0,
    ];
    assert_eq!(small.to_vec().unwrap(), bytes);
    assert_eq!(SocketAddrBook::from_slice(&bytes).unwrap(), small);
    assert_eq!(SocketAddrBook::from_slice(&book().to_vec().unwrap()).unwrap(), book());
    assert!(matches!(SocketAddrBook::from_slice(&bytes[..34]), Err(Error::Decoding)));
    let longer = [bytes, vec![0]].concat();
    assert!(matches!(SocketAddrBook::from_slice(&longer), Err(Error::Decoding)));
    let empty = SocketAddrBook { replica_addrs: HashMap::new(), client_addrs: BTreeMap::new() };
    assert_eq!(empty.to_vec().unwrap(), vec![0; 8]);
}

#[test]
fn book_is_read_in_any_order() {
    let bytes = vec![
        3, 0, 0, 0, 7, 0, 127, 0, 0, 1, 9, 0, 2, 0, 127, 0, 0, 1, 1, 0, 7, 0, 127, 0, 0, 1, 5, 0,
        0, 0, 0, 0,
    ];
    let read = SocketAddrBook::from_slice(&bytes).unwrap();
    assert_eq!(read.replica_addrs, HashMap::from([(2, at(1)), (7, at(5))]));
    assert!(read.client_addrs.is_empty());
}

#[test]
fn book_loses_flow_and_scope() {
    let addr = |flowinfo, scope_id| {
        SocketAddr::V6(SocketAddrV6 { ip: 1, port: 2, flowinfo, scope_id })
    };
    let mut lost = book();
    lost.client_addrs.insert(1, addr(3, 4));
    let read = SocketAddrBook::from_slice(&lost.to_vec().unwrap()).unwrap();
    assert_eq!(read.client_addrs[&1], addr(0, 0));
    assert_eq!(read.client_addrs.len(), 3);
}
