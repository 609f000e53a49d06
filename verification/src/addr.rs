//! Addresses of the parties of a protocol.

use vstd::prelude::*;
use vstd::utf8::{decode_utf8, encode_utf8, valid_utf8};

use crate::error::Error;
use crate::wire::{
    be_bytes, blob_bytes, is_encoded, lemma_append_cancel, lemma_be_bytes, lemma_big_endian,
    lemma_blob_prefix, pow256, put_be, put_blob, read_be, take_array, take_blob, take_u8, Encode,
    Format,
};

verus! {

/// An IPv4 address, as a number whose top byte is the first, and a port.
#[derive(Debug, Clone, Copy, PartialEq, Eq, PartialOrd, Ord, Hash, Structural)]
pub struct SocketAddrV4 {
    pub ip: u32,
    pub port: u16,
}

/// An IPv6 address, as a number whose top byte is the first, and a port.
#[derive(Debug, Clone, Copy, PartialEq, Eq, PartialOrd, Ord, Hash, Structural)]
pub struct SocketAddrV6 {
    pub ip: u128,
    pub port: u16,
    pub flowinfo: u32,
    pub scope_id: u32,
}

/// The address of a socket.
#[derive(Debug, Clone, Copy, PartialEq, Eq, PartialOrd, Ord, Hash, Structural)]
pub enum SocketAddr {
    V4(SocketAddrV4),
    V6(SocketAddrV6),
}

/// An IP address without a port.
#[derive(Debug, Clone, Copy, PartialEq, Eq, Structural)]
pub enum IpAddr {
    V4(u32),
    V6(u128),
}

/// The socket at an IP address and a port.
pub open spec fn socket_at(ip: IpAddr, port: u16) -> SocketAddr {
    match ip {
        IpAddr::V4(ip) => SocketAddr::V4(SocketAddrV4 { ip, port }),
        IpAddr::V6(ip) => SocketAddr::V6(SocketAddrV6 { ip, port, flowinfo: 0, scope_id: 0 }),
    }
}

/// The socket at an IP address and a port.
pub fn socket(ip: IpAddr, port: u16) -> (r: SocketAddr)
    ensures
        r == socket_at(ip, port),
{
    match ip {
        IpAddr::V4(ip) => SocketAddr::V4(SocketAddrV4 { ip, port }),
        IpAddr::V6(ip) => SocketAddr::V6(SocketAddrV6 { ip, port, flowinfo: 0, scope_id: 0 }),
    }
}

/// Where a message goes: a socket, or a party that is known by name.
#[derive(Debug, Eq)]
pub enum Addr {
    Socket(SocketAddr),
    Untyped(String),
}

/// An address with its name as characters.
pub ghost enum AddrView {
    Socket(SocketAddr),
    Untyped(Seq<char>),
}

/// A socket address without flow and scope.
pub open spec fn plain_socket(addr: SocketAddr) -> SocketAddr {
    match addr {
        SocketAddr::V4(_) => addr,
        SocketAddr::V6(addr) => SocketAddr::V6(
            SocketAddrV6 { ip: addr.ip, port: addr.port, flowinfo: 0, scope_id: 0 },
        ),
    }
}

impl View for Addr {
    type V = AddrView;

    open spec fn view(&self) -> AddrView {
        match self {
            Addr::Socket(addr) => AddrView::Socket(*addr),
            Addr::Untyped(name) => AddrView::Untyped(name@),
        }
    }
}

impl DeepView for Addr {
    type V = AddrView;

    /// What is written of the address: flow and scope are left out.
    open spec fn deep_view(&self) -> AddrView {
        match self {
            Addr::Socket(addr) => AddrView::Socket(plain_socket(*addr)),
            Addr::Untyped(name) => AddrView::Untyped(name@),
        }
    }
}

impl Clone for Addr {
    fn clone(&self) -> (r: Self)
        ensures
            r@ == self@,
    {
        match self {
            Addr::Socket(addr) => Addr::Socket(*addr),
            Addr::Untyped(name) => Addr::Untyped(name.clone()),
        }
    }
}

impl PartialEq for Addr {
    fn eq(&self, other: &Self) -> (r: bool) {
        match (self, other) {
            (Addr::Socket(a), Addr::Socket(b)) => *a == *b,
            (Addr::Untyped(a), Addr::Untyped(b)) => *a == *b,
            _ => false,
        }
    }
}

impl vstd::std_specs::cmp::PartialEqSpecImpl for Addr {
    open spec fn obeys_eq_spec() -> bool {
        true
    }

    open spec fn eq_spec(&self, other: &Self) -> bool {
        self@ == other@
    }
}

/// The decimal digit for a number below ten.
pub open spec fn digit(d: nat) -> char {
    (48 + d) as char
}

/// A number in decimal, without leading zeros.
pub open spec fn decimal(n: nat) -> Seq<char>
    decreases n,
{
    if n < 10 {
        seq![digit(n)]
    } else {
        decimal(n / 10).push(digit(n % 10))
    }
}

fn digit_str(d: u64) -> (r: &'static str)
    requires
        d < 10,
    ensures
        r@ == seq![digit(d as nat)],
{
    proof {
        reveal_strlit("0");
        reveal_strlit("1");
        reveal_strlit("2");
        reveal_strlit("3");
        reveal_strlit("4");
        reveal_strlit("5");
        reveal_strlit("6");
        reveal_strlit("7");
        reveal_strlit("8");
        reveal_strlit("9");
    }
    let r: &'static str = if d == 0 {
        "0"
    } else if d == 1 {
        "1"
    } else if d == 2 {
        "2"
    } else if d == 3 {
        "3"
    } else if d == 4 {
        "4"
    } else if d == 5 {
        "5"
    } else if d == 6 {
        "6"
    } else if d == 7 {
        "7"
    } else if d == 8 {
        "8"
    } else {
        "9"
    };
    assert(r@ =~= seq![digit(d as nat)]);
    r
}

/// `prefix` followed by `n` in decimal.
pub fn numbered(prefix: &str, n: u64) -> (r: String)
    ensures
        r@ == prefix@ + decimal(n as nat),
    decreases n,
{
    let mut r: String = if n < 10 {
        prefix.to_owned()
    } else {
        numbered(prefix, n / 10)
    };
    r.append(digit_str(n % 10));
    assert(r@ =~= prefix@ + decimal(n as nat));
    r
}

/// The little-endian bytes of a port.
pub open spec fn port_bytes(port: u16) -> Seq<u8> {
    seq![(port % 256) as u8, (port / 256) as u8]
}

/// The bytes of a socket address: which version of IP, the address with its
/// first byte first, and the port.
pub open spec fn socket_bytes(addr: SocketAddr) -> Seq<u8> {
    match addr {
        SocketAddr::V4(addr) => seq![0u8] + (be_bytes(addr.ip as nat, 4) + port_bytes(addr.port)),
        SocketAddr::V6(addr) => seq![1u8] + (be_bytes(addr.ip as nat, 16) + port_bytes(addr.port)),
    }
}

/// Whether the bytes of a socket address say all of it: flow and scope of an
/// IPv6 address are not in them.
pub open spec fn has_socket_bytes(addr: SocketAddr) -> bool {
    addr matches SocketAddr::V6(addr) ==> addr.flowinfo == 0 && addr.scope_id == 0
}

impl Format for Addr {
    open spec fn encodable(v: AddrView) -> bool {
        match v {
            AddrView::Socket(addr) => has_socket_bytes(addr),
            AddrView::Untyped(name) => encode_utf8(name).len() <= u32::MAX,
        }
    }

    open spec fn encoding(v: AddrView) -> Seq<u8> {
        match v {
            AddrView::Socket(addr) => seq![0u8] + socket_bytes(addr),
            AddrView::Untyped(name) => seq![1u8] + blob_bytes(encode_utf8(name)),
        }
    }
}

proof fn lemma_pow256()
    ensures
        pow256(4) == 0x1_0000_0000,
        pow256(16) == 0x1_0000_0000_0000_0000_0000_0000_0000_0000,
{
    reveal_with_fuel(pow256, 17);
}

proof fn lemma_port_bytes(a: u16, b: u16)
    requires
        port_bytes(a) == port_bytes(b),
    ensures
        a == b,
{
    assert(port_bytes(a)[0] == port_bytes(b)[0]);
    assert(port_bytes(a)[1] == port_bytes(b)[1]);
}

proof fn lemma_socket_prefix(a: SocketAddr, ra: Seq<u8>, b: SocketAddr, rb: Seq<u8>)
    requires
        has_socket_bytes(a),
        has_socket_bytes(b),
        socket_bytes(a) + ra == socket_bytes(b) + rb,
    ensures
        a == b,
        ra == rb,
{
    lemma_pow256();
    assert((socket_bytes(a) + ra)[0] == socket_bytes(a)[0]);
    assert((socket_bytes(b) + rb)[0] == socket_bytes(b)[0]);
    let (n, ipa, ipb, pa, pb) = match (a, b) {
        (SocketAddr::V4(x), SocketAddr::V4(y)) => (4nat, x.ip as nat, y.ip as nat, x.port, y.port),
        (SocketAddr::V6(x), SocketAddr::V6(y)) => (16nat, x.ip as nat, y.ip as nat, x.port, y.port),
        _ => (0nat, 0nat, 0nat, 0u16, 0u16),
    };
    lemma_be_bytes(ipa, n);
    lemma_be_bytes(ipb, n);
    let (ta, tb) = (port_bytes(pa) + ra, port_bytes(pb) + rb);
    assert((socket_bytes(a) + ra).skip(1) =~= be_bytes(ipa, n) + ta);
    assert((socket_bytes(b) + rb).skip(1) =~= be_bytes(ipb, n) + tb);
    lemma_append_cancel(be_bytes(ipa, n), ta, be_bytes(ipb, n), tb);
    lemma_append_cancel(port_bytes(pa), ra, port_bytes(pb), rb);
    lemma_port_bytes(pa, pb);
}

/// Calls `String::from_utf8`, which accepts just the bytes that are valid UTF-8
/// and gives the text that they encode.
#[verifier::external_body]
fn string_from_utf8(bytes: Vec<u8>) -> (r: Option<String>)
    ensures
        r is Some <==> valid_utf8(bytes@),
        r matches Some(text) ==> text@ == decode_utf8(bytes@),
{
    String::from_utf8(bytes).ok()
}

/// Takes a socket address off the front.
fn take_socket<'a>(bytes: &'a [u8]) -> (r: Option<(SocketAddr, &'a [u8])>)
    ensures
        match r {
            Some((addr, rest)) => has_socket_bytes(addr) && bytes@ == socket_bytes(addr) + rest@,
            None => forall|addr: SocketAddr, rest: Seq<u8>|
                bytes@ != #[trigger] (socket_bytes(addr) + rest),
        },
{
    let (tag, body) = match take_u8(bytes) {
        Some(r) => r,
        None => return None,
    };
    proof {
        lemma_pow256();
        assert forall|addr: SocketAddr, rest: Seq<u8>| bytes@ == #[trigger] (socket_bytes(addr)
            + rest) implies {
            &&& addr is V4 ==> tag == 0 && body@.len() >= 6
            &&& addr is V6 ==> tag == 1 && body@.len() >= 18
        } by {
            assert((socket_bytes(addr) + rest)[0] == bytes@[0]);
            match addr {
                SocketAddr::V4(addr) => lemma_be_bytes(addr.ip as nat, 4),
                SocketAddr::V6(addr) => lemma_be_bytes(addr.ip as nat, 16),
            }
            assert(bytes@.len() == socket_bytes(addr).len() + rest.len());
            assert(bytes@[0] == tag && bytes@.len() == 1 + body@.len());
        }
    }
    if tag == 0 && body.len() >= 6 {
        let (ip, tail) = take_array::<4>(body).unwrap();
        let (low, tail) = take_u8(tail).unwrap();
        let (high, rest) = take_u8(tail).unwrap();
        proof {
            lemma_big_endian(ip@);
        }
        let ip_num: u32 = read_be(ip.as_slice()) as u32;
        let port: u16 = low as u16 + 256 * high as u16;
        let addr = SocketAddr::V4(SocketAddrV4 { ip: ip_num, port });
        assert(port_bytes(port) =~= seq![low, high]);
        assert(bytes@ =~= socket_bytes(addr) + rest@);
        Some((addr, rest))
    } else if tag == 1 && body.len() >= 18 {
        let (ip, tail) = take_array::<16>(body).unwrap();
        let (low, tail) = take_u8(tail).unwrap();
        let (high, rest) = take_u8(tail).unwrap();
        proof {
            lemma_big_endian(ip@);
        }
        let ip_num: u128 = read_be(ip.as_slice());
        let port: u16 = low as u16 + 256 * high as u16;
        let addr = SocketAddr::V6(
            SocketAddrV6 { ip: ip_num, port, flowinfo: 0, scope_id: 0 },
        );
        assert(port_bytes(port) =~= seq![low, high]);
        assert(bytes@ =~= socket_bytes(addr) + rest@);
        Some((addr, rest))
    } else {
        None
    }
}

impl DeepView for SocketAddr {
    type V = SocketAddr;

    /// What the bytes of the address say.
    open spec fn deep_view(&self) -> SocketAddr {
        plain_socket(*self)
    }
}

impl Format for SocketAddr {
    open spec fn encodable(v: SocketAddr) -> bool {
        has_socket_bytes(v)
    }

    open spec fn encoding(v: SocketAddr) -> Seq<u8> {
        socket_bytes(v)
    }
}

impl Encode for SocketAddr {
    proof fn encoding_prefix(a: SocketAddr, ra: Seq<u8>, b: SocketAddr, rb: Seq<u8>) {
        lemma_socket_prefix(a, ra, b, rb);
    }

    fn put(&self, out: &mut Vec<u8>) -> (r: Result<(), Error>) {
        let ghost before = out@;
        match self {
            SocketAddr::V4(addr) => {
                out.push(0);
                put_be(out, addr.ip as u128, 4);
                out.push((addr.port % 256) as u8);
                out.push((addr.port / 256) as u8);
            },
            SocketAddr::V6(addr) => {
                out.push(1);
                put_be(out, addr.ip, 16);
                out.push((addr.port % 256) as u8);
                out.push((addr.port / 256) as u8);
            },
        }
        assert(out@ =~= before + Self::encoding(self.deep_view()));
        Ok(())
    }

    open spec fn is_plain(&self) -> bool {
        *self == self.deep_view()
    }

    fn take<'a>(bytes: &'a [u8]) -> (r: Option<(Self, &'a [u8])>)
        ensures
            r matches Some((v, _)) ==> v == v.deep_view(),
    {
        take_socket(bytes)
    }
}

impl Encode for Addr {
    proof fn encoding_prefix(a: AddrView, ra: Seq<u8>, b: AddrView, rb: Seq<u8>) {
        assert((Self::encoding(a) + ra)[0] == Self::encoding(a)[0]);
        assert((Self::encoding(b) + rb)[0] == Self::encoding(b)[0]);
        match (a, b) {
            (AddrView::Socket(x), AddrView::Socket(y)) => {
                assert((Self::encoding(a) + ra).skip(1) =~= socket_bytes(x) + ra);
                assert((Self::encoding(b) + rb).skip(1) =~= socket_bytes(y) + rb);
                lemma_socket_prefix(x, ra, y, rb);
            },
            (AddrView::Untyped(x), AddrView::Untyped(y)) => {
                assert((Self::encoding(a) + ra).skip(1) =~= blob_bytes(encode_utf8(x)) + ra);
                assert((Self::encoding(b) + rb).skip(1) =~= blob_bytes(encode_utf8(y)) + rb);
                lemma_blob_prefix(encode_utf8(x), ra, encode_utf8(y), rb);
                vstd::utf8::encode_utf8_decode_utf8(x);
                vstd::utf8::encode_utf8_decode_utf8(y);
            },
            _ => {},
        }
    }

    fn put(&self, out: &mut Vec<u8>) -> (r: Result<(), Error>) {
        let ghost before = out@;
        match self {
            Addr::Socket(addr) => {
                out.push(0);
                match addr.put(out) {
                    Ok(_) => {},
                    Err(e) => return Err(e),
                }
            },
            Addr::Untyped(name) => {
                out.push(1);
                let bytes = vstd::slice::slice_to_vec(name.as_str().as_bytes());
                match put_blob(out, &bytes) {
                    Ok(_) => {},
                    Err(e) => return Err(e),
                }
            },
        }
        assert(out@ =~= before + Self::encoding(self.deep_view()));
        Ok(())
    }

    open spec fn is_plain(&self) -> bool {
        self@ == self.deep_view()
    }

    fn take<'a>(bytes: &'a [u8]) -> (r: Option<(Self, &'a [u8])>)
        ensures
            r matches Some((v, _)) ==> v@ == v.deep_view(),
    {
        let (tag, body) = match take_u8(bytes) {
            Some(r) => r,
            None => return None,
        };
        proof {
            assert forall|v: AddrView, rest: Seq<u8>| #[trigger] is_encoded::<Self>(
                bytes@,
                v,
                rest,
            ) implies {
                &&& v is Socket ==> tag == 0 && body@ == socket_bytes(v->Socket_0) + rest
                &&& v is Untyped ==> tag == 1 && body@ == blob_bytes(encode_utf8(v->Untyped_0))
                    + rest
            } by {
                assert((Self::encoding(v) + rest)[0] == bytes@[0]);
                assert(body@ =~= bytes@.skip(1));
                match v {
                    AddrView::Socket(addr) => {
                        assert(bytes@.skip(1) =~= socket_bytes(addr) + rest);
                    },
                    AddrView::Untyped(name) => {
                        assert(bytes@.skip(1) =~= blob_bytes(encode_utf8(name)) + rest);
                    },
                }
            }
        }
        if tag == 0 {
            match take_socket(body) {
                Some((addr, rest)) => {
                    assert(bytes@ =~= Self::encoding(AddrView::Socket(addr)) + rest@);
                    Some((Addr::Socket(addr), rest))
                },
                None => None,
            }
        } else if tag == 1 {
            match take_blob(body) {
                Some((text, rest)) => {
                    let ghost utf8 = text@;
                    match string_from_utf8(text) {
                        Some(name) => {
                            proof {
                                vstd::utf8::decode_utf8_encode_utf8(utf8);
                            }
                            assert(bytes@ =~= Self::encoding(AddrView::Untyped(name@)) + rest@);
                            Some((Addr::Untyped(name), rest))
                        },
                        None => {
                            assert forall|v: AddrView, tail: Seq<u8>| !#[trigger] is_encoded::<
                                Self,
                            >(bytes@, v, tail) by {
                                if is_encoded::<Self>(bytes@, v, tail) {
                                    let chars = v->Untyped_0;
                                    lemma_blob_prefix(encode_utf8(chars), tail, utf8, rest@);
                                    vstd::utf8::encode_utf8_valid_utf8(chars);
                                }
                            }
                            None
                        },
                    }
                },
                None => None,
            }
        } else {
            None
        }
    }
}

} // verus!
