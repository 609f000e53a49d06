use std::marker::PhantomData;

use helloween::addr::{socket, Addr, IpAddr, SocketAddr};
use helloween::error::Error;
use helloween::net::tcp::{
    frame_len, short_frame_len, to_frame, to_short_frame, CheckIdleConnection, GeneralConnection,
    TcpControl,
};
use helloween::net::udp::{UdpSocket, UdpTransport};
use helloween::net::{
    All, Auto, IndexNet, IterAddr, MessageNet, SendAddr, SendEvent, SendMessage,
    SendMessageToEachExt, Tcp, Timer,
};
use helloween::unreplicated::Reply;

#[derive(Debug, Default)]
struct Recorder {
    sent: Vec<(u32, Vec<u8>)>,
    each: Vec<(Vec<u32>, Vec<u8>)>,
}

impl SendMessage<u32, Vec<u8>> for Recorder {
    fn send(&mut self, dest: u32, message: Vec<u8>) -> Result<(), Error> {
        self.sent.push((dest, message));
        Ok(())
    }
}

impl SendMessage<IterAddr<u32>, Vec<u8>> for Recorder {
    fn send(&mut self, dest: IterAddr<u32>, message: Vec<u8>) -> Result<(), Error> {
        self.each.push((dest.0, message));
        Ok(())
    }
}

/// Takes some events and refuses the rest.
struct Limited(usize, Vec<u16>);

impl SendEvent<(SocketAddr, u8)> for Limited {
    fn send(&mut self, event: (SocketAddr, u8)) -> Result<(), Error> {
        if self.1.len() == self.0 {
            return Err(Error::ChannelClosed);
        }
        self.1.push(match event.0 {
            SocketAddr::V4(addr) => addr.port,
            SocketAddr::V6(addr) => addr.port,
        });
        Ok(())
    }
}

fn net_port(n: u16) -> SocketAddr {
    socket(IpAddr::V4(1), n)
}

#[test]
fn index_net_looks_addresses_up() {
    let mut net = IndexNet::new(Recorder::default(), vec![70, 71, 72], Some(1));
    assert_eq!(net.send(2usize, vec![1]), Ok(()));
    assert_eq!(net.send(1u8, vec![2]), Ok(()));
    assert_eq!(net.send(3usize, vec![3]), Err(Error::IndexOutOfBound));
    assert_eq!(net.inner_net.sent, vec![(72, vec![1]), (71, vec![2])]);
}

#[test]
fn index_net_broadcasts_to_others() {
    let mut net = IndexNet::new(Recorder::default(), vec![70, 71, 72], Some(1));
    assert_eq!(net.send(All, vec![1]), Ok(()));
    assert_eq!(net.inner_net.each, vec![(vec![70, 72], vec![1])]);
    let mut net = IndexNet::new(Recorder::default(), vec![70, 71], None);
    net.send(All, vec![2]).unwrap();
    assert_eq!(net.inner_net.each, vec![(vec![70, 71], vec![2])]);
    let mut net = IndexNet::new(Recorder::default(), vec![70, 71], Some(5));
    net.send(All, vec![3]).unwrap();
    assert_eq!(net.inner_net.each, vec![(vec![70, 71], vec![3])]);
}

#[test]
fn message_net_sends_bytes() {
    let mut net: MessageNet<Recorder, u64> = MessageNet::new(Recorder::default());
    assert_eq!(net.send_serialized(5u32, Ok(vec![1, 2])), Ok(()));
    assert_eq!(net.send_serialized(5u32, Err(Error::Encoding)), Err(Error::Encoding));
    assert_eq!(net.0.sent, vec![(5, vec![1, 2])]);
    net.0.send_to_each(vec![1, 2], vec![3]).unwrap();
    assert_eq!(net.0.each, vec![(vec![1, 2], vec![3])]);
}

#[test]
fn message_net_wraps_another() {
    let net: MessageNet<Vec<u8>, u64> = MessageNet::from(vec![1, 2]);
    assert_eq!(net.0, vec![1, 2]);
    assert_eq!(net.clone().0, net.0);
}

#[test]
fn auto_net_lets_addresses_take_messages() {
    let mut net: Auto<SendAddr<Limited>> = Auto(PhantomData);
    assert_eq!(net.send(SendAddr(Limited(1, vec![])), (net_port(1), 0)), Ok(()));
    assert_eq!(
        net.send(SendAddr(Limited(0, vec![])), (net_port(1), 0)),
        Err(Error::ChannelClosed)
    );
}

#[test]
fn tcp_net_stops_at_the_first_refusal() {
    let mut net = Tcp(Limited(2, vec![]));
    let dest = IterAddr(vec![net_port(1), net_port(2), net_port(3)]);
    assert_eq!(net.send(dest, 0u8), Err(Error::ChannelClosed));
    assert_eq!(net.0 .1, vec![1, 2]);
    let mut net = Tcp(Limited(2, vec![]));
    assert_eq!(net.send(IterAddr(vec![net_port(4), net_port(5)]), 0u8), Ok(()));
    assert_eq!(net.send(net_port(6), 0u8), Err(Error::ChannelClosed));
    assert_eq!(net.0 .1, vec![4, 5]);
}

/// Numbers timers from one, up to a last one.
#[derive(Default)]
struct Timers {
    last: Option<u32>,
    set: Vec<(u32, u64, SocketAddr)>,
    unset: Vec<u32>,
}

impl Timer<CheckIdleConnection> for Timers {
    fn set(&mut self, secs: u64, event: CheckIdleConnection) -> Result<u32, Error> {
        let id = self.set.len() as u32 + 1;
        if self.last.is_some_and(|last| id > last) {
            return Err(Error::ChannelClosed);
        }
        self.set.push((id, secs, event.0));
        Ok(id)
    }

    fn unset(&mut self, id: u32) -> Result<(), Error> {
        self.unset.push(id);
        Ok(())
    }
}

#[test]
fn connections_are_kept_while_in_use() {
    let (mut control, mut timers) = (TcpControl::new(), Timers::default());
    let (source, sent) = control.on_event(net_port(1), vec![1], &mut timers);
    assert_eq!(sent, Ok(()));
    let mut first = source.unwrap();
    let (other, _) = control.on_event(net_port(2), vec![2], &mut timers);
    assert_eq!(timers.set, vec![(1, 10, net_port(1)), (2, 10, net_port(2))]);
    // the next message joins the queue
    let (source, sent) = control.on_event(net_port(1), vec![3], &mut timers);
    assert!(source.is_none());
    assert_eq!(sent, Ok(()));
    assert_eq!(first.0.try_recv(), Ok(vec![1]));
    assert_eq!(first.0.try_recv(), Ok(vec![3]));
    assert_eq!(timers.set.len(), 2);
    assert_eq!(other.unwrap().0.try_recv(), Ok(vec![2]));
    // used, then not
    assert_eq!(control.on_check_idle(net_port(1), &mut timers), Ok(()));
    assert_eq!(timers.unset, vec![]);
    assert_eq!(control.on_check_idle(net_port(1), &mut timers), Ok(()));
    assert_eq!(timers.unset, vec![1]);
    assert_eq!(
        control.on_check_idle(net_port(1), &mut timers),
        Err(Error::ConnectionMissing)
    );
    assert!(first.0.try_recv().is_err());
    assert_eq!(control.connections.len(), 1);
    assert_eq!(control.connections[0].0, net_port(2));
}

#[test]
fn ended_connections_are_replaced() {
    let (mut control, mut timers) = (TcpControl::new(), Timers::default());
    let (source, _) = control.on_event(net_port(1), vec![1], &mut timers);
    drop(source);
    let (source, sent) = control.on_event(net_port(1), vec![2], &mut timers);
    assert_eq!(sent, Ok(()));
    let mut source = source.unwrap();
    assert_eq!(source.0.try_recv(), Ok(vec![2]));
    assert!(source.0.try_recv().is_err());
    assert_eq!(control.connections.len(), 1);
    assert_eq!((control.connections[0].1.in_use, control.connections[0].1.timer), (false, 2));
    // without a timer it is not kept, but the message goes out
    timers.last = Some(2);
    let (source, sent) = control.on_event(net_port(2), vec![3], &mut timers);
    assert_eq!(sent, Err(Error::ChannelClosed));
    assert_eq!(source.unwrap().0.try_recv(), Ok(vec![3]));
    assert_eq!(control.connections.len(), 1);
}

#[test]
fn large_messages_are_refused() {
    let (mut control, mut timers) = (TcpControl::new(), Timers::default());
    let (source, sent) = control.on_event(net_port(1), vec![0; 1 << 20], &mut timers);
    assert!(source.is_none());
    assert_eq!(sent, Err(Error::TooLarge(1 << 20)));
    let (source, sent) = control.on_event(net_port(1), vec![0; (1 << 20) - 1], &mut timers);
    assert!(source.is_some());
    assert_eq!(sent, Ok(()));
}

#[test]
fn frames_carry_their_length() {
    let frame = to_frame(&vec![7, 8]);
    assert_eq!(frame, vec![0, 0, 0, 0, 0, 0, 0, 2, 7, 8]);
    assert_eq!(frame_len(&frame[..8]), Some(2));
    assert_eq!(frame_len(&[0, 0, 0, 0, 0, 16, 0, 0]), None);
    assert_eq!(frame_len(&[0, 0, 0, 0, 0, 15, 255, 255]), Some((1 << 20) - 1));
    assert_eq!(frame_len(&[255; 8]), None);
    let frame = to_short_frame(&vec![7, 8]);
    assert_eq!(frame, vec![0, 0, 0, 2, 7, 8]);
    assert_eq!(short_frame_len(&frame[..4]), Some(2));
    assert_eq!(short_frame_len(&[0, 1, 0, 0]), Some(65536));
    assert_eq!(short_frame_len(&[0, 1, 0, 1]), None);
}

#[test]
fn connection_keeps_its_queue_over_streams() {
    let connection = GeneralConnection::new('a', net_port(1), "state", 5u8);
    let out = connection.out_state();
    out.update(vec![1]);
    let (mut connection, old) = connection.replace_stream(2.5);
    assert_eq!(old, 'a');
    assert_eq!(connection.stream, 2.5);
    assert_eq!(connection.remote_addr, net_port(1));
    assert_eq!((connection.state, connection.disconnected), ("state", 5));
    assert_eq!(connection.egress.1 .0.try_recv(), Ok(vec![1]));
    drop(connection);
    // nobody reads any more, which is no failure
    out.update(vec![2]);
}

#[test]
fn datagrams_carry_messages() {
    let transport: UdpTransport<Reply> = UdpTransport(PhantomData);
    let reply = Reply { request_num: 1, result: vec![2] };
    let (addr, mut buf) = transport.send_to(Addr::Socket(net_port(3)), &reply).unwrap();
    assert_eq!(addr, net_port(3));
    let len = buf.len();
    buf.resize(100, 0);
    assert_eq!(UdpSocket.on_datagram::<Reply>(&buf, len), Ok(reply));
    assert_eq!(UdpSocket.on_datagram::<Reply>(&buf, len + 1), Err(Error::Decoding));
    let reply = Reply { request_num: 1, result: vec![2] };
    assert_eq!(
        transport.send_to(Addr::Untyped("x".to_string()), &reply),
        Err(Error::UnsupportedAddr)
    );
}
