use helloween::addr::{socket, IpAddr, SocketAddr};
use helloween::blob::exp;
use helloween::blob::stream;
use helloween::blob::{Event, RecvBlob, Serve, Session, Task, Transfer};
use helloween::error::Error;
use helloween::net::{Recv, SendEvent, SendMessage};
use tokio_util::sync::CancellationToken;

/// Keeps what it is given, or refuses everything.
struct Sink<T>(Vec<T>, bool);

impl<T> Sink<T> {
    fn new() -> Self {
        Sink(Vec::new(), false)
    }

    fn refusing() -> Self {
        Sink(Vec::new(), true)
    }
}

impl<T> SendEvent<T> for Sink<T> {
    fn send(&mut self, event: T) -> Result<(), Error> {
        if self.1 {
            return Err(Error::ChannelClosed);
        }
        self.0.push(event);
        Ok(())
    }
}

impl<A, M> SendMessage<A, M> for Sink<(A, M)> {
    fn send(&mut self, dest: A, message: M) -> Result<(), Error> {
        SendEvent::send(self, (dest, message))
    }
}

fn blob_port(n: u16) -> SocketAddr {
    socket(IpAddr::V4(1), n)
}

#[test]
fn blob_is_announced_by_the_latest_server() {
    let mut session: Session<u8, &str> = Session::new();
    assert!(matches!(session.on_event(Event::Transfer(Transfer(1, "a", vec![1]))), Task::Bind));
    assert!(matches!(session.on_event(Event::Transfer(Transfer(2, "b", vec![2]))), Task::Bind));
    assert_eq!(session.binding, 2);
    let mut net: Sink<(u8, Serve<&str>)> = Sink::new();
    assert_eq!(session.on_bind(&mut net, blob_port(5)), Ok(vec![2]));
    assert_eq!(session.on_bind(&mut net, blob_port(6)), Ok(vec![1]));
    let sent: Vec<_> = net.0.iter().map(|(to, Serve(m, addr))| (*to, *m, *addr)).collect();
    assert_eq!(sent, vec![(2, "b", blob_port(5)), (1, "a", blob_port(6))]);
    assert_eq!(session.binding, 0);
}

#[test]
fn blob_is_fetched_and_handed_up() {
    let mut session: Session<u8, &str> = Session::new();
    match session.on_event(Event::RecvServe(Recv(Serve("a", blob_port(5))))) {
        Task::Fetch(message, addr) => {
            assert_eq!(addr, blob_port(5));
            let mut upcall: Sink<RecvBlob<&str>> = Sink::new();
            session.on_recv(&mut upcall, message, vec![9]).unwrap();
            assert_eq!(upcall.0[0].0, "a");
            assert_eq!(upcall.0[0].1, vec![9]);
            assert_eq!(upcall.0[0].data_text(), "<1 bytes>");
        }
        _ => panic!(),
    }
}

#[test]
fn failed_announcement_ends_the_session() {
    let mut session: Session<u8, &str> = Session::new();
    session.on_event(Event::Transfer(Transfer(1, "a", vec![1])));
    let mut net: Sink<(u8, Serve<&str>)> = Sink::refusing();
    assert_eq!(session.on_bind(&mut net, blob_port(5)), Err(Error::ChannelClosed));
}

#[test]
fn stream_is_announced_under_the_given_ip() {
    let ip = IpAddr::V4(0x0a000001);
    let mut session: stream::Session<u8, &str, char> = stream::Session::new(ip);
    session.on_event(stream::Event::Transfer(stream::Transfer(1, "a", 'x')));
    let mut net: Sink<(u8, stream::Serve<&str>)> = Sink::new();
    let local = socket(IpAddr::V4(0), 4321);
    assert_eq!(session.on_bind(&mut net, local), Ok('x'));
    assert_eq!(net.0[0].1 .1, socket(ip, 4321));
    match session.on_event(stream::Event::RecvServe(Recv(stream::Serve("b", local)))) {
        stream::Task::Connect(message, addr) => {
            assert_eq!((message, addr), ("b", local));
            let mut upcall: Sink<stream::RecvBlob<&str, u8>> = Sink::new();
            session.on_connect(&mut upcall, message, 3).unwrap();
            assert_eq!(upcall.0[0].1, 3);
        }
        _ => panic!(),
    }
}

type ExpEvent = exp::Event<u8, &'static str, u16, u32>;

type TokenEvent = exp::Event<u8, &'static str, u16, CancellationToken>;

#[test]
fn blobs_tell_their_length() {
    assert_eq!(Transfer(1, "a", vec![0; 7]).data_text(), "<7 bytes>");
    assert_eq!(Transfer(1, "a", vec![0; 1204]).data_text(), "<1204 bytes>");
    assert_eq!(RecvBlob("a", Vec::new()).data_text(), "<0 bytes>");
    let offer = exp::Offer { dest: 1, message: "a", buf: vec![0; 3], cancel: None::<u8> };
    assert_eq!(offer.data_text(), "<3 bytes>");
}

#[test]
fn offer_is_served_and_accepted() {
    let mut service: Sink<ExpEvent> = Sink::new();
    exp::offer(&mut service, 1, "a", vec![5], Some(7)).unwrap();
    let mut session: exp::Session<u8, &str, u32> = exp::Session::new();
    let mut upcall: Sink<exp::RecvOffer<&str>> = Sink::new();
    let event = service.0.pop().unwrap();
    assert!(matches!(session.on_event(&mut upcall, event), Ok(exp::Task::Bind)));
    let (dest, message, buf, cancel) = session.on_bind();
    assert_eq!((dest, message, buf, cancel), (1, "a", vec![5], Some(7)));
    let mut net: Sink<(u8, exp::Serve<&str>)> = Sink::new();
    session.announce(&mut net, dest, message, blob_port(5)).unwrap();

    let (_, serve) = net.0.pop().unwrap();
    let event: ExpEvent = exp::Event::RecvServe(Recv(serve));
    assert!(matches!(session.on_event(&mut upcall, event), Ok(exp::Task::Nothing)));
    let mut offer = upcall.0.pop().unwrap();
    assert_eq!(offer.inner, "a");
    exp::accept(&mut service, &mut offer, 3, None).unwrap();
    let event = service.0.pop().unwrap();
    match session.on_event(&mut upcall, event) {
        Ok(exp::Task::Fetch(accept)) => {
            assert_eq!(accept.serve_addr, blob_port(5));
            assert_eq!(accept.into_recv_event, 3);
            assert_eq!(accept.cancel, None);
        }
        _ => panic!(),
    }
}

#[test]
fn offer_is_taken_once() {
    let mut service: Sink<TokenEvent> = Sink::new();
    let mut offer = exp::RecvOffer { inner: "a", serve_addr: Some(blob_port(1)) };
    exp::reject(&mut service, &mut offer, 0).unwrap();
    // it is accepted with what is cancelled by now
    match &service.0[..] {
        [exp::Event::Accept(accept)] => {
            assert!(accept.cancel.as_ref().unwrap().is_cancelled());
            assert_eq!(accept.serve_addr, blob_port(1));
        }
        _ => panic!(),
    }
    assert_eq!(exp::accept(&mut service, &mut offer, 0, None), Err(Error::OfferTaken));
    assert_eq!(exp::reject(&mut service, &mut offer, 0), Err(Error::OfferTaken));
    assert_eq!(service.0.len(), 1);
    // also when it could not be handed over
    let mut closed: Sink<ExpEvent> = Sink::refusing();
    let mut offer = exp::RecvOffer { inner: "a", serve_addr: Some(blob_port(1)) };
    assert_eq!(exp::accept(&mut closed, &mut offer, 0, None), Err(Error::ChannelClosed));
    assert_eq!(exp::accept(&mut closed, &mut offer, 0, None), Err(Error::OfferTaken));
}

#[test]
fn fetched_blob_becomes_an_event() {
    let session: exp::Session<u8, u8, u8> = exp::Session::new();
    let len = |data: Vec<u8>| data.len();
    let mut upcall: Sink<usize> = Sink::new();
    assert_eq!(session.on_fetched(&mut upcall, len, exp::Fetched::Done(vec![1, 2])), Ok(()));
    assert_eq!(session.on_fetched(&mut upcall, len, exp::Fetched::Cancelled), Ok(()));
    assert_eq!(session.on_fetched(&mut upcall, len, exp::Fetched::Failed), Ok(()));
    assert_eq!(upcall.0, vec![2]);
    let mut closed: Sink<usize> = Sink::refusing();
    assert_eq!(
        session.on_fetched(&mut closed, len, exp::Fetched::Done(vec![])),
        Err(Error::ChannelClosed)
    );
}
