use kwap::event::{Event, Handler, MatchEvent};
use kwap::msg::{Code, Id, Message, MessageParseError, Payload, Token, Type, Version};
use kwap::req::Req;
use kwap::resp::{Resp, RespCore};
use kwap::runtime::{Core, SendError, Socket};

/// A socket that hands out the datagrams it was given and keeps what is sent.
struct TubeSock {
    inbox: Vec<Vec<u8>>,
    sent: Vec<(([u8; 4], u16), Vec<u8>)>,
    peer: Option<([u8; 4], u16)>,
}

impl TubeSock {
    fn new() -> Self {
        TubeSock { inbox: vec![], sent: vec![], peer: None }
    }

    fn init(bytes: Vec<u8>) -> Self {
        TubeSock { inbox: vec![bytes], sent: vec![], peer: None }
    }
}

impl Socket for TubeSock {
    type Error = ();

    fn connect(&mut self, ip: [u8; 4], port: u16) -> Result<(), ()> {
        self.peer = Some((ip, port));
        Ok(())
    }

    fn send(&mut self, bytes: &[u8]) -> Result<(), nb::Error<()>> {
        self.sent.push((self.peer.unwrap(), bytes.to_vec()));
        Ok(())
    }

    fn poll(&mut self) -> Result<Option<Vec<u8>>, ()> {
        if self.inbox.is_empty() {
            Ok(None)
        } else {
            Ok(Some(self.inbox.remove(0)))
        }
    }
}

fn empty_msg(id: Id, ty: Type) -> Message {
    Message {
        id,
        token: Token(vec![]),
        code: Code::new(0, 0),
        ver: Version(1),
        ty,
        payload: Payload(vec![]),
        opts: vec![],
    }
}

#[test]
fn eventer() {
    let req = Req::get("0.0.0.0", 1234, "", Id(1152));
    let bytes = req.into_message().try_into_bytes().unwrap();
    let mut client = Core::<TubeSock>::behaviorless(TubeSock::new());

    client.listen(MatchEvent::MsgParseError, Handler::Notify);
    client.listen(MatchEvent::RecvDgram, Handler::Notify);

    let heard = client.fire(Event::RecvDgram(Some(bytes)));
    assert_eq!(heard, vec![1]);
}

#[test]
fn ping() {
    let mut client = Core::<TubeSock>::new(TubeSock::new());
    let id = client.ping("0.0.0.0", 5632).unwrap();

    let resp = empty_msg(id, Type::Reset);
    let bytes = resp.try_into_bytes().unwrap();

    client.fire(Event::RecvDgram(Some(bytes.clone())));
    let rep = client.poll_ping(id).unwrap();
    assert_eq!(bytes, rep.try_into_bytes().unwrap());
}

#[test]
fn client_flow() {
    let req = Req::get("0.0.0.0", 1234, "", Id(77));
    let id = req.msg.id;
    let resp = Resp::for_request(req, Id(78));
    let bytes = resp.0.into_message().try_into_bytes().unwrap();

    let mut client = Core::<TubeSock>::new(TubeSock::init(bytes.clone()));

    let rep = client.poll_resp(id).unwrap();
    assert_eq!(bytes, rep.0.into_message().try_into_bytes().unwrap());
}

#[test]
fn ping_sends_empty_con() {
    let mut client = Core::<TubeSock>::new(TubeSock::new());
    let a = client.ping("10.0.0.7", 5683).unwrap();
    let b = client.ping("10.0.0.7", 5683).unwrap();
    assert_ne!(a, b);
    let mut fresh_client = Core::<TubeSock>::behaviorless(TubeSock::new());
    let id = fresh_client.ping("1.2.3.4", 9).unwrap();
    assert_eq!(id, Id(0));
    let expected = empty_msg(Id(0), Type::Con).try_into_bytes().unwrap();
    assert_eq!(expected, vec![0x40, 0, 0, 0]);
}

#[test]
fn ping_bad_host() {
    let mut client = Core::<TubeSock>::new(TubeSock::new());
    assert!(matches!(client.ping("not-an-ip", 5683), Err(SendError::HostInvalidIpAddress)));
}

#[test]
fn send_req_reaches_host_and_port() {
    let mut client = Core::<TubeSock>::new(TubeSock::new());
    let req = Req::get("192.168.0.1", 5683, "/hello", Id(5));
    let wire = req.clone().into_message().try_into_bytes().unwrap();
    assert!(client.send_req(req).is_ok());
    let req2 = Req::get("localhost", 5683, "/hello", Id(6));
    assert!(matches!(client.send_req(req2), Err(SendError::HostInvalidIpAddress)));
    assert_eq!(wire.len(), 4 + 12 + 3 + 6);
}

#[test]
fn poll_resp_twice() {
    let req = Req::get("0.0.0.0", 1234, "/a", Id(9));
    let resp = Resp::for_request(req, Id(10));
    let mut client = Core::<TubeSock>::new(TubeSock::new());
    client.fire(Event::RecvResp(Some(resp.clone())));
    let got = client.poll_resp(Id(9)).unwrap();
    assert_eq!(got.0.msg, resp.0.msg);
    assert!(matches!(client.poll_resp(Id(9)), Err(nb::Error::WouldBlock)));
}

#[test]
fn store_resp_takes_from_event() {
    let mut client = Core::<TubeSock>::behaviorless(TubeSock::new());
    let msg = empty_msg(Id(3), Type::Ack);
    let mut ev = Event::RecvResp(Some(Resp(RespCore::from_message(msg.clone()))));
    client.store_resp(&mut ev);
    assert!(matches!(ev, Event::RecvResp(None)));
    assert_eq!(client.try_get_resp(Id(3)).unwrap().0.msg, msg);
    assert!(matches!(client.try_get_resp(Id(3)), Err(nb::Error::WouldBlock)));
}

#[test]
fn store_empty_ignores_non_empty_codes() {
    let mut client = Core::<TubeSock>::behaviorless(TubeSock::new());
    let mut msg = empty_msg(Id(3), Type::Ack);
    msg.code = Code::new(2, 5);
    let mut ev = Event::RecvMsg(Some(msg));
    client.store_empty(&mut ev);
    assert!(matches!(ev, Event::RecvMsg(Some(_))));
    assert!(matches!(client.try_get_empty(Id(3)), Err(nb::Error::WouldBlock)));
}

#[test]
fn stores_hold_sixty_four_and_compact() {
    let mut client = Core::<TubeSock>::behaviorless(TubeSock::new());
    for i in 0..64u16 {
        let mut ev = Event::RecvResp(Some(Resp(RespCore::from_message(empty_msg(Id(i), Type::Ack)))));
        client.store_resp(&mut ev);
        assert!(matches!(ev, Event::RecvResp(None)));
    }
    let mut ev = Event::RecvResp(Some(Resp(RespCore::from_message(empty_msg(Id(100), Type::Ack)))));
    client.store_resp(&mut ev);
    assert!(matches!(ev, Event::RecvResp(Some(_))));
    assert!(client.try_get_resp(Id(5)).is_ok());
    client.store_resp(&mut ev);
    assert!(matches!(ev, Event::RecvResp(None)));
    assert_eq!(client.try_get_resp(Id(100)).unwrap().0.msg.id, Id(100));
}

#[test]
fn listeners_run_iff_matching() {
    let mut client = Core::<TubeSock>::behaviorless(TubeSock::new());
    client.listen(MatchEvent::RecvMsg, Handler::Notify);
    client.listen(MatchEvent::All, Handler::Notify);
    client.listen(MatchEvent::MsgParseError, Handler::Notify);
    let heard = client.fire(Event::MsgParseError(MessageParseError::UnexpectedEndOfStream));
    assert_eq!(heard, vec![1, 2]);
    let heard = client.fire(Event::RecvMsg(None));
    assert_eq!(heard, vec![0, 1]);
}

#[test]
fn bad_datagram_fires_parse_error() {
    let mut client = Core::<TubeSock>::new(TubeSock::new());
    client.listen(MatchEvent::MsgParseError, Handler::Notify);
    let heard = client.fire(Event::RecvDgram(Some(vec![0x4F])));
    assert_eq!(heard, vec![0]);
    assert!(matches!(client.poll_resp(Id(0)), Err(nb::Error::WouldBlock)));
}

#[test]
fn send_connects_to_parsed_address() {
    let mut client = Core::<TubeSock>::new(TubeSock::new());
    let id = client.ping("10.0.0.7", 5683).unwrap();
    let req = Req::get("192.168.0.1", 1234, "/x", Id(44));
    client.send_req(req).unwrap();
    let sock_view = client.sock();
    assert_eq!(sock_view.sent[0].0, ([10, 0, 0, 7], 5683));
    assert_eq!(sock_view.sent[0].1, vec![0x40, 0, (id.0 >> 8) as u8, id.0 as u8]);
    assert_eq!(sock_view.sent[1].0, ([192, 168, 0, 1], 1234));
}

#[test]
fn send_req_host_not_utf8() {
    let mut client = Core::<TubeSock>::new(TubeSock::new());
    let mut req = Req::get("0.0.0.0", 1234, "", Id(1));
    req.opts[0].1 = vec![0xFF, 0xFE];
    assert!(matches!(client.send_req(req), Err(SendError::HostInvalidUtf8)));
}

#[test]
fn send_req_too_large() {
    let mut client = Core::<TubeSock>::new(TubeSock::new());
    let mut req = Req::get("0.0.0.0", 1234, "", Id(1));
    req.msg.payload.0 = vec![0; 2000];
    assert!(matches!(
        client.send_req(req),
        Err(SendError::ToBytes(kwap::msg::MessageToBytesError::BufferFull(1152)))
    ));
}

#[test]
fn poll_reports_storage_full() {
    let mut client = Core::<TubeSock>::new(TubeSock::new());
    for i in 0..64u16 {
        client.fire(Event::RecvResp(Some(Resp(RespCore::from_message(empty_msg(Id(i), Type::Ack))))));
    }
    let req = Req::get("0.0.0.0", 1234, "", Id(500));
    let bytes = Resp::for_request(req, Id(501)).0.into_message().try_into_bytes().unwrap();
    let r = client.poll_resp_with(Ok(Some(bytes)), Id(500));
    assert!(matches!(r, Err(nb::Error::Other(kwap::runtime::PollError::StorageFull))));
    assert!(client.poll_resp(Id(3)).is_ok());
}

#[test]
fn poll_with_hands_on_socket_error() {
    let mut client = Core::<TubeSock>::new(TubeSock::new());
    let r = client.poll_resp_with(Err(()), Id(1));
    assert!(matches!(r, Err(nb::Error::Other(kwap::runtime::PollError::SockError(())))));
    let r = client.poll_ping_with(Ok(None), Id(1));
    assert!(matches!(r, Err(nb::Error::WouldBlock)));
}

#[test]
fn poll_ping_with_datagram() {
    let mut client = Core::<TubeSock>::new(TubeSock::new());
    let m = empty_msg(Id(77), Type::Reset);
    let bytes = m.try_into_bytes().unwrap();
    assert!(matches!(client.poll_resp_with(Ok(Some(bytes.clone())), Id(77)), Err(nb::Error::WouldBlock)));
    assert_eq!(client.poll_ping_with(Ok(None), Id(77)).unwrap(), m);
}

#[test]
fn prepare_request_parts() {
    let req = Req::get("10.1.2.3", 0x1633, "/a", Id(2));
    let wire = req.clone().into_message().try_into_bytes().unwrap();
    let (host, port, bytes) = kwap::runtime::prepare_request::<()>(req).unwrap();
    assert_eq!(host, b"10.1.2.3".to_vec());
    assert_eq!(port, 0x1633);
    assert_eq!(bytes, wire);
    assert_eq!(kwap::runtime::uri_port(&vec![0x16]), 0x1600);
    assert_eq!(kwap::runtime::uri_port(&vec![]), 0);
}

#[test]
fn failed_sends_leave_socket_alone() {
    let mut client = Core::<TubeSock>::new(TubeSock::new());
    assert!(matches!(client.ping("localhost", 5683), Err(SendError::HostInvalidIpAddress)));
    let mut req = Req::get("0.0.0.0", 1234, "", Id(1));
    req.msg.payload.0 = vec![0; 2000];
    assert!(client.send_req(req).is_err());
    assert!(matches!(client.send("nope", 1, &[1]), Err(SendError::HostInvalidIpAddress)));
    assert!(client.sock().sent.is_empty());
    assert!(client.sock().peer.is_none());
}
