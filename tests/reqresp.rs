use kwap::msg::{Code, Id, Opt, Type};
use kwap::req::Req;
use kwap::resp::{Resp, RespCore};

#[test]
fn get_builds_confirmable_get() {
    let req = Req::get("192.168.0.1", 5683, "/a//bc/", Id(42));
    assert_eq!(req.msg.ty, Type::Con);
    assert_eq!(req.msg.code, Code { class: 0, detail: 1 });
    assert_eq!(req.get_option(3), Some(&b"192.168.0.1".to_vec()));
    assert_eq!(req.get_option(7), Some(&vec![0x16, 0x33]));
    assert_eq!(req.get_option(11), Some(&b"a".to_vec()));
    let m = req.into_message();
    assert_eq!(
        m.opts,
        vec![
            Opt { delta: 3, value: b"192.168.0.1".to_vec() },
            Opt { delta: 4, value: vec![0x16, 0x33] },
            Opt { delta: 4, value: b"a".to_vec() },
            Opt { delta: 0, value: b"bc".to_vec() },
        ]
    );
}

#[test]
fn response_to_con_is_piggybacked_ack() {
    let mut req = Req::get("0.0.0.0", 1234, "", Id(500));
    req.msg.token.0 = vec![1, 2];
    let resp = Resp::for_request(req, Id(501));
    assert_eq!(resp.0.msg.ty, Type::Ack);
    assert_eq!(resp.0.msg.id, Id(500));
    assert_eq!(resp.0.msg.token.0, vec![1, 2]);
    assert_eq!(resp.0.msg.code, Code { class: 2, detail: 5 });
}

#[test]
fn response_to_non_gets_fresh_id() {
    for ty in [Type::Non, Type::Ack, Type::Reset] {
        let mut req = Req::get("0.0.0.0", 1234, "", Id(500));
        req.msg.ty = ty;
        let resp = RespCore::for_request(req, Id(501));
        assert_eq!(resp.msg.ty, ty);
        assert_eq!(resp.msg.id, Id(501));
    }
}

#[test]
fn not_found_response() {
    let req = Req::get("0.0.0.0", 5683, "/unknown", Id(8));
    let mut resp = Resp::for_request(req, Id(9));
    resp.0.set_code(Code::new(4, 4));
    assert_eq!(resp.0.msg.code, Code { class: 4, detail: 4 });
    assert_eq!(resp.0.msg.id, Id(8));
}

#[test]
fn options_normalized_stably() {
    let req = Req::get("0.0.0.0", 1, "", Id(1));
    let mut resp = RespCore::for_request(req, Id(2));
    resp.set_option(12, vec![50]);
    resp.set_option(4, vec![1]);
    resp.set_option(12, vec![51]);
    resp.set_option(4, vec![2]);
    resp.set_payload(b"{\"foo\": \"bar\"}".to_vec());
    assert_eq!(resp.payload(), b"{\"foo\": \"bar\"}");
    assert_eq!(resp.payload_string(), Ok(String::from("{\"foo\": \"bar\"}")));
    let m = resp.into_message();
    assert_eq!(
        m.opts,
        vec![
            Opt { delta: 4, value: vec![1] },
            Opt { delta: 0, value: vec![2] },
            Opt { delta: 8, value: vec![50] },
            Opt { delta: 0, value: vec![51] },
        ]
    );
}

#[test]
fn payload_string_rejects_invalid_utf8() {
    let req = Req::get("0.0.0.0", 1, "", Id(1));
    let mut resp = RespCore::for_request(req, Id(2));
    resp.set_payload(vec![0xC3, 0x28]);
    assert_eq!(resp.payload_string(), Err(vec![0xC3, 0x28]));
}

#[test]
fn received_response_keeps_wire_options() {
    let req = Req::get("0.0.0.0", 1, "/x", Id(1));
    let m = req.into_message();
    let resp = RespCore::from_message(m.clone());
    assert_eq!(resp.into_message(), m);
}

fn request_bytes(code: Code, ty: Type, path: &str) -> kwap::msg::Message {
    let mut req = Req::get("0.0.0.0", 5683, path, Id(300));
    req.msg.code = code;
    req.msg.ty = ty;
    req.into_message()
}

#[test]
fn server_hello() {
    let reply = kwap::server::reply_to(request_bytes(Code::new(0, 1), Type::Con, "/hello"), Id(9));
    assert_eq!(reply.code, Code { class: 2, detail: 5 });
    assert_eq!(reply.payload.0, b"hello, world!".to_vec());
    assert_eq!(reply.id, Id(300));
    assert_eq!(reply.ty, Type::Ack);
}

#[test]
fn server_not_found() {
    let reply = kwap::server::reply_to(request_bytes(Code::new(0, 1), Type::Con, "/unknown"), Id(9));
    assert_eq!(reply.code, Code { class: 4, detail: 4 });
    assert_eq!(reply.id, Id(300));
    let reply = kwap::server::reply_to(request_bytes(Code::new(0, 1), Type::Non, "/unknown"), Id(9));
    assert_eq!(reply.code, Code { class: 4, detail: 4 });
    assert_eq!(reply.id, Id(9));
    assert_eq!(reply.ty, Type::Non);
}

#[test]
fn server_ping_gets_reset() {
    let ping = kwap::msg::Message {
        id: Id(41),
        ty: Type::Con,
        ver: kwap::msg::Version(1),
        token: kwap::msg::Token(vec![]),
        code: Code::new(0, 0),
        opts: vec![],
        payload: kwap::msg::Payload(vec![]),
    };
    let reply = kwap::server::reply_to(ping, Id(9));
    assert_eq!(reply.ty, Type::Reset);
    assert_eq!(reply.code, Code { class: 0, detail: 0 });
    assert_eq!(reply.id, Id(41));
    assert_eq!(reply.try_into_bytes().unwrap(), vec![0x70, 0, 0, 41]);
}

#[test]
fn set_option_appends() {
    let req = Req::get("0.0.0.0", 1, "", Id(1));
    let mut resp = RespCore::for_request(req, Id(2));
    assert_eq!(resp.set_option(5, vec![5]), None);
    assert_eq!(resp.set_option(3, vec![3]), None);
    assert_eq!(resp.opts, Some(vec![(5, vec![5]), (3, vec![3])]));
    let m = resp.into_message();
    assert_eq!(m.opts, vec![Opt { delta: 3, value: vec![3] }, Opt { delta: 2, value: vec![5] }]);
}

#[test]
fn server_non_confirmable_empty_not_found() {
    let msg = kwap::msg::Message {
        id: Id(41),
        ty: Type::Non,
        ver: kwap::msg::Version(1),
        token: kwap::msg::Token(vec![]),
        code: Code::new(0, 0),
        opts: vec![],
        payload: kwap::msg::Payload(vec![]),
    };
    let reply = kwap::server::reply_to(msg, Id(9));
    assert_eq!(reply.code, Code { class: 4, detail: 4 });
    assert_eq!(reply.id, Id(9));
}
