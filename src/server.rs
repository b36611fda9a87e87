use vstd::prelude::*;
use crate::msg::{Code, Id, Message, MessageView, OptView, Payload, Type};
use crate::req::{Req, URI_PATH};
use crate::resp::{RespCore, response_to};

verus! {

/// The value of the first option numbered `n`, reading the deltas from absolute number `base`.
pub open spec fn option_value(opts: Seq<OptView>, n: nat, base: nat) -> Option<Seq<u8>>
    decreases opts.len(),
{
    if opts.len() == 0 {
        None
    } else if base + opts[0].delta == n {
        Some(opts[0].value)
    } else if base + opts[0].delta > n {
        None
    } else {
        option_value(opts.drop_first(), n, base + opts[0].delta)
    }
}

pub open spec fn hello_path() -> Seq<u8> {
    seq![104u8, 101, 108, 108, 111]
}

pub open spec fn hello_payload() -> Seq<u8> {
    seq![104u8, 101, 108, 108, 111, 44, 32, 119, 111, 114, 108, 100, 33]
}

/// What the example server answers: `GET /hello` gets 2.05 with "hello, world!"; a
/// confirmable Empty message with no options or payload (a ping) gets an Empty reset with its
/// id; anything else 4.04.
pub open spec fn reply_view(req: MessageView, fresh: u16) -> MessageView {
    let base = response_to(req, fresh);
    if req.code == (Code { class: 0, detail: 1 }) && option_value(req.opts, URI_PATH as nat, 0)
        == Some(hello_path()) {
        MessageView { payload: hello_payload(), ..base }
    } else if req.code == (Code { class: 0, detail: 0 }) && req.ty == Type::Con && req.opts.len()
        == 0 && req.payload.len() == 0 {
        MessageView { code: Code { class: 0, detail: 0 }, ty: Type::Reset, ..base }
    } else {
        MessageView { code: Code { class: 4, detail: 4 }, ..base }
    }
}

fn first_path(m: &Message) -> (r: Option<&Vec<u8>>)
    ensures
        match r {
            Some(v) => option_value(m@.opts, URI_PATH as nat, 0) == Some(v@),
            None => option_value(m@.opts, URI_PATH as nat, 0) is None,
        },
{
    let ghost opts = m@.opts;
    let mut base: u64 = 0;
    let mut i: usize = 0;
    assert(opts.skip(0) =~= opts);
    while i < m.opts.len()
        invariant
            opts == m@.opts,
            i <= opts.len(),
            base <= URI_PATH,
            option_value(opts, URI_PATH as nat, 0) == option_value(
                opts.skip(i as int),
                URI_PATH as nat,
                base as nat,
            ),
        decreases opts.len() - i,
    {
        assert(opts.skip(i as int)[0] == opts[i as int]);
        assert(opts.skip(i as int).drop_first() =~= opts.skip(i + 1 as int));
        let num = base + m.opts[i].delta as u64;
        if num == URI_PATH as u64 {
            return Some(&m.opts[i].value);
        }
        if num > URI_PATH as u64 {
            return None;
        }
        base = num;
        i = i + 1;
    }
    None
}

fn bytes_eq(a: &Vec<u8>, b: &Vec<u8>) -> (r: bool)
    ensures
        r == (a@ == b@),
{
    if a.len() != b.len() {
        return false;
    }
    let mut i: usize = 0;
    while i < a.len()
        invariant
            a@.len() == b@.len(),
            i <= a@.len(),
            a@.take(i as int) == b@.take(i as int),
        decreases a@.len() - i,
    {
        if a[i] != b[i] {
            assert(a@.take(i + 1 as int)[i as int] != b@.take(i + 1 as int)[i as int]);
            return false;
        }
        assert(a@.take(i + 1 as int) =~= a@.take(i as int).push(a@[i as int]));
        assert(b@.take(i + 1 as int) =~= b@.take(i as int).push(b@[i as int]));
        i = i + 1;
    }
    assert(a@.take(i as int) =~= a@);
    assert(b@.take(i as int) =~= b@);
    true
}

/// The example server's answer to a received message; `fresh` is its id where the message
/// is not confirmable.
pub fn reply_to(req: Message, fresh: Id) -> (r: Message)
    ensures
        r@ == reply_view(req@, fresh.0),
{
    let hello: Vec<u8> = vec![104u8, 101, 108, 108, 111];
    assert(hello@ =~= hello_path());
    let is_get = req.code.class == 0 && req.code.detail == 1;
    let is_hello = match first_path(&req) {
        Some(p) => bytes_eq(p, &hello),
        None => false,
    };
    let is_con = match req.ty {
        Type::Con => true,
        _ => false,
    };
    let is_ping = req.code.class == 0 && req.code.detail == 0 && is_con && req.opts.len() == 0
        && req.payload.0.len() == 0;
    let mut resp = RespCore::for_request(Req { msg: req, opts: Vec::new() }, fresh);
    if is_get && is_hello {
        let payload: Vec<u8> = vec![104u8, 101, 108, 108, 111, 44, 32, 119, 111, 114, 108, 100, 33];
        assert(payload@ =~= hello_payload());
        resp.msg.payload = Payload(payload);
    } else if is_ping {
        resp.msg.code = Code { class: 0, detail: 0 };
        resp.msg.ty = Type::Reset;
    } else {
        resp.msg.code = Code { class: 4, detail: 4 };
    }
    resp.msg
}

} // verus!
