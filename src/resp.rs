use vstd::prelude::*;
use vstd::utf8::{encode_utf8, valid_utf8};
use crate::msg::{Code, Id, Message, MessageView, Payload, Type};
use crate::opts::{NumberedView, arrange, arrange_opts, normalize, normalize_opts, numbered_views};
use crate::req::{Req, with_opts};

verus! {

/// The response that a request with header `req` gets: an acknowledgement with the request's
/// id where the request is confirmable, else the request's type with the id `fresh`; the
/// request's token, code 2.05 Content, no options and no payload.
pub open spec fn response_to(req: MessageView, fresh: u16) -> MessageView {
    MessageView {
        ver: 1,
        ty: if req.ty == Type::Con {
            Type::Ack
        } else {
            req.ty
        },
        code: Code { class: 2, detail: 5 },
        id: if req.ty == Type::Con {
            req.id
        } else {
            fresh
        },
        token: req.token,
        opts: seq![],
        payload: seq![],
    }
}

/// A response to a confirmable request acknowledges it under its id and echoes its token.
pub proof fn lemma_response_to_con(req: MessageView, fresh: u16)
    requires
        req.ty == Type::Con,
    ensures
        response_to(req, fresh).id == req.id,
        response_to(req, fresh).ty == Type::Ack,
        response_to(req, fresh).token == req.token,
{
}

/// A response to any other request keeps its type and, given a fresh id that differs from the
/// request's, carries an id of its own.
pub proof fn lemma_response_to_other(req: MessageView, fresh: u16)
    requires
        req.ty != Type::Con,
        fresh != req.id,
    ensures
        response_to(req, fresh).id != req.id,
        response_to(req, fresh).ty == req.ty,
        response_to(req, fresh).token == req.token,
{
}

/// A response: a message, and the options set on it by absolute number, if any were set.
#[derive(Clone, Debug)]
pub struct RespCore {
    pub msg: Message,
    pub opts: Option<Vec<(u32, Vec<u8>)>>,
}

/// A response backed by heap collections.
#[derive(Clone, Debug)]
pub struct Resp(pub RespCore);

/// Relies on `String::from_utf8`: it succeeds exactly on valid UTF-8, keeping the bytes; its
/// error's `into_bytes` hands the bytes back.
#[verifier::external_body]
fn string_from_utf8(b: Vec<u8>) -> (r: Result<String, Vec<u8>>)
    ensures
        r is Ok <==> valid_utf8(b@),
        r matches Ok(s) ==> encode_utf8(s@) == b@,
        r matches Err(v) ==> v@ == b@,
{
    String::from_utf8(b).map_err(|e| e.into_bytes())
}

impl RespCore {
    /// The options set so far by absolute number.
    pub open spec fn opts_view(&self) -> Seq<NumberedView> {
        match self.opts {
            Some(v) => numbered_views(v@),
            None => seq![],
        }
    }

    /// What the response is on the wire: its message, with the options set on it in wire form
    /// where any were set.
    pub open spec fn message_view(&self) -> MessageView {
        match self.opts {
            Some(v) => with_opts(self.msg@, normalize(arrange(numbered_views(v@)))),
            None => self.msg@,
        }
    }

    /// The response to `req`; `fresh` is its id where `req` is not confirmable.
    pub fn for_request(req: Req, fresh: Id) -> (r: RespCore)
        ensures
            r.opts is None,
            r.msg@ == response_to(req.msg@, fresh.0),
    {
        let con = match req.msg.ty {
            Type::Con => true,
            _ => false,
        };
        let msg = Message {
            ty: if con {
                Type::Ack
            } else {
                req.msg.ty
            },
            id: if con {
                req.msg.id
            } else {
                fresh
            },
            opts: Vec::new(),
            code: Code { class: 2, detail: 5 },
            ver: crate::msg::Version(1),
            payload: Payload(Vec::new()),
            token: req.msg.token,
        };
        assert(msg@.opts =~= seq![]);
        assert(msg@.payload =~= seq![]);
        RespCore { msg, opts: None }
    }

    /// A response that carries a message as it was received.
    pub fn from_message(msg: Message) -> (r: RespCore)
        ensures
            r.opts is None,
            r.msg == msg,
    {
        RespCore { msg, opts: None }
    }

    /// The payload's bytes.
    pub fn payload(&self) -> (r: &[u8])
        ensures
            r@ == self.msg.payload.0@,
    {
        self.msg.payload.0.as_slice()
    }

    /// The payload as text, where it is valid UTF-8; else the payload's bytes.
    pub fn payload_string(&self) -> (r: Result<String, Vec<u8>>)
        ensures
            r is Ok <==> valid_utf8(self.msg.payload.0@),
            r matches Ok(s) ==> encode_utf8(s@) == self.msg.payload.0@,
            r matches Err(v) ==> v@ == self.msg.payload.0@,
    {
        string_from_utf8(self.msg.payload.0.clone())
    }

    /// Changes the response code.
    pub fn set_code(&mut self, code: Code)
        ensures
            final(self).msg@ == (MessageView { code, ..old(self).msg@ }),
            final(self).opts == old(self).opts,
    {
        self.msg.code = code;
    }

    /// Adds an option by absolute number after those set before; repeated numbers are kept.
    /// The heap-backed list always has room, so nothing is handed back.
    pub fn set_option(&mut self, number: u32, value: Vec<u8>) -> (r: Option<(u32, Vec<u8>)>)
        ensures
            r is None,
            final(self).msg == old(self).msg,
            final(self).opts is Some,
            final(self).opts_view() == old(self).opts_view().push((number as nat, value@)),
    {
        let ghost x = (number as nat, value@);
        let mut opts = match self.opts.take() {
            Some(v) => v,
            None => Vec::new(),
        };
        proof {
            if old(self).opts is None {
                assert(numbered_views(opts@) =~= Seq::<NumberedView>::empty());
            }
        }
        let ghost before = opts@;
        opts.push((number, value));
        assert(numbered_views(opts@) =~= numbered_views(before).push(x));
        self.opts = Some(opts);
        None
    }

    /// Replaces the payload.
    pub fn set_payload(&mut self, payload: Vec<u8>)
        ensures
            final(self).msg@ == (MessageView { payload: payload@, ..old(self).msg@ }),
            final(self).opts == old(self).opts,
    {
        self.msg.payload = Payload(payload);
    }

    /// The message to send: the options set on the response, if any, sorted stably by number,
    /// replace the message's in wire form.
    pub fn into_message(self) -> (m: Message)
        ensures
            m@ == self.message_view(),
    {
        let RespCore { msg, opts } = self;
        match opts {
            Some(v) => {
                proof {
                    crate::opts::lemma_normalize(numbered_views(v@));
                }
                let o = normalize_opts(&arrange_opts(&v));
                let mut m = msg;
                m.opts = o;
                m
            },
            None => msg,
        }
    }
}

impl Resp {
    /// The response to `req`; `fresh` is its id where `req` is not confirmable.
    pub fn for_request(req: Req, fresh: Id) -> (r: Resp)
        ensures
            r.0.opts is None,
            r.0.msg@ == response_to(req.msg@, fresh.0),
    {
        Resp(RespCore::for_request(req, fresh))
    }
}

} // verus!
