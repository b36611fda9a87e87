use vstd::prelude::*;
use vstd::string::StringSliceAdditionalSpecFns;
use vstd::utf8::valid_utf8;
use crate::event::{Event, Handler, MatchEvent, kind_of, listeners_for, rank};
use crate::msg::{
    parse,
    Code,
    Id,
    Message,
    MessageToBytesError,
    MessageView,
    Payload,
    Token,
    Type,
    Version,
    header_ok,
    opts_fit,
    serialize,
};
use crate::opts::{arrange, normalize};
use crate::req::{Req, URI_HOST, URI_PORT, first_with, with_opts};
use crate::resp::{Resp, RespCore};
use crate::slots::{Slots, has_room, keeps, stored, taken};

verus! {

/// Relies on nb's `Error<E>`: a public enum of `Other(E)` and `WouldBlock`, read as declared.
#[verifier::external_type_specification]
#[verifier::reject_recursive_types(E)]
pub struct ExNbError<E>(nb::Error<E>);

/// How many listeners a runtime holds.
pub const LISTENERS: usize = 32;

/// The largest datagram that the runtime sends.
pub const DGRAM_CAP: usize = 1152;

/// A non-blocking datagram socket that the runtime sends through and polls.
pub trait Socket {
    type Error;

    /// Sets the peer that `send` goes to.
    fn connect(&mut self, ip: [u8; 4], port: u16) -> Result<(), Self::Error>;

    /// Sends one datagram, or says that the socket is not ready.
    fn send(&mut self, bytes: &[u8]) -> Result<(), nb::Error<Self::Error>>;

    /// A datagram, where one has arrived.
    fn poll(&mut self) -> Result<Option<Vec<u8>>, Self::Error>;
}

/// Why a message could not be sent.
#[derive(Debug)]
pub enum SendError<E> {
    /// The socket refused to connect or to send.
    SockError(E),
    /// The message could not be written.
    ToBytes(MessageToBytesError),
    /// Uri-Host is not UTF-8.
    HostInvalidUtf8,
    /// Uri-Host is not an IPv4 address.
    HostInvalidIpAddress,
    /// The socket was not ready to send; the caller may try again.
    WouldBlock,
}

/// What no_std_net reads the text as: the four octets of an IPv4 address, if it is one.
pub uninterp spec fn ipv4_of(s: Seq<u8>) -> Option<Seq<u8>>;

/// Relies on no_std_net's `Ipv4Addr::from_str` (and `octets`): the address the text denotes.
#[verifier::external_body]
fn parse_ipv4(s: &str) -> (r: Option<[u8; 4]>)
    ensures
        r is Some <==> ipv4_of(s.spec_bytes()) is Some,
        r matches Some(a) ==> ipv4_of(s.spec_bytes()) == Some(a@),
{
    <no_std_net::Ipv4Addr as core::str::FromStr>::from_str(s).ok().map(|a| a.octets())
}

/// Relies on `core::str::from_utf8`: it succeeds exactly on valid UTF-8, viewing the same bytes.
#[verifier::external_body]
fn str_from_utf8(b: &[u8]) -> (r: Option<&str>)
    ensures
        r is Some <==> valid_utf8(b@),
        r matches Some(s) ==> s.spec_bytes() == b@,
{
    core::str::from_utf8(b).ok()
}

/// The message that a request puts on the wire.
pub open spec fn request_message(req: Req) -> MessageView {
    with_opts(req.msg@, normalize(arrange(req.opts_view())))
}

/// Why a poll failed.
#[derive(Debug)]
pub enum PollError<E> {
    /// The socket failed.
    SockError(E),
    /// A received message was dropped: its store had no free slot even after compaction.
    StorageFull,
}

/// A received message as the stores hold it.
pub open spec fn as_resp(m: Message) -> Resp {
    Resp(RespCore { msg: m, opts: None })
}

/// Codes of class 2, 4 or 5 are responses.
pub open spec fn is_response_code(c: Code) -> bool {
    c.class == 2 || c.class == 4 || c.class == 5
}

/// Code 0.00 marks an Empty message.
pub open spec fn is_empty_code(c: Code) -> bool {
    c.class == 0 && c.detail == 0
}

/// Stores before (`rs`, `es`, whether an entry was dropped `of`) and after a received message
/// went through the default listeners: a response is stored with the responses, an Empty
/// message with the Empty messages, anything else is left alone.
pub open spec fn msg_effect(
    m: Message,
    rs: Seq<Option<Resp>>,
    es: Seq<Option<Resp>>,
    of: bool,
    rs2: Seq<Option<Resp>>,
    es2: Seq<Option<Resp>>,
    of2: bool,
) -> bool {
    if is_response_code(m.code) {
        rs2 == stored(rs, as_resp(m)) && es2 == es && of2 == (of || !has_room(rs))
    } else if is_empty_code(m.code) {
        rs2 == rs && es2 == stored(es, as_resp(m)) && of2 == (of || !has_room(es))
    } else {
        rs2 == rs && es2 == es && of2 == of
    }
}

/// The same for a received datagram: what it parses to goes through the default listeners;
/// a datagram that does not parse changes nothing.
pub open spec fn dgram_effect(
    b: Seq<u8>,
    rs: Seq<Option<Resp>>,
    es: Seq<Option<Resp>>,
    of: bool,
    rs2: Seq<Option<Resp>>,
    es2: Seq<Option<Resp>>,
    of2: bool,
) -> bool {
    match parse(b) {
        Ok(v) => exists|m: Message| m@ == v && msg_effect(m, rs, es, of, rs2, es2, of2),
        Err(_) => rs2 == rs && es2 == es && of2 == of,
    }
}

/// The same for any event fired at the default listeners.
pub open spec fn fire_effect(
    ev: Event,
    rs: Seq<Option<Resp>>,
    es: Seq<Option<Resp>>,
    of: bool,
    rs2: Seq<Option<Resp>>,
    es2: Seq<Option<Resp>>,
    of2: bool,
) -> bool {
    match ev {
        Event::RecvDgram(Some(b)) => dgram_effect(b@, rs, es, of, rs2, es2, of2),
        Event::RecvMsg(Some(m)) => msg_effect(m, rs, es, of, rs2, es2, of2),
        Event::RecvResp(Some(x)) => rs2 == stored(rs, x) && es2 == es && of2 == (of || !has_room(
            rs,
        )),
        _ => rs2 == rs && es2 == es && of2 == of,
    }
}

/// One default behaviour run on an event: the event it leaves (`r`) and the stores.
pub open spec fn handled(
    h: Handler,
    ev: Event,
    r: Event,
    rs: Seq<Option<Resp>>,
    es: Seq<Option<Resp>>,
    of: bool,
    rs2: Seq<Option<Resp>>,
    es2: Seq<Option<Resp>>,
    of2: bool,
) -> bool {
    match (h, ev) {
        (Handler::ParseMessage, Event::RecvDgram(Some(b))) => r == Event::RecvDgram(None)
            && dgram_effect(b@, rs, es, of, rs2, es2, of2),
        (Handler::RespFromMsg, Event::RecvMsg(Some(m))) => if is_response_code(m.code) {
            r == Event::RecvMsg(None) && msg_effect(m, rs, es, of, rs2, es2, of2)
        } else {
            r == ev && rs2 == rs && es2 == es && of2 == of
        },
        (Handler::StoreEmpty, Event::RecvMsg(Some(m))) => if is_empty_code(m.code) {
            msg_effect(m, rs, es, of, rs2, es2, of2)
        } else {
            r == ev && rs2 == rs && es2 == es && of2 == of
        },
        (Handler::StoreResp, Event::RecvResp(Some(x))) => rs2 == stored(rs, x) && es2 == es && of2
            == (of || !has_room(rs)),
        _ => r == ev && rs2 == rs && es2 == es && of2 == of,
    }
}

/// How far the default listeners have got with `event` after the first `i` of them.
pub open spec fn fire_progress(
    i: int,
    event: Event,
    ev: Event,
    rs: Seq<Option<Resp>>,
    es: Seq<Option<Resp>>,
    of: bool,
    rs2: Seq<Option<Resp>>,
    es2: Seq<Option<Resp>>,
    of2: bool,
) -> bool {
    match event {
        Event::RecvDgram(Some(b)) => if i == 0 {
            ev == event && rs2 == rs && es2 == es && of2 == of
        } else {
            dgram_effect(b@, rs, es, of, rs2, es2, of2)
        },
        Event::RecvMsg(Some(m)) => if i <= 1 {
            ev == event && rs2 == rs && es2 == es && of2 == of
        } else if i == 2 {
            if is_response_code(m.code) {
                ev == Event::RecvMsg(None) && msg_effect(m, rs, es, of, rs2, es2, of2)
            } else {
                ev == event && rs2 == rs && es2 == es && of2 == of
            }
        } else {
            msg_effect(m, rs, es, of, rs2, es2, of2)
        },
        Event::RecvResp(Some(x)) => if i <= 3 {
            ev == event && rs2 == rs && es2 == es && of2 == of
        } else {
            fire_effect(event, rs, es, of, rs2, es2, of2)
        },
        _ => ev == event && rs2 == rs && es2 == es && of2 == of,
    }
}

/// What a poll returns for the response store after the datagram (if any) went through the
/// default listeners: `StorageFull` where an entry was dropped, else the first response with
/// the id, or `WouldBlock`.
pub open spec fn poll_outcome<E>(
    of: bool,
    rs: Seq<Option<Resp>>,
    id: u16,
    r: Result<Resp, nb::Error<PollError<E>>>,
) -> bool {
    if of {
        r matches Err(nb::Error::Other(PollError::StorageFull))
    } else {
        match taken(rs, id).0 {
            Some(x) => r matches Ok(y) && y == x,
            None => r matches Err(nb::Error::WouldBlock),
        }
    }
}

/// The same for a poll of the Empty messages, with the Empty store after it (`es2`).
pub open spec fn ping_outcome<E>(
    of: bool,
    es: Seq<Option<Resp>>,
    id: u16,
    r: Result<Message, nb::Error<PollError<E>>>,
    es2: Seq<Option<Resp>>,
) -> bool {
    if of {
        (r matches Err(nb::Error::Other(PollError::StorageFull))) && es2 == es
    } else {
        es2 == taken(es, id).1 && match taken(es, id).0 {
            Some(x) => r matches Ok(y) && y == x.0.msg,
            None => r matches Err(nb::Error::WouldBlock),
        }
    }
}

/// Every message in the store has code 0.00.
pub open spec fn only_empty(s: Seq<Option<Resp>>) -> bool {
    forall|j: int| 0 <= j < s.len() ==> (#[trigger] s[j] matches Some(x) ==> is_empty_code(x.0.msg.code))
}

/// A runtime: a socket, listeners run in the order they were added, and the received
/// responses and Empty messages that wait to be polled for.
pub struct Core<Sock: Socket> {
    sock: Sock,
    ears: Vec<(MatchEvent, Handler)>,
    emptys: Slots,
    resps: Slots,
    next_id: u16,
    overflow: bool,
}

impl<Sock: Socket> Core<Sock> {
    pub closed spec fn inv(&self) -> bool {
        self.ears@.len() <= LISTENERS && self.emptys.wf() && self.resps.wf() && only_empty(
            self.emptys.view(),
        )
    }

    /// The listeners, in the order they were added.
    pub closed spec fn ears(&self) -> Seq<(MatchEvent, Handler)> {
        self.ears@
    }

    /// The store of received responses.
    pub closed spec fn resps(&self) -> Seq<Option<Resp>> {
        self.resps.view()
    }

    /// The store of received Empty messages.
    pub closed spec fn emptys(&self) -> Seq<Option<Resp>> {
        self.emptys.view()
    }

    /// The id that the next fresh message gets.
    pub closed spec fn next_id(&self) -> u16 {
        self.next_id
    }

    /// Whether a received message was dropped for want of room since the last poll began.
    pub closed spec fn overflowed(&self) -> bool {
        self.overflow
    }

    /// The socket.
    pub closed spec fn socket(&self) -> Sock {
        self.sock
    }

    /// A well-formed runtime holds at most `LISTENERS` listeners and `SLOTS` slots per store.
    pub proof fn lemma_bounds(&self)
        requires
            self.inv(),
        ensures
            self.ears().len() <= LISTENERS,
            self.resps().len() <= crate::slots::SLOTS,
            self.emptys().len() <= crate::slots::SLOTS,
    {
        self.resps.lemma_bound();
        self.emptys.lemma_bound();
    }

    /// The socket that the runtime sends through and polls.
    pub fn sock(&self) -> (r: &Sock)
        ensures
            *r == self.socket(),
    {
        &self.sock
    }

    /// A runtime that does nothing with what it receives until listeners are added.
    pub fn behaviorless(sock: Sock) -> (r: Core<Sock>)
        ensures
            r.inv(),
            r.socket() == sock,
            r.ears() == Seq::<(MatchEvent, Handler)>::empty(),
            r.resps() == Seq::<Option<Resp>>::empty(),
            r.emptys() == Seq::<Option<Resp>>::empty(),
            r.next_id() == 0,
            !r.overflowed(),
    {
        Core {
            sock,
            ears: Vec::new(),
            emptys: Slots::new(),
            resps: Slots::new(),
            next_id: 0,
            overflow: false,
        }
    }

    /// A runtime with the default listeners (see `bootstrap`).
    pub fn new(sock: Sock) -> (r: Core<Sock>)
        ensures
            r.inv(),
            r.socket() == sock,
            r.ears() == default_ears(),
            r.resps() == Seq::<Option<Resp>>::empty(),
            r.emptys() == Seq::<Option<Resp>>::empty(),
            r.next_id() == 0,
            !r.overflowed(),
    {
        let mut me = Self::behaviorless(sock);
        me.bootstrap();
        assert(me.ears() =~= default_ears());
        me
    }

    /// Adds the default listeners: datagrams are parsed, messages with a response code
    /// become responses, Empty messages and responses are stored to be polled for.
    pub fn bootstrap(&mut self)
        requires
            old(self).inv(),
            old(self).ears().len() + 4 <= LISTENERS,
        ensures
            final(self).inv(),
            final(self).ears() == old(self).ears() + default_ears(),
            final(self).socket() == old(self).socket(),
            final(self).resps() == old(self).resps(),
            final(self).emptys() == old(self).emptys(),
            final(self).next_id() == old(self).next_id(),
            final(self).overflowed() == old(self).overflowed(),
    {
        self.listen(MatchEvent::RecvDgram, Handler::ParseMessage);
        self.listen(MatchEvent::RecvMsg, Handler::RespFromMsg);
        self.listen(MatchEvent::RecvMsg, Handler::StoreEmpty);
        self.listen(MatchEvent::RecvResp, Handler::StoreResp);
        assert(self.ears() =~= old(self).ears() + default_ears());
    }

    /// Adds a listener after the others.
    pub fn listen(&mut self, mat: MatchEvent, handler: Handler)
        requires
            old(self).inv(),
            old(self).ears().len() < LISTENERS,
        ensures
            final(self).inv(),
            final(self).ears() == old(self).ears().push((mat, handler)),
            final(self).socket() == old(self).socket(),
            final(self).resps() == old(self).resps(),
            final(self).emptys() == old(self).emptys(),
            final(self).next_id() == old(self).next_id(),
            final(self).overflowed() == old(self).overflowed(),
    {
        self.ears.push((mat, handler));
    }

    /// A fresh message id: ids are handed out in turn, wrapping at 2^16.
    pub fn fresh_id(&mut self) -> (r: Id)
        ensures
            r.0 == old(self).next_id(),
            final(self).next_id() == old(self).next_id().wrapping_add(1),
            final(self).inv() == old(self).inv(),
            final(self).socket() == old(self).socket(),
            final(self).ears() == old(self).ears(),
            final(self).resps() == old(self).resps(),
            final(self).emptys() == old(self).emptys(),
            final(self).overflowed() == old(self).overflowed(),
    {
        let id = self.next_id;
        self.next_id = self.next_id.wrapping_add(1);
        Id(id)
    }

    /// Stores the response of a `RecvResp` event, taking it out of the event. Where the store
    /// has no room, the response stays in the event. Other events are left alone.
    pub fn store_resp(&mut self, ev: &mut Event)
        requires
            old(self).inv(),
        ensures
            final(self).inv(),
            final(self).socket() == old(self).socket(),
            final(self).ears() == old(self).ears(),
            final(self).emptys() == old(self).emptys(),
            final(self).next_id() == old(self).next_id(),
            final(self).overflowed() == old(self).overflowed(),
            keeps(old(self).resps(), final(self).resps()),
            match *old(ev) {
                Event::RecvResp(Some(r)) => final(self).resps() == stored(old(self).resps(), r) && (
                if has_room(old(self).resps()) {
                    *final(ev) == Event::RecvResp(None)
                } else {
                    *final(ev) == *old(ev)
                }),
                _ => final(self).resps() == old(self).resps() && *final(ev) == *old(ev),
            },
    {
        let mut taken_ev = Event::RecvResp(None);
        std::mem::swap(ev, &mut taken_ev);
        match taken_ev {
            Event::RecvResp(Some(r)) => {
                proof {
                    crate::slots::lemma_stored_keeps(self.resps.view(), r);
                }
                match self.resps.store(r) {
                    None => {},
                    Some(back) => {
                        *ev = Event::RecvResp(Some(back));
                    },
                }
            },
            other => {
                *ev = other;
            },
        }
    }

    /// Stores an Empty message (code 0.00) of a `RecvMsg` event, taking it out of the event.
    /// Where the store has no room, the message stays in the event. Other events are left
    /// alone.
    pub fn store_empty(&mut self, ev: &mut Event)
        requires
            old(self).inv(),
        ensures
            final(self).inv(),
            final(self).socket() == old(self).socket(),
            final(self).ears() == old(self).ears(),
            final(self).resps() == old(self).resps(),
            final(self).next_id() == old(self).next_id(),
            final(self).overflowed() == old(self).overflowed(),
            match *old(ev) {
                Event::RecvMsg(Some(m)) => if is_empty_code(m.code) {
                    final(self).emptys() == stored(old(self).emptys(), as_resp(m)) && if has_room(
                        old(self).emptys(),
                    ) {
                        *final(ev) == Event::RecvMsg(None)
                    } else {
                        *final(ev) == *old(ev)
                    }
                } else {
                    final(self).emptys() == old(self).emptys() && *final(ev) == *old(ev)
                },
                _ => final(self).emptys() == old(self).emptys() && *final(ev) == *old(ev),
            },
    {
        let mut taken_ev = Event::RecvMsg(None);
        std::mem::swap(ev, &mut taken_ev);
        match taken_ev {
            Event::RecvMsg(Some(m)) => {
                if m.code.class == 0 && m.code.detail == 0 {
                    proof {
                        crate::slots::lemma_stored_from(self.emptys.view(), as_resp(m));
                    }
                    match self.emptys.store(Resp(RespCore::from_message(m))) {
                        None => {},
                        Some(back) => {
                            *ev = Event::RecvMsg(Some(back.0.msg));
                        },
                    }
                } else {
                    *ev = Event::RecvMsg(Some(m));
                }
            },
            other => {
                *ev = other;
            },
        }
    }

    /// Runs one listener's behaviour on an event, and hands the event back. A store that
    /// has no room for what the behaviour stores marks the runtime as having dropped an entry.
    fn run(&mut self, handler: Handler, ev: Event) -> (r: Event)
        requires
            old(self).inv(),
        ensures
            final(self).inv(),
            final(self).socket() == old(self).socket(),
            final(self).ears() == old(self).ears(),
            final(self).next_id() == old(self).next_id(),
            kind_of(r) == kind_of(ev),
            keeps(old(self).resps(), final(self).resps()),
            old(self).ears() == default_ears() ==> handled(
                handler,
                ev,
                r,
                old(self).resps(),
                old(self).emptys(),
                old(self).overflowed(),
                final(self).resps(),
                final(self).emptys(),
                final(self).overflowed(),
            ),
        decreases rank(ev), 0nat,
    {
        let mut ev = ev;
        match handler {
            Handler::ParseMessage => {
                if let Event::RecvDgram(Some(bytes)) = ev {
                    ev = Event::RecvDgram(None);
                    match Message::try_from_bytes(bytes.as_slice()) {
                        Ok(m) => {
                            self.fire(Event::RecvMsg(Some(m)));
                        },
                        Err(e) => {
                            self.fire(Event::MsgParseError(e));
                        },
                    }
                }
            },
            Handler::RespFromMsg => {
                if let Event::RecvMsg(Some(m)) = ev {
                    let class = m.code.class;
                    if class == 2 || class == 4 || class == 5 {
                        ev = Event::RecvMsg(None);
                        self.fire(Event::RecvResp(Some(Resp(RespCore::from_message(m)))));
                    } else {
                        ev = Event::RecvMsg(Some(m));
                    }
                }
            },
            Handler::StoreEmpty => {
                self.store_empty(&mut ev);
                if let Event::RecvMsg(Some(m)) = &ev {
                    if m.code.class == 0 && m.code.detail == 0 {
                        self.overflow = true;
                    }
                }
            },
            Handler::StoreResp => {
                self.store_resp(&mut ev);
                if let Event::RecvResp(Some(_)) = ev {
                    self.overflow = true;
                }
            },
            Handler::Notify => {},
        }
        ev
    }

    /// Runs each listener that observes the event, in the order they were added, each on the
    /// event as the ones before left it. Returns the positions of the listeners that ran.
    /// With the default listeners, the stores change as `fire_effect` says.
    pub fn fire(&mut self, event: Event) -> (heard: Vec<usize>)
        requires
            old(self).inv(),
        ensures
            final(self).inv(),
            final(self).socket() == old(self).socket(),
            final(self).ears() == old(self).ears(),
            final(self).next_id() == old(self).next_id(),
            heard@ == listeners_for(old(self).ears(), kind_of(event)),
            keeps(old(self).resps(), final(self).resps()),
            old(self).ears() == default_ears() ==> fire_effect(
                event,
                old(self).resps(),
                old(self).emptys(),
                old(self).overflowed(),
                final(self).resps(),
                final(self).emptys(),
                final(self).overflowed(),
            ),
        decreases rank(event), 1nat,
    {
        let ghost ears = self.ears@;
        let ghost k = kind_of(event);
        let ghost rs = self.resps();
        let ghost es = self.emptys();
        let ghost of = self.overflow;
        let mut ev = event;
        let mut heard: Vec<usize> = Vec::new();
        let mut i: usize = 0;
        assert(ears.take(0) =~= Seq::<(MatchEvent, Handler)>::empty());
        while i < self.ears.len()
            invariant
                self.inv(),
                self.ears@ == ears,
                self.sock == old(self).sock,
                self.next_id == old(self).next_id,
                rs == old(self).resps(),
                es == old(self).emptys(),
                keeps(rs, self.resps()),
                of == old(self).overflow,
                i <= ears.len(),
                kind_of(ev) == k,
                rank(ev) == rank(event),
                heard@ == listeners_for(ears.take(i as int), k),
                ears == default_ears() ==> fire_progress(
                    i as int,
                    event,
                    ev,
                    rs,
                    es,
                    of,
                    self.resps(),
                    self.emptys(),
                    self.overflow,
                ),
            decreases ears.len() - i,
        {
            let (mat, handler) = self.ears[i];
            let ghost t = ears.take(i + 1 as int);
            assert(t.drop_last() =~= ears.take(i as int));
            assert(t.last() == ears[i as int]);
            if mat.matches(&ev) {
                ev = self.run(handler, ev);
                heard.push(i);
            }
            i = i + 1;
        }
        assert(ears.take(i as int) =~= ears);
        heard
    }

    /// Takes out the first stored response with this id.
    pub fn try_get_resp(&mut self, id: Id) -> (r: Result<Resp, nb::Error<Sock::Error>>)
        requires
            old(self).inv(),
        ensures
            final(self).inv(),
            final(self).socket() == old(self).socket(),
            final(self).ears() == old(self).ears(),
            final(self).emptys() == old(self).emptys(),
            final(self).next_id() == old(self).next_id(),
            final(self).overflowed() == old(self).overflowed(),
            final(self).resps() == taken(old(self).resps(), id.0).1,
            match taken(old(self).resps(), id.0).0 {
                Some(x) => r matches Ok(y) && y == x,
                None => r matches Err(nb::Error::WouldBlock),
            },
    {
        match self.resps.take(id) {
            Some(x) => Ok(x),
            None => Err(nb::Error::WouldBlock),
        }
    }

    /// Takes out the first stored Empty message with this id.
    pub fn try_get_empty(&mut self, id: Id) -> (r: Result<Message, nb::Error<Sock::Error>>)
        requires
            old(self).inv(),
        ensures
            final(self).inv(),
            final(self).socket() == old(self).socket(),
            final(self).ears() == old(self).ears(),
            final(self).resps() == old(self).resps(),
            final(self).next_id() == old(self).next_id(),
            final(self).overflowed() == old(self).overflowed(),
            final(self).emptys() == taken(old(self).emptys(), id.0).1,
            r matches Ok(m) ==> is_empty_code(m.code),
            match taken(old(self).emptys(), id.0).0 {
                Some(x) => r matches Ok(y) && y == x.0.msg,
                None => r matches Err(nb::Error::WouldBlock),
            },
    {
        proof {
            crate::slots::lemma_taken_from(self.emptys.view(), id.0);
        }
        match self.emptys.take(id) {
            Some(x) => Ok(x.0.msg),
            None => Err(nb::Error::WouldBlock),
        }
    }

    /// Fires what a socket poll gave (a datagram, where one had arrived) with the dropped-entry
    /// mark cleared first.
    fn ingest(&mut self, polled: Option<Vec<u8>>)
        requires
            old(self).inv(),
        ensures
            final(self).inv(),
            final(self).socket() == old(self).socket(),
            final(self).ears() == old(self).ears(),
            final(self).next_id() == old(self).next_id(),
            keeps(old(self).resps(), final(self).resps()),
            polled is None ==> final(self).resps() == old(self).resps() && final(self).emptys()
                == old(self).emptys() && !final(self).overflowed(),
            old(self).ears() == default_ears() ==> match polled {
                Some(d) => dgram_effect(
                    d@,
                    old(self).resps(),
                    old(self).emptys(),
                    false,
                    final(self).resps(),
                    final(self).emptys(),
                    final(self).overflowed(),
                ),
                None => final(self).resps() == old(self).resps() && final(self).emptys()
                    == old(self).emptys() && !final(self).overflowed(),
            },
    {
        self.overflow = false;
        match polled {
            Some(d) => {
                self.fire(Event::RecvDgram(Some(d)));
            },
            None => {},
        }
    }

    /// The poll for a response, given what the socket's poll returned: a socket error is
    /// handed on; else the datagram, if any, is fired, and the first stored response with the
    /// id is taken out.
    pub fn poll_resp_with(
        &mut self,
        polled: Result<Option<Vec<u8>>, Sock::Error>,
        id: Id,
    ) -> (r: Result<Resp, nb::Error<PollError<Sock::Error>>>)
        requires
            old(self).inv(),
        ensures
            final(self).inv(),
            final(self).socket() == old(self).socket(),
            final(self).ears() == old(self).ears(),
            final(self).next_id() == old(self).next_id(),
            polled matches Err(e) ==> r == Err::<Resp, nb::Error<PollError<Sock::Error>>>(
                nb::Error::Other(PollError::SockError(e)),
            ),
            polled is Err ==> final(self).resps() == old(self).resps() && final(self).emptys()
                == old(self).emptys(),
            r matches Ok(x) ==> x.0.msg.id.0 == id.0,
            polled matches Ok(None) ==> poll_outcome(false, old(self).resps(), id.0, r)
                && final(self).resps() == taken(old(self).resps(), id.0).1 && final(self).emptys()
                == old(self).emptys(),
            old(self).ears() == default_ears() ==> match polled {
                Err(_) => true,
                Ok(p) => exists|rs1: Seq<Option<Resp>>, of1: bool|
                    {
                        &&& match p {
                            Some(d) => dgram_effect(
                                d@,
                                old(self).resps(),
                                old(self).emptys(),
                                false,
                                rs1,
                                final(self).emptys(),
                                of1,
                            ),
                            None => rs1 == old(self).resps() && final(self).emptys() == old(
                                self,
                            ).emptys() && !of1,
                        }
                        &&& poll_outcome(of1, rs1, id.0, r)
                        &&& final(self).resps() == if of1 {
                            rs1
                        } else {
                            taken(rs1, id.0).1
                        }
                    },
            },
    {
        match polled {
            Err(e) => Err(nb::Error::Other(PollError::SockError(e))),
            Ok(p) => {
                self.ingest(p);
                let ghost rs1 = self.resps();
                let ghost of1 = self.overflow;
                let r = if self.overflow {
                    Err(nb::Error::Other(PollError::StorageFull))
                } else {
                    proof {
                        crate::slots::lemma_taken_id(self.resps(), id.0);
                    }
                    match self.try_get_resp(id) {
                        Ok(x) => Ok(x),
                        Err(_) => Err(nb::Error::WouldBlock),
                    }
                };
                assert(poll_outcome(of1, rs1, id.0, r));
                r
            },
        }
    }

    /// The poll for an Empty message, given what the socket's poll returned: as
    /// `poll_resp_with`, but taking from the Empty messages.
    pub fn poll_ping_with(
        &mut self,
        polled: Result<Option<Vec<u8>>, Sock::Error>,
        id: Id,
    ) -> (r: Result<Message, nb::Error<PollError<Sock::Error>>>)
        requires
            old(self).inv(),
        ensures
            final(self).inv(),
            final(self).socket() == old(self).socket(),
            final(self).ears() == old(self).ears(),
            final(self).next_id() == old(self).next_id(),
            polled matches Err(e) ==> r == Err::<Message, nb::Error<PollError<Sock::Error>>>(
                nb::Error::Other(PollError::SockError(e)),
            ),
            polled is Err ==> final(self).resps() == old(self).resps() && final(self).emptys()
                == old(self).emptys(),
            r matches Ok(m) ==> m.id.0 == id.0 && is_empty_code(m.code),
            keeps(old(self).resps(), final(self).resps()),
            polled matches Ok(None) ==> ping_outcome(
                false,
                old(self).emptys(),
                id.0,
                r,
                final(self).emptys(),
            ) && final(self).resps() == old(self).resps(),
            old(self).ears() == default_ears() ==> match polled {
                Err(_) => true,
                Ok(p) => exists|es1: Seq<Option<Resp>>, of1: bool|
                    {
                        &&& match p {
                            Some(d) => dgram_effect(
                                d@,
                                old(self).resps(),
                                old(self).emptys(),
                                false,
                                final(self).resps(),
                                es1,
                                of1,
                            ),
                            None => final(self).resps() == old(self).resps() && es1 == old(
                                self,
                            ).emptys() && !of1,
                        }
                        &&& ping_outcome(of1, es1, id.0, r, final(self).emptys())
                    },
            },
    {
        match polled {
            Err(e) => Err(nb::Error::Other(PollError::SockError(e))),
            Ok(p) => {
                self.ingest(p);
                let ghost es1 = self.emptys();
                let ghost of1 = self.overflow;
                let r = if self.overflow {
                    Err(nb::Error::Other(PollError::StorageFull))
                } else {
                    proof {
                        crate::slots::lemma_taken_id(self.emptys(), id.0);
                    }
                    match self.try_get_empty(id) {
                        Ok(x) => Ok(x),
                        Err(_) => Err(nb::Error::WouldBlock),
                    }
                };
                assert(ping_outcome(of1, es1, id.0, r, self.emptys()));
                r
            },
        }
    }

    /// Polls the socket once, then takes out a stored response with this id, if there is one
    /// (see `poll_resp_with`).
    pub fn poll_resp(&mut self, id: Id) -> (r: Result<Resp, nb::Error<PollError<Sock::Error>>>)
        requires
            old(self).inv(),
        ensures
            final(self).inv(),
            final(self).ears() == old(self).ears(),
            final(self).next_id() == old(self).next_id(),
            r matches Ok(x) ==> x.0.msg.id.0 == id.0,
    {
        let polled = self.sock.poll();
        self.poll_resp_with(polled, id)
    }

    /// Polls the socket once, then takes out a stored Empty message with this id, if there is
    /// one (see `poll_ping_with`).
    pub fn poll_ping(&mut self, id: Id) -> (r: Result<Message, nb::Error<PollError<Sock::Error>>>)
        requires
            old(self).inv(),
        ensures
            final(self).inv(),
            final(self).ears() == old(self).ears(),
            final(self).next_id() == old(self).next_id(),
            r matches Ok(m) ==> m.id.0 == id.0 && is_empty_code(m.code),
            keeps(old(self).resps(), final(self).resps()),
    {
        let polled = self.sock.poll();
        self.poll_ping_with(polled, id)
    }

    /// Sends bytes to `ip:port`; `ip` must be an IPv4 address.
    pub fn send(&mut self, ip: &str, port: u16, bytes: &[u8]) -> (r: Result<(), SendError<Sock::Error>>)
        requires
            old(self).inv(),
        ensures
            final(self).inv(),
            final(self).ears() == old(self).ears(),
            final(self).resps() == old(self).resps(),
            final(self).emptys() == old(self).emptys(),
            final(self).next_id() == old(self).next_id(),
            ipv4_of(ip.spec_bytes()) is None <==> r matches Err(SendError::HostInvalidIpAddress),
            (r matches Err(SendError::HostInvalidUtf8)) || (r matches Err(SendError::ToBytes(_)))
                || (r matches Err(SendError::HostInvalidIpAddress)) ==> final(self).socket() == old(
                self,
            ).socket(),
            !(r matches Err(SendError::HostInvalidUtf8)),
            !(r matches Err(SendError::ToBytes(_))),
    {
        let addr = match parse_ipv4(ip) {
            Some(a) => a,
            None => return Err(SendError::HostInvalidIpAddress),
        };
        match self.sock.connect(addr, port) {
            Err(e) => return Err(SendError::SockError(e)),
            Ok(()) => {},
        }
        match self.sock.send(bytes) {
            Ok(()) => Ok(()),
            Err(nb::Error::WouldBlock) => Err(SendError::WouldBlock),
            Err(nb::Error::Other(e)) => Err(SendError::SockError(e)),
        }
    }

    /// Sends a request to the address in its Uri-Host and Uri-Port options: what
    /// `prepare_request` gives is handed to `send`.
    pub fn send_req(&mut self, req: Req) -> (r: Result<(), SendError<Sock::Error>>)
        requires
            old(self).inv(),
            header_ok(req.msg@),
            first_with(req.opts_view(), URI_HOST as nat) is Some,
            first_with(req.opts_view(), URI_PORT as nat) is Some,
        ensures
            final(self).inv(),
            final(self).ears() == old(self).ears(),
            final(self).resps() == old(self).resps(),
            final(self).emptys() == old(self).emptys(),
            final(self).next_id() == old(self).next_id(),
            (r matches Err(SendError::HostInvalidUtf8)) || (r matches Err(SendError::ToBytes(_)))
                || (r matches Err(SendError::HostInvalidIpAddress)) ==> final(self).socket() == old(
                self,
            ).socket(),
            ({
                let host = first_with(req.opts_view(), URI_HOST as nat).unwrap();
                let m = request_message(req);
                if !valid_utf8(host) {
                    r matches Err(SendError::HostInvalidUtf8)
                } else if !opts_fit(m.opts) {
                    r matches Err(SendError::ToBytes(MessageToBytesError::OptionValueTooLong))
                } else if serialize(m).len() > DGRAM_CAP {
                    r matches Err(SendError::ToBytes(MessageToBytesError::BufferFull(DGRAM_CAP)))
                } else if ipv4_of(host) is None {
                    r matches Err(SendError::HostInvalidIpAddress)
                } else {
                    !(r matches Err(SendError::HostInvalidUtf8)) && !(r matches Err(
                        SendError::ToBytes(_),
                    )) && !(r matches Err(SendError::HostInvalidIpAddress))
                }
            }),
    {
        match prepare_request(req) {
            Err(e) => Err(e),
            Ok((host_bytes, port, bytes)) => {
                let host = match str_from_utf8(host_bytes.as_slice()) {
                    Some(h) => h,
                    None => return Err(SendError::HostInvalidUtf8),
                };
                self.send(host, port, bytes.as_slice())
            },
        }
    }

    /// Sends a ping (a confirmable Empty message with a fresh id) and returns its id, to be
    /// polled for with `poll_ping`.
    pub fn ping(&mut self, host: &str, port: u16) -> (r: Result<Id, SendError<Sock::Error>>)
        requires
            old(self).inv(),
        ensures
            final(self).inv(),
            final(self).ears() == old(self).ears(),
            final(self).resps() == old(self).resps(),
            final(self).emptys() == old(self).emptys(),
            final(self).next_id() == old(self).next_id().wrapping_add(1),
            r matches Ok(id) ==> id.0 == old(self).next_id(),
            !(r matches Err(SendError::ToBytes(_))),
            !(r matches Err(SendError::HostInvalidUtf8)),
            ipv4_of(host.spec_bytes()) is None <==> r matches Err(SendError::HostInvalidIpAddress),
            (r matches Err(SendError::HostInvalidUtf8)) || (r matches Err(SendError::ToBytes(_)))
                || (r matches Err(SendError::HostInvalidIpAddress)) ==> final(self).socket() == old(
                self,
            ).socket(),
    {
        let id = self.fresh_id();
        let msg = ping_message(id);
        let bytes = match msg.try_into_bytes() {
            Ok(b) => b,
            Err(e) => return Err(SendError::ToBytes(e)),
        };
        match self.send(host, port, bytes.as_slice()) {
            Ok(()) => Ok(id),
            Err(e) => Err(e),
        }
    }
}

/// The Uri-Port of a request: its first two bytes, big-endian, with missing ones read as zero.
pub open spec fn port_of(v: Seq<u8>) -> u16 {
    let hi: nat = if v.len() > 0 {
        v[0] as nat
    } else {
        0
    };
    let lo: nat = if v.len() > 1 {
        v[1] as nat
    } else {
        0
    };
    (hi * 256 + lo) as u16
}

/// Reads a Uri-Port value.
pub fn uri_port(v: &Vec<u8>) -> (p: u16)
    ensures
        p == port_of(v@),
{
    let hi: u16 = if v.len() > 0 {
        v[0] as u16
    } else {
        0
    };
    let lo: u16 = if v.len() > 1 {
        v[1] as u16
    } else {
        0
    };
    hi * 256 + lo
}

/// What sending a request hands to the socket: the Uri-Host bytes, the Uri-Port, and the
/// request's wire form, which must fit one datagram.
pub fn prepare_request<E>(req: Req) -> (r: Result<(Vec<u8>, u16, Vec<u8>), SendError<E>>)
    requires
        header_ok(req.msg@),
        first_with(req.opts_view(), URI_HOST as nat) is Some,
        first_with(req.opts_view(), URI_PORT as nat) is Some,
    ensures
        ({
            let host = first_with(req.opts_view(), URI_HOST as nat).unwrap();
            let m = request_message(req);
            if !valid_utf8(host) {
                r matches Err(SendError::HostInvalidUtf8)
            } else if !opts_fit(m.opts) {
                r matches Err(SendError::ToBytes(MessageToBytesError::OptionValueTooLong))
            } else if serialize(m).len() > DGRAM_CAP {
                r matches Err(SendError::ToBytes(MessageToBytesError::BufferFull(DGRAM_CAP)))
            } else {
                r matches Ok((h, p, b)) && h@ == host && p == port_of(
                    first_with(req.opts_view(), URI_PORT as nat).unwrap(),
                ) && b@ == serialize(m)
            }
        }),
{
    let port = match req.get_option(URI_PORT) {
        Some(v) => uri_port(v),
        None => 0,
    };
    let host_bytes = match req.get_option(URI_HOST) {
        Some(v) => v.clone(),
        None => Vec::new(),
    };
    assert(host_bytes@ == first_with(req.opts_view(), URI_HOST as nat).unwrap());
    match str_from_utf8(host_bytes.as_slice()) {
        Some(_) => {},
        None => return Err(SendError::HostInvalidUtf8),
    }
    let msg = req.into_message();
    let bytes = match msg.try_into_bytes() {
        Ok(b) => b,
        Err(e) => return Err(SendError::ToBytes(e)),
    };
    if bytes.len() > DGRAM_CAP {
        return Err(SendError::ToBytes(MessageToBytesError::BufferFull(DGRAM_CAP)));
    }
    Ok((host_bytes, port, bytes))
}

/// The listeners that `bootstrap` adds.
pub open spec fn default_ears() -> Seq<(MatchEvent, Handler)> {
    seq![
        (MatchEvent::RecvDgram, Handler::ParseMessage),
        (MatchEvent::RecvMsg, Handler::RespFromMsg),
        (MatchEvent::RecvMsg, Handler::StoreEmpty),
        (MatchEvent::RecvResp, Handler::StoreResp),
    ]
}

/// A ping: confirmable, code 0.00, no token, options or payload.
pub fn ping_message(id: Id) -> (m: Message)
    ensures
        m@ == (MessageView {
            ver: 1,
            ty: Type::Con,
            code: Code { class: 0, detail: 0 },
            id: id.0,
            token: seq![],
            opts: seq![],
            payload: seq![],
        }),
{
    let m = Message {
        id,
        ty: Type::Con,
        ver: Version(1),
        token: Token(Vec::new()),
        code: Code { class: 0, detail: 0 },
        opts: Vec::new(),
        payload: Payload(Vec::new()),
    };
    assert(m@.token =~= seq![]);
    assert(m@.opts =~= seq![]);
    assert(m@.payload =~= seq![]);
    m
}

} // verus!
