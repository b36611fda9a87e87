use vstd::prelude::*;

verus! {

/// Message type: Confirmable, Non-confirmable, Acknowledgement or Reset.
#[derive(PartialEq, Eq, Structural, Clone, Copy, Debug)]
pub enum Type {
    Con,
    Non,
    Ack,
    Reset,
}

/// Protocol version (two bits on the wire; only 1 is in use).
#[derive(PartialEq, Eq, Structural, Clone, Copy, Debug)]
pub struct Version(pub u8);

/// Message code `class.detail`, on the wire `(class << 5) | detail`.
#[derive(PartialEq, Eq, Structural, Clone, Copy, Debug)]
pub struct Code {
    pub class: u8,
    pub detail: u8,
}

/// Message id, big-endian on the wire.
#[derive(PartialEq, Eq, Structural, Clone, Copy, Debug)]
pub struct Id(pub u16);

/// The first header byte: `ver[2] | type[2] | tkl[4]`.
#[derive(PartialEq, Eq, Structural, Clone, Copy, Debug)]
pub struct Byte1 {
    pub ver: Version,
    pub ty: Type,
    pub tkl: u8,
}

/// Opaque request/response correlator of 0 to 8 bytes.
#[derive(Clone, Debug, PartialEq, Eq)]
pub struct Token(pub Vec<u8>);

/// Message body.
#[derive(Clone, Debug, PartialEq, Eq)]
pub struct Payload(pub Vec<u8>);

/// An option in wire form: the difference to the previous option number, and the value.
#[derive(Clone, Debug, PartialEq, Eq)]
pub struct Opt {
    pub delta: u32,
    pub value: Vec<u8>,
}

/// A whole message; `opts` is in wire (delta) form.
#[derive(Clone, Debug, PartialEq, Eq)]
pub struct Message {
    pub id: Id,
    pub ty: Type,
    pub ver: Version,
    pub token: Token,
    pub code: Code,
    pub opts: Vec<Opt>,
    pub payload: Payload,
}

/// Why an option could not be read.
#[derive(PartialEq, Eq, Structural, Clone, Copy, Debug)]
pub enum OptParseError {
    UnexpectedEndOfStream,
    OptionDeltaReservedValue(u8),
    OptionLengthReservedValue(u8),
}

/// Why a message could not be read.
#[derive(PartialEq, Eq, Structural, Clone, Copy, Debug)]
pub enum MessageParseError {
    UnexpectedEndOfStream,
    InvalidTokenLength(u8),
    OptParseError(OptParseError),
}

/// Why a message could not be written.
#[derive(PartialEq, Eq, Structural, Clone, Copy, Debug)]
pub enum MessageToBytesError {
    /// The target buffer of this capacity cannot take all bytes.
    BufferFull(usize),
    /// An option delta or value length is above 65804.
    OptionValueTooLong,
}

/// The mathematical form of an option.
pub struct OptView {
    pub delta: nat,
    pub value: Seq<u8>,
}

/// The mathematical form of a message.
pub struct MessageView {
    pub ver: u8,
    pub ty: Type,
    pub code: Code,
    pub id: u16,
    pub token: Seq<u8>,
    pub opts: Seq<OptView>,
    pub payload: Seq<u8>,
}

impl View for Opt {
    type V = OptView;

    open spec fn view(&self) -> OptView {
        OptView { delta: self.delta as nat, value: self.value@ }
    }
}

impl View for Message {
    type V = MessageView;

    open spec fn view(&self) -> MessageView {
        MessageView {
            ver: self.ver.0,
            ty: self.ty,
            code: self.code,
            id: self.id.0,
            token: self.token.0@,
            opts: self.opts@.map_values(|o: Opt| o@),
            payload: self.payload.0@,
        }
    }
}

pub open spec fn type_num(t: Type) -> nat {
    match t {
        Type::Con => 0,
        Type::Non => 1,
        Type::Ack => 2,
        Type::Reset => 3,
    }
}

pub open spec fn type_of(n: nat) -> Type {
    if n == 0 {
        Type::Con
    } else if n == 1 {
        Type::Non
    } else if n == 2 {
        Type::Ack
    } else {
        Type::Reset
    }
}

pub open spec fn byte1_of(b: u8) -> Byte1 {
    Byte1 { ver: Version((b / 64) as u8), ty: type_of((b / 16 % 4) as nat), tkl: b % 16 }
}

pub open spec fn code_of(b: u8) -> Code {
    Code { class: b / 32, detail: b % 32 }
}

pub open spec fn code_byte(c: Code) -> u8 {
    (c.class * 32 + c.detail) as u8
}

pub open spec fn code_ok(c: Code) -> bool {
    c.class < 8 && c.detail < 32
}

/// The nibble that announces a delta or length `n`.
pub open spec fn ext_code(n: nat) -> nat {
    if n < 13 {
        n
    } else if n < 269 {
        13
    } else {
        14
    }
}

/// The extension bytes that follow the option header for a delta or length `n`.
pub open spec fn ext_bytes(n: nat) -> Seq<u8> {
    if n < 13 {
        seq![]
    } else if n < 269 {
        seq![(n - 13) as u8]
    } else {
        seq![((n - 269) / 256) as u8, ((n - 269) % 256) as u8]
    }
}

pub open spec fn opt_bytes(o: OptView) -> Seq<u8> {
    seq![(ext_code(o.delta) * 16 + ext_code(o.value.len())) as u8] + ext_bytes(o.delta)
        + ext_bytes(o.value.len()) + o.value
}

pub open spec fn opts_bytes(s: Seq<OptView>) -> Seq<u8>
    decreases s.len(),
{
    if s.len() == 0 {
        seq![]
    } else {
        opts_bytes(s.drop_last()) + opt_bytes(s.last())
    }
}

pub open spec fn header_bytes(m: MessageView) -> Seq<u8> {
    seq![
        (m.ver * 64 + type_num(m.ty) * 16 + m.token.len()) as u8,
        code_byte(m.code),
        (m.id / 256) as u8,
        (m.id % 256) as u8,
    ]
}

pub open spec fn payload_bytes(p: Seq<u8>) -> Seq<u8> {
    if p.len() == 0 {
        seq![]
    } else {
        seq![0xFFu8] + p
    }
}

/// The wire form of a message.
pub open spec fn serialize(m: MessageView) -> Seq<u8> {
    header_bytes(m) + m.token + opts_bytes(m.opts) + payload_bytes(m.payload)
}

/// The largest delta or length that the two-byte extension can carry.
pub open spec fn opt_fits(o: OptView) -> bool {
    o.delta <= 65804 && o.value.len() <= 65804
}

pub open spec fn opts_fit(s: Seq<OptView>) -> bool {
    forall|i: int| 0 <= i < s.len() ==> opt_fits(#[trigger] s[i])
}

/// The header fields fit their bit widths.
pub open spec fn header_ok(m: MessageView) -> bool {
    m.ver < 4 && m.token.len() <= 8 && code_ok(m.code)
}

pub open spec fn well_formed(m: MessageView) -> bool {
    header_ok(m) && opts_fit(m.opts)
}

/// Reads the delta or length announced by nibble `code`, with its extension bytes at `p`:
/// the value and the position after it.
pub open spec fn read_ext(b: Seq<u8>, p: nat, code: nat) -> Option<(nat, nat)> {
    if code < 13 {
        Some((code, p))
    } else if code == 13 {
        if p < b.len() {
            Some((b[p as int] as nat + 13, p + 1))
        } else {
            None
        }
    } else {
        if p + 1 < b.len() {
            Some((b[p as int] as nat * 256 + b[p + 1 as int] as nat + 269, p + 2))
        } else {
            None
        }
    }
}

/// Reads one option whose header byte stands at `pos`: the option and the position after it.
pub open spec fn parse_opt_at(b: Seq<u8>, pos: nat) -> Result<(OptView, nat), OptParseError> {
    let h = b[pos as int];
    if h / 16 == 15 {
        Err(OptParseError::OptionDeltaReservedValue(15))
    } else if h % 16 == 15 {
        Err(OptParseError::OptionLengthReservedValue(15))
    } else {
        match read_ext(b, pos + 1, (h / 16) as nat) {
            None => Err(OptParseError::UnexpectedEndOfStream),
            Some((d, d_end)) => match read_ext(b, d_end, (h % 16) as nat) {
                None => Err(OptParseError::UnexpectedEndOfStream),
                Some((l, l_end)) => if l_end + l <= b.len() {
                    Ok((OptView { delta: d, value: b.subrange(l_end as int, (l_end + l) as int) }, l_end + l))
                } else {
                    Err(OptParseError::UnexpectedEndOfStream)
                },
            },
        }
    }
}

/// Reads the options from `pos` up to the payload marker or the end, and then the payload.
pub open spec fn parse_opts_from(b: Seq<u8>, pos: nat) -> Result<
    (Seq<OptView>, Seq<u8>),
    OptParseError,
>
    decreases b.len() - pos,
{
    if pos >= b.len() {
        Ok((seq![], seq![]))
    } else if b[pos as int] == 0xFF {
        Ok((seq![], b.subrange(pos + 1 as int, b.len() as int)))
    } else {
        match parse_opt_at(b, pos) {
            Err(e) => Err(e),
            Ok((o, next)) => if next <= pos {
                Err(OptParseError::UnexpectedEndOfStream)
            } else {
                prepend_opts(seq![o], parse_opts_from(b, next))
            },
        }
    }
}

pub open spec fn prepend_opts(
    os: Seq<OptView>,
    r: Result<(Seq<OptView>, Seq<u8>), OptParseError>,
) -> Result<(Seq<OptView>, Seq<u8>), OptParseError> {
    match r {
        Ok((rest, p)) => Ok((os + rest, p)),
        Err(e) => Err(e),
    }
}

/// What a message reads as.
pub open spec fn parse(b: Seq<u8>) -> Result<MessageView, MessageParseError> {
    if b.len() < 1 {
        Err(MessageParseError::UnexpectedEndOfStream)
    } else if b[0] % 16 > 8 {
        Err(MessageParseError::InvalidTokenLength(b[0] % 16))
    } else if b.len() < 4 + b[0] % 16 {
        Err(MessageParseError::UnexpectedEndOfStream)
    } else {
        let tkl = (b[0] % 16) as nat;
        match parse_opts_from(b, 4 + tkl) {
            Err(e) => Err(MessageParseError::OptParseError(e)),
            Ok((opts, payload)) => Ok(
                MessageView {
                    ver: byte1_of(b[0]).ver.0,
                    ty: byte1_of(b[0]).ty,
                    code: code_of(b[1]),
                    id: (b[2] as nat * 256 + b[3] as nat) as u16,
                    token: b.subrange(4, 4 + tkl as int),
                    opts,
                    payload,
                },
            ),
        }
    }
}


pub open spec fn views(s: Seq<Opt>) -> Seq<OptView> {
    s.map_values(|o: Opt| o@)
}

impl From<u8> for Byte1 {
    fn from(b: u8) -> (r: Byte1)
        ensures
            r == byte1_of(b),
    {
        let t = b / 16 % 4;
        let ty = if t == 0 {
            Type::Con
        } else if t == 1 {
            Type::Non
        } else if t == 2 {
            Type::Ack
        } else {
            Type::Reset
        };
        Byte1 { ver: Version(b / 64), ty, tkl: b % 16 }
    }
}

impl vstd::std_specs::convert::FromSpecImpl<u8> for Byte1 {
    open spec fn obeys_from_spec() -> bool {
        true
    }

    open spec fn from_spec(b: u8) -> Byte1 {
        byte1_of(b)
    }
}

impl From<u8> for Code {
    fn from(b: u8) -> (r: Code)
        ensures
            r == code_of(b),
    {
        Code { class: b / 32, detail: b % 32 }
    }
}

impl vstd::std_specs::convert::FromSpecImpl<u8> for Code {
    open spec fn obeys_from_spec() -> bool {
        true
    }

    open spec fn from_spec(b: u8) -> Code {
        code_of(b)
    }
}

impl Code {
    /// The code `class.detail`.
    pub fn new(class: u8, detail: u8) -> (r: Code)
        ensures
            r == (Code { class, detail }),
    {
        Code { class, detail }
    }
}

impl Id {
    /// Reads a big-endian id from the first two bytes.
    pub fn try_consume_bytes(b: &[u8]) -> (r: Result<Id, MessageParseError>)
        ensures
            b@.len() >= 2 ==> r == Ok::<Id, MessageParseError>(
                Id((b@[0] as nat * 256 + b@[1] as nat) as u16),
            ),
            b@.len() < 2 ==> r == Err::<Id, MessageParseError>(
                MessageParseError::UnexpectedEndOfStream,
            ),
    {
        if b.len() < 2 {
            Err(MessageParseError::UnexpectedEndOfStream)
        } else {
            Ok(Id(b[0] as u16 * 256 + b[1] as u16))
        }
    }
}

fn copy_range(b: &[u8], lo: usize, hi: usize) -> (v: Vec<u8>)
    requires
        lo <= hi <= b@.len(),
    ensures
        v@ == b@.subrange(lo as int, hi as int),
{
    let mut v: Vec<u8> = Vec::new();
    let mut i: usize = lo;
    while i < hi
        invariant
            lo <= i <= hi <= b@.len(),
            v@ == b@.subrange(lo as int, i as int),
        decreases hi - i,
    {
        v.push(b[i]);
        i = i + 1;
        assert(v@ =~= b@.subrange(lo as int, i as int));
    }
    v
}

fn read_ext_at(b: &[u8], p: usize, code: u8) -> (r: Option<(u32, usize)>)
    requires
        code < 15,
        p <= b@.len(),
    ensures
        match r {
            Some((v, q)) => read_ext(b@, p as nat, code as nat) == Some((v as nat, q as nat)) && p
                <= q <= b@.len() && v <= 65804,
            None => read_ext(b@, p as nat, code as nat) is None,
        },
{
    if code < 13 {
        Some((code as u32, p))
    } else if code == 13 {
        if p < b.len() {
            Some((b[p] as u32 + 13, p + 1))
        } else {
            None
        }
    } else {
        if b.len() > 1 && p < b.len() - 1 {
            Some((b[p] as u32 * 256 + b[p + 1] as u32 + 269, p + 2))
        } else {
            None
        }
    }
}

fn parse_opt(b: &[u8], pos: usize) -> (r: Result<(Opt, usize), OptParseError>)
    requires
        pos < b@.len(),
    ensures
        match r {
            Ok((o, next)) => parse_opt_at(b@, pos as nat) == Ok::<(OptView, nat), OptParseError>(
                (o@, next as nat),
            ) && pos < next <= b@.len(),
            Err(e) => parse_opt_at(b@, pos as nat) == Err::<(OptView, nat), OptParseError>(e),
        },
{
    let h = b[pos];
    if h / 16 == 15 {
        return Err(OptParseError::OptionDeltaReservedValue(15));
    }
    if h % 16 == 15 {
        return Err(OptParseError::OptionLengthReservedValue(15));
    }
    match read_ext_at(b, pos + 1, h / 16) {
        None => Err(OptParseError::UnexpectedEndOfStream),
        Some((d, d_end)) => match read_ext_at(b, d_end, h % 16) {
            None => Err(OptParseError::UnexpectedEndOfStream),
            Some((l, l_end)) => {
                if l as usize <= b.len() - l_end {
                    let value = copy_range(b, l_end, l_end + l as usize);
                    Ok((Opt { delta: d, value }, l_end + l as usize))
                } else {
                    Err(OptParseError::UnexpectedEndOfStream)
                }
            },
        },
    }
}

proof fn lemma_prepend_prepend(
    a: Seq<OptView>,
    o: OptView,
    r: Result<(Seq<OptView>, Seq<u8>), OptParseError>,
)
    ensures
        prepend_opts(a, prepend_opts(seq![o], r)) == prepend_opts(a.push(o), r),
{
    match r {
        Ok((rest, p)) => {
            assert(a + (seq![o] + rest) =~= a.push(o) + rest);
        },
        Err(_) => {},
    }
}

impl Message {
    /// Reads a message from its wire form.
    pub fn try_from_bytes(b: &[u8]) -> (r: Result<Message, MessageParseError>)
        ensures
            match r {
                Ok(m) => parse(b@) == Ok::<MessageView, MessageParseError>(m@),
                Err(e) => parse(b@) == Err::<MessageView, MessageParseError>(e),
            },
    {
        if b.len() < 1 {
            return Err(MessageParseError::UnexpectedEndOfStream);
        }
        let byte1 = Byte1::from(b[0]);
        if byte1.tkl > 8 {
            return Err(MessageParseError::InvalidTokenLength(byte1.tkl));
        }
        let tkl = byte1.tkl as usize;
        if b.len() < 4 + tkl {
            return Err(MessageParseError::UnexpectedEndOfStream);
        }
        let code = Code::from(b[1]);
        let id = match Id::try_consume_bytes(copy_range(b, 2, 4).as_slice()) {
            Ok(id) => id,
            Err(e) => return Err(e),
        };
        let token = copy_range(b, 4, 4 + tkl);
        let start: usize = 4 + tkl;
        let mut opts: Vec<Opt> = Vec::new();
        let mut pos: usize = start;
        let mut payload: Vec<u8> = Vec::new();
        loop
            invariant_except_break
                payload@ == Seq::<u8>::empty(),
            invariant
                start <= pos <= b@.len(),
                start as nat == 4 + (b@[0] % 16) as nat,
                b@[0] % 16 <= 8,
                parse_opts_from(b@, start as nat) == prepend_opts(
                    views(opts@),
                    parse_opts_from(b@, pos as nat),
                ),
            ensures
                parse_opts_from(b@, start as nat) == Ok::<
                    (Seq<OptView>, Seq<u8>),
                    OptParseError,
                >((views(opts@), payload@)),
            decreases b@.len() - pos,
        {
            if pos >= b.len() {
                assert(views(opts@) + seq![] =~= views(opts@));
                break ;
            }
            if b[pos] == 0xFF {
                payload = copy_range(b, pos + 1, b.len());
                assert(views(opts@) + seq![] =~= views(opts@));
                break ;
            }
            match parse_opt(b, pos) {
                Err(e) => {
                    assert(parse_opts_from(b@, pos as nat) == Err::<
                        (Seq<OptView>, Seq<u8>),
                        OptParseError,
                    >(e));
                    return Err(MessageParseError::OptParseError(e));
                },
                Ok((o, next)) => {
                    proof {
                        lemma_prepend_prepend(views(opts@), o@, parse_opts_from(b@, next as nat));
                    }
                    let ghost before = opts@;
                    let ghost ov = o@;
                    opts.push(o);
                    assert(views(opts@) =~= views(before).push(ov));
                    pos = next;
                },
            }
        }
        let m = Message {
            id,
            ty: byte1.ty,
            ver: byte1.ver,
            token: Token(token),
            code,
            opts,
            payload: Payload(payload),
        };
        assert(parse_opts_from(b@, start as nat) == Ok::<(Seq<OptView>, Seq<u8>), OptParseError>(
            (m@.opts, m@.payload),
        ));
        assert(m@.token == b@.subrange(4, 4 + tkl as int));
        assert(m@.id == (b@[2] as nat * 256 + b@[3] as nat) as u16);
        Ok(m)
    }
}


pub(crate) fn push_all(out: &mut Vec<u8>, b: &[u8])
    ensures
        final(out)@ == old(out)@ + b@,
{
    let mut i: usize = 0;
    while i < b.len()
        invariant
            i <= b@.len(),
            out@ == old(out)@ + b@.subrange(0, i as int),
        decreases b@.len() - i,
    {
        out.push(b[i]);
        i = i + 1;
        assert(out@ =~= old(out)@ + b@.subrange(0, i as int));
    }
    assert(b@.subrange(0, b@.len() as int) =~= b@);
}

fn ext_code_of(n: u32) -> (r: u8)
    requires
        n <= 65804,
    ensures
        r as nat == ext_code(n as nat),
        r < 15,
{
    if n < 13 {
        n as u8
    } else if n < 269 {
        13
    } else {
        14
    }
}

fn push_ext(out: &mut Vec<u8>, n: u32)
    requires
        n <= 65804,
    ensures
        final(out)@ == old(out)@ + ext_bytes(n as nat),
{
    if n < 13 {
        assert(old(out)@ + ext_bytes(n as nat) =~= old(out)@);
    } else if n < 269 {
        out.push((n - 13) as u8);
        assert(final(out)@ =~= old(out)@ + ext_bytes(n as nat));
    } else {
        out.push(((n - 269) / 256) as u8);
        out.push(((n - 269) % 256) as u8);
        assert(final(out)@ =~= old(out)@ + ext_bytes(n as nat));
    }
}

fn push_opt(out: &mut Vec<u8>, o: &Opt)
    requires
        opt_fits(o@),
    ensures
        final(out)@ == old(out)@ + opt_bytes(o@),
{
    let len = o.value.len() as u32;
    let dc = ext_code_of(o.delta);
    let lc = ext_code_of(len);
    out.push(dc * 16 + lc);
    push_ext(out, o.delta);
    push_ext(out, len);
    push_all(out, o.value.as_slice());
    assert(final(out)@ =~= old(out)@ + opt_bytes(o@));
}

impl Message {
    /// Writes the message in wire form. Fails only where an option delta or value length
    /// is above what the two-byte extension can carry.
    pub fn try_into_bytes(&self) -> (r: Result<Vec<u8>, MessageToBytesError>)
        requires
            header_ok(self@),
        ensures
            match r {
                Ok(v) => opts_fit(self@.opts) && v@ == serialize(self@),
                Err(e) => !opts_fit(self@.opts) && e == MessageToBytesError::OptionValueTooLong,
            },
    {
        let ghost m = self@;
        let mut out: Vec<u8> = Vec::new();
        let ty: u8 = match self.ty {
            Type::Con => 0,
            Type::Non => 1,
            Type::Ack => 2,
            Type::Reset => 3,
        };
        out.push(self.ver.0 * 64 + ty * 16 + self.token.0.len() as u8);
        out.push(self.code.class * 32 + self.code.detail);
        out.push((self.id.0 / 256) as u8);
        out.push((self.id.0 % 256) as u8);
        assert(out@ =~= header_bytes(m));
        push_all(&mut out, self.token.0.as_slice());
        let mut i: usize = 0;
        while i < self.opts.len()
            invariant
                m == self@,
                i <= self.opts@.len(),
                opts_fit(m.opts.take(i as int)),
                out@ == header_bytes(m) + m.token + opts_bytes(m.opts.take(i as int)),
            decreases self.opts@.len() - i,
        {
            let o = &self.opts[i];
            if o.delta > 65804 || o.value.len() > 65804 {
                assert(!opt_fits(m.opts[i as int]));
                return Err(MessageToBytesError::OptionValueTooLong);
            }
            push_opt(&mut out, o);
            assert(m.opts.take(i + 1 as int).drop_last() =~= m.opts.take(i as int));
            assert(m.opts[i as int] == o@);
            i = i + 1;
            assert(opts_fit(m.opts.take(i as int))) by {
                assert forall|j: int| 0 <= j < i implies opt_fits(#[trigger] m.opts.take(i as int)[j]) by {
                    if j < i - 1 {
                        assert(m.opts.take(i as int)[j] == m.opts.take(i - 1 as int)[j]);
                    }
                }
            }
        }
        assert(m.opts.take(i as int) =~= m.opts);
        if self.payload.0.len() > 0 {
            out.push(0xFF);
            push_all(&mut out, self.payload.0.as_slice());
        }
        assert(out@ =~= serialize(m));
        Ok(out)
    }
}


proof fn lemma_opts_bytes_cons(o: OptView, s: Seq<OptView>)
    ensures
        opts_bytes(seq![o] + s) == opt_bytes(o) + opts_bytes(s),
    decreases s.len(),
{
    if s.len() == 0 {
        assert(seq![o] + s =~= seq![o]);
        assert(seq![o].drop_last() =~= Seq::<OptView>::empty());
        assert(opt_bytes(o) + opts_bytes(s) =~= opts_bytes(Seq::<OptView>::empty()) + opt_bytes(o));
    } else {
        lemma_opts_bytes_cons(o, s.drop_last());
        assert((seq![o] + s).drop_last() =~= seq![o] + s.drop_last());
        assert((seq![o] + s).last() == s.last());
        assert(opt_bytes(o) + opts_bytes(s.drop_last()) + opt_bytes(s.last()) =~= opt_bytes(o)
            + (opts_bytes(s.drop_last()) + opt_bytes(s.last())));
    }
}

proof fn lemma_ext_code(n: nat)
    requires
        n <= 65804,
    ensures
        ext_code(n) <= 14,
        ext_bytes(n).len() == if n < 13 {
            0nat
        } else if n < 269 {
            1nat
        } else {
            2nat
        },
{
}

/// Where `opt_bytes(o)` stands at `pos`, the reader takes exactly `o` from there.
proof fn lemma_parse_opt(b: Seq<u8>, pos: nat, o: OptView)
    requires
        opt_fits(o),
        pos + opt_bytes(o).len() <= b.len(),
        b.subrange(pos as int, (pos + opt_bytes(o).len()) as int) == opt_bytes(o),
    ensures
        parse_opt_at(b, pos) == Ok::<(OptView, nat), OptParseError>(
            (o, pos + opt_bytes(o).len()),
        ),
        b[pos as int] != 0xFF,
{
    let ob = opt_bytes(o);
    let d = o.delta;
    let l = o.value.len();
    lemma_ext_code(d);
    lemma_ext_code(l);
    let dc = ext_code(d);
    let lc = ext_code(l);
    assert(b[pos as int] == ob[0]);
    assert(ob[0] == (dc * 16 + lc) as u8);
    let h = b[pos as int];
    assert(h / 16 == dc && h % 16 == lc) by (nonlinear_arith)
        requires
            h == (dc * 16 + lc) as u8,
            dc <= 14,
            lc <= 14,
    ;
    let db = ext_bytes(d);
    let lb = ext_bytes(l);
    assert(ob =~= seq![h] + db + lb + o.value);
    assert forall|k: int| 0 <= k < ob.len() implies b[pos as int + k] == #[trigger] ob[k] by {
        assert(b.subrange(pos as int, (pos + ob.len()) as int)[k] == ob[k]);
    }
    let d_end = pos + 1 + db.len();
    assert(read_ext(b, pos + 1, dc) == Some((d, d_end))) by {
        if d >= 13 && d < 269 {
            assert(b[(pos + 1) as int] == ob[1]);
        } else if d >= 269 {
            assert(b[(pos + 1) as int] == ob[1]);
            assert(b[(pos + 2) as int] == ob[2]);
            let x = (d - 269) as nat;
            assert(((x / 256) as u8) as nat * 256 + ((x % 256) as u8) as nat == x) by (nonlinear_arith)
                requires
                    x <= 65535,
            ;
        }
    }
    let l_end = d_end + lb.len();
    assert(read_ext(b, d_end, lc) == Some((l, l_end))) by {
        if l >= 13 && l < 269 {
            assert(b[d_end as int] == ob[(1 + db.len()) as int]);
        } else if l >= 269 {
            assert(b[d_end as int] == ob[(1 + db.len()) as int]);
            assert(b[(d_end + 1) as int] == ob[(1 + db.len() + 1) as int]);
            let x = (l - 269) as nat;
            assert(((x / 256) as u8) as nat * 256 + ((x % 256) as u8) as nat == x) by (nonlinear_arith)
                requires
                    x <= 65535,
            ;
        }
    }
    assert(b.subrange(l_end as int, (l_end + l) as int) =~= o.value) by {
        assert forall|k: int| 0 <= k < l implies b.subrange(l_end as int, (l_end + l) as int)[k]
            == o.value[k] by {
            assert(ob[(1 + db.len() + lb.len()) as int + k] == o.value[k]);
        }
    }
}

/// Options written after any prefix, followed by the payload's encoding, read back as
/// those options and that payload.
proof fn lemma_parse_opts(q: Seq<u8>, s: Seq<OptView>, p: Seq<u8>)
    requires
        opts_fit(s),
    ensures
        parse_opts_from(q + opts_bytes(s) + payload_bytes(p), q.len()) == Ok::<
            (Seq<OptView>, Seq<u8>),
            OptParseError,
        >((s, p)),
    decreases s.len(),
{
    let b = q + opts_bytes(s) + payload_bytes(p);
    if s.len() == 0 {
        assert(opts_bytes(s) =~= Seq::<u8>::empty());
        assert(b =~= q + payload_bytes(p));
        if p.len() != 0 {
            assert(b[q.len() as int] == 0xFF);
            assert(b.subrange(q.len() + 1 as int, b.len() as int) =~= p);
        } else {
            assert(b =~= q);
            assert(p =~= Seq::<u8>::empty());
        }
        assert(s =~= Seq::<OptView>::empty());
    } else {
        let o = s[0];
        let rest = s.drop_first();
        assert(s =~= seq![o] + rest);
        lemma_opts_bytes_cons(o, rest);
        let q2 = q + opt_bytes(o);
        assert(b =~= q2 + opts_bytes(rest) + payload_bytes(p));
        assert(opts_fit(rest)) by {
            assert forall|i: int| 0 <= i < rest.len() implies opt_fits(#[trigger] rest[i]) by {
                assert(rest[i] == s[i + 1]);
            }
        }
        assert(opt_fits(s[0]));
        assert(b.subrange(q.len() as int, (q.len() + opt_bytes(o).len()) as int) =~= opt_bytes(o));
        lemma_parse_opt(b, q.len(), o);
        lemma_parse_opts(q2, rest, p);
        assert(q2.len() == q.len() + opt_bytes(o).len());
        assert(parse_opts_from(b, q2.len()) == Ok::<(Seq<OptView>, Seq<u8>), OptParseError>(
            (rest, p),
        ));
        assert(seq![o] + rest =~= s);
        assert(parse_opts_from(b, q.len()) == prepend_opts(seq![o], parse_opts_from(b, q2.len())));
    }
}

/// Writing a well-formed message and reading the bytes back gives the same message.
pub proof fn lemma_round_trip(m: MessageView)
    requires
        well_formed(m),
    ensures
        parse(serialize(m)) == Ok::<MessageView, MessageParseError>(m),
{
    let b = serialize(m);
    let h = header_bytes(m);
    let tkl = m.token.len();
    let t = type_num(m.ty);
    let b0 = h[0];
    assert(b0 % 16 == tkl && b0 / 16 % 4 == t && b0 / 64 == m.ver) by (nonlinear_arith)
        requires
            b0 == (m.ver * 64 + t * 16 + tkl) as u8,
            m.ver < 4,
            t < 4,
            tkl <= 8,
    ;
    assert(type_of(t) == m.ty);
    let b1 = h[1];
    let c = m.code;
    assert(b1 / 32 == c.class && b1 % 32 == c.detail) by (nonlinear_arith)
        requires
            b1 == (c.class * 32 + c.detail) as u8,
            c.class < 8,
            c.detail < 32,
    ;
    assert(code_of(b1) == c);
    let id = m.id;
    assert(((id / 256) as u8) as nat * 256 + ((id % 256) as u8) as nat == id) by (nonlinear_arith);
    let q = h + m.token;
    assert(b =~= q + opts_bytes(m.opts) + payload_bytes(m.payload));
    assert(b[0] == b0 && b[1] == b1 && b[2] == h[2] && b[3] == h[3]);
    lemma_parse_opts(q, m.opts, m.payload);
    assert(b.subrange(4, 4 + tkl as int) =~= m.token);
    assert(q.len() == 4 + (b[0] % 16) as nat);
}

} // verus!
