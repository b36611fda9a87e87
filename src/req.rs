use vstd::prelude::*;
use vstd::string::StringSliceAdditionalSpecFns;
use crate::msg::{Code, Id, Message, MessageView, OptView, Payload, Token, Type, Version};
use crate::opts::{
    NumberedView,
    add_option,
    arrange,
    arrange_opts,
    insert_sorted,
    normalize,
    normalize_opts,
    numbered_views,
};

verus! {

/// Option number of Uri-Host.
pub const URI_HOST: u32 = 3;

/// Option number of Uri-Port.
pub const URI_PORT: u32 = 7;

/// Option number of Uri-Path (repeated once per segment).
pub const URI_PATH: u32 = 11;

/// A request: a message, and its options by absolute number in the order they were added.
#[derive(Clone, Debug)]
pub struct Req {
    pub msg: Message,
    pub opts: Vec<(u32, Vec<u8>)>,
}

/// The bytes after the last `/` of `b`.
pub open spec fn open_segment(b: Seq<u8>) -> Seq<u8>
    decreases b.len(),
{
    if b.len() == 0 {
        seq![]
    } else if b.last() == 0x2Fu8 {
        seq![]
    } else {
        open_segment(b.drop_last()).push(b.last())
    }
}

/// The non-empty segments of `b` that a `/` closes.
pub open spec fn closed_segments(b: Seq<u8>) -> Seq<Seq<u8>>
    decreases b.len(),
{
    if b.len() == 0 {
        seq![]
    } else if b.last() == 0x2Fu8 {
        if open_segment(b.drop_last()).len() > 0 {
            closed_segments(b.drop_last()).push(open_segment(b.drop_last()))
        } else {
            closed_segments(b.drop_last())
        }
    } else {
        closed_segments(b.drop_last())
    }
}

/// The non-empty `/`-separated segments of a path, in order.
pub open spec fn path_segments(b: Seq<u8>) -> Seq<Seq<u8>> {
    if open_segment(b).len() > 0 {
        closed_segments(b).push(open_segment(b))
    } else {
        closed_segments(b)
    }
}

pub open spec fn path_opts(segs: Seq<Seq<u8>>) -> Seq<NumberedView> {
    segs.map_values(|seg: Seq<u8>| (URI_PATH as nat, seg))
}

/// The options of a GET request, by absolute number.
pub open spec fn get_opts(host: Seq<u8>, port: u16, path: Seq<u8>) -> Seq<NumberedView> {
    seq![(URI_HOST as nat, host), (URI_PORT as nat, seq![(port / 256) as u8, (port % 256) as u8])]
        + path_opts(path_segments(path))
}

/// The first entry with number `n`, if any.
pub open spec fn first_with(s: Seq<NumberedView>, n: nat) -> Option<Seq<u8>>
    decreases s.len(),
{
    if s.len() == 0 {
        None
    } else if s[0].0 == n {
        Some(s[0].1)
    } else {
        first_with(s.drop_first(), n)
    }
}

/// A message whose options are replaced.
pub open spec fn with_opts(m: MessageView, opts: Seq<OptView>) -> MessageView {
    MessageView { opts, ..m }
}

proof fn lemma_push_sorted(s: Seq<NumberedView>, x: NumberedView)
    requires
        s.len() == 0 || s.last().0 <= x.0,
    ensures
        insert_sorted(s, x) == s.push(x),
{
    if s.len() == 0 {
        assert(seq![x] =~= s.push(x));
    }
}

impl Req {
    /// The options by absolute number.
    pub open spec fn opts_view(&self) -> Seq<NumberedView> {
        numbered_views(self.opts@)
    }

    /// A confirmable GET for `host`, `port` and `path` with message id `id` and an empty
    /// token: Uri-Host, Uri-Port (big-endian) and one Uri-Path per non-empty segment.
    pub fn get(host: &str, port: u16, path: &str, id: Id) -> (r: Req)
        ensures
            r.msg@ == (MessageView {
                ver: 1,
                ty: Type::Con,
                code: Code { class: 0, detail: 1 },
                id: id.0,
                token: seq![],
                opts: seq![],
                payload: seq![],
            }),
            r.opts_view() == get_opts(host.spec_bytes(), port, path.spec_bytes()),
    {
        let msg = Message {
            id,
            ty: Type::Con,
            ver: Version(1),
            token: Token(Vec::new()),
            code: Code { class: 0, detail: 1 },
            opts: Vec::new(),
            payload: Payload(Vec::new()),
        };
        assert(msg@.token =~= seq![]);
        assert(msg@.opts =~= seq![]);
        assert(msg@.payload =~= seq![]);
        let mut opts: Vec<(u32, Vec<u8>)> = Vec::new();
        let hb = host.as_bytes();
        let mut hv: Vec<u8> = Vec::new();
        crate::msg::push_all(&mut hv, hb);
        assert(hv@ =~= host.spec_bytes());
        assert(numbered_views(opts@) =~= Seq::<NumberedView>::empty());
        proof {
            lemma_push_sorted(numbered_views(opts@), (URI_HOST as nat, hv@));
        }
        add_option(&mut opts, URI_HOST, hv);
        let mut pv: Vec<u8> = Vec::new();
        pv.push((port / 256) as u8);
        pv.push((port % 256) as u8);
        assert(pv@ =~= seq![(port / 256) as u8, (port % 256) as u8]);
        proof {
            lemma_push_sorted(numbered_views(opts@), (URI_PORT as nat, pv@));
        }
        add_option(&mut opts, URI_PORT, pv);
        let ghost head = numbered_views(opts@);
        assert(head =~= seq![
            (URI_HOST as nat, host.spec_bytes()),
            (URI_PORT as nat, seq![(port / 256) as u8, (port % 256) as u8]),
        ]);
        let b = path.as_bytes();
        let mut cur: Vec<u8> = Vec::new();
        let mut i: usize = 0;
        assert(b@.take(0) =~= Seq::<u8>::empty());
        assert(path_opts(closed_segments(b@.take(0))) =~= Seq::<NumberedView>::empty());
        assert(head + path_opts(closed_segments(b@.take(0))) =~= head);
        while i < b.len()
            invariant
                i <= b@.len(),
                b@ == path.spec_bytes(),
                head.len() == 2,
                head[1].0 == URI_PORT as nat,
                numbered_views(opts@) == head + path_opts(closed_segments(b@.take(i as int))),
                cur@ == open_segment(b@.take(i as int)),
            decreases b@.len() - i,
        {
            let ghost t = b@.take(i + 1 as int);
            assert(t.drop_last() =~= b@.take(i as int));
            assert(t.last() == b@[i as int]);
            if b[i] == 0x2F {
                if cur.len() > 0 {
                    let ghost before = numbered_views(opts@);
                    proof {
                        assert(before.last().0 <= URI_PATH as nat);
                        lemma_push_sorted(before, (URI_PATH as nat, cur@));
                    }
                    let seg = cur;
                    cur = Vec::new();
                    add_option(&mut opts, URI_PATH, seg);
                    assert(path_opts(closed_segments(t)) =~= path_opts(
                        closed_segments(b@.take(i as int)),
                    ).push((URI_PATH as nat, open_segment(b@.take(i as int)))));
                    assert(numbered_views(opts@) =~= head + path_opts(closed_segments(t)));
                } else {
                    cur = Vec::new();
                }
                assert(cur@ =~= open_segment(t));
            } else {
                cur.push(b[i]);
            }
            i = i + 1;
        }
        assert(b@.take(i as int) =~= b@);
        if cur.len() > 0 {
            let ghost before = numbered_views(opts@);
            proof {
                assert(before.last().0 <= URI_PATH as nat);
                lemma_push_sorted(before, (URI_PATH as nat, cur@));
            }
            add_option(&mut opts, URI_PATH, cur);
            assert(path_opts(path_segments(b@)) =~= path_opts(closed_segments(b@)).push(
                (URI_PATH as nat, open_segment(b@)),
            ));
            assert(numbered_views(opts@) =~= head + path_opts(path_segments(b@)));
        }
        let r = Req { msg, opts };
        r
    }

    /// The value of the first option with this number.
    pub fn get_option(&self, number: u32) -> (r: Option<&Vec<u8>>)
        ensures
            match r {
                Some(v) => first_with(self.opts_view(), number as nat) == Some(v@),
                None => first_with(self.opts_view(), number as nat) is None,
            },
    {
        let ghost s = self.opts_view();
        let mut i: usize = 0;
        assert(s.skip(0) =~= s);
        while i < self.opts.len()
            invariant
                i <= self.opts@.len(),
                s == self.opts_view(),
                first_with(s, number as nat) == first_with(s.skip(i as int), number as nat),
            decreases self.opts@.len() - i,
        {
            assert(s.skip(i as int)[0] == s[i as int]);
            assert(s.skip(i as int).drop_first() =~= s.skip(i + 1 as int));
            if self.opts[i].0 == number {
                return Some(&self.opts[i].1);
            }
            i = i + 1;
        }
        None
    }

    /// The message with the options, sorted stably by number, in wire form.
    pub fn into_message(self) -> (m: Message)
        ensures
            m@ == with_opts(self.msg@, normalize(arrange(self.opts_view()))),
    {
        proof {
            crate::opts::lemma_normalize(self.opts_view());
        }
        let opts = normalize_opts(&arrange_opts(&self.opts));
        let mut m = self.msg;
        m.opts = opts;
        m
    }
}

} // verus!
