use vstd::prelude::*;
use crate::msg::{Message, MessageParseError};
use crate::resp::Resp;

verus! {

/// What the runtime dispatches to its listeners. A listener may take the payload out of
/// its slot; the ones after it then see `None`.
#[derive(Debug)]
pub enum Event {
    RecvDgram(Option<Vec<u8>>),
    RecvMsg(Option<Message>),
    MsgParseError(MessageParseError),
    RecvResp(Option<Resp>),
}

/// Which events a listener observes.
#[derive(PartialEq, Eq, Structural, Clone, Copy, Debug)]
pub enum MatchEvent {
    RecvDgram,
    RecvMsg,
    MsgParseError,
    RecvResp,
    All,
}

/// The built-in behaviours a listener can have. `Notify` does nothing itself: `fire`
/// reports each listener that it ran, so that the caller can act on it.
#[derive(PartialEq, Eq, Structural, Clone, Copy, Debug)]
pub enum Handler {
    ParseMessage,
    RespFromMsg,
    StoreEmpty,
    StoreResp,
    Notify,
}

/// The variant of an event, as the listener that matches only it.
pub open spec fn kind_of(e: Event) -> MatchEvent {
    match e {
        Event::RecvDgram(_) => MatchEvent::RecvDgram,
        Event::RecvMsg(_) => MatchEvent::RecvMsg,
        Event::MsgParseError(_) => MatchEvent::MsgParseError,
        Event::RecvResp(_) => MatchEvent::RecvResp,
    }
}

/// Whether a listener for `m` observes events of kind `k`.
pub open spec fn accepts(m: MatchEvent, k: MatchEvent) -> bool {
    m == MatchEvent::All || m == k
}

/// How far an event is from the end of the chain of events that it can cause.
pub open spec fn rank(e: Event) -> nat {
    match e {
        Event::RecvDgram(_) => 3,
        Event::RecvMsg(_) => 2,
        _ => 1,
    }
}

impl MatchEvent {
    /// Whether a listener for `self` observes `e`.
    pub fn matches(&self, e: &Event) -> (r: bool)
        ensures
            r == accepts(*self, kind_of(*e)),
    {
        match self {
            MatchEvent::All => true,
            MatchEvent::RecvDgram => matches!(e, Event::RecvDgram(_)),
            MatchEvent::RecvMsg => matches!(e, Event::RecvMsg(_)),
            MatchEvent::MsgParseError => matches!(e, Event::MsgParseError(_)),
            MatchEvent::RecvResp => matches!(e, Event::RecvResp(_)),
        }
    }
}

/// The positions, in order, of the listeners that observe events of kind `k`.
pub open spec fn listeners_for(ears: Seq<(MatchEvent, Handler)>, k: MatchEvent) -> Seq<usize>
    decreases ears.len(),
{
    if ears.len() == 0 {
        seq![]
    } else if accepts(ears.last().0, k) {
        listeners_for(ears.drop_last(), k).push((ears.len() - 1) as usize)
    } else {
        listeners_for(ears.drop_last(), k)
    }
}

proof fn lemma_listeners_below(ears: Seq<(MatchEvent, Handler)>, k: MatchEvent)
    requires
        ears.len() <= usize::MAX,
    ensures
        forall|j: int|
            0 <= j < listeners_for(ears, k).len() ==> #[trigger] listeners_for(ears, k)[j]
                < ears.len(),
    decreases ears.len(),
{
    if ears.len() > 0 {
        let prev = listeners_for(ears.drop_last(), k);
        lemma_listeners_below(ears.drop_last(), k);
        assert forall|j: int| 0 <= j < listeners_for(ears, k).len() implies #[trigger] listeners_for(
            ears,
            k,
        )[j] < ears.len() by {
            if j < prev.len() {
                assert(listeners_for(ears, k)[j] == prev[j]);
            }
        }
    }
}

/// A listener added last is run by a later `fire` exactly when it observes that event's kind.
pub proof fn lemma_listen_fire(
    ears: Seq<(MatchEvent, Handler)>,
    m: MatchEvent,
    h: Handler,
    e: Event,
)
    requires
        ears.len() < usize::MAX,
    ensures
        listeners_for(ears.push((m, h)), kind_of(e)).contains(ears.len() as usize) <==> accepts(
            m,
            kind_of(e),
        ),
{
    let all = ears.push((m, h));
    let k = kind_of(e);
    assert(all.drop_last() =~= ears);
    lemma_listeners_below(ears, k);
    if accepts(m, k) {
        assert(listeners_for(all, k).last() == ears.len() as usize);
    } else {
        if listeners_for(all, k).contains(ears.len() as usize) {
            let j = choose|j: int|
                0 <= j < listeners_for(ears, k).len() && listeners_for(ears, k)[j]
                    == ears.len() as usize;
            assert(listeners_for(ears, k)[j] < ears.len());
        }
    }
}

} // verus!
