use vstd::prelude::*;
use crate::msg::Id;
use crate::resp::Resp;

verus! {

/// How many entries a store holds.
pub const SLOTS: usize = 64;

/// Whether a slot holds an entry with message id `id`.
pub open spec fn holds_id(o: Option<Resp>, id: u16) -> bool {
    o matches Some(r) && r.0.msg.id.0 == id
}

pub open spec fn no_id(s: Seq<Option<Resp>>, id: u16) -> bool {
    forall|j: int| 0 <= j < s.len() ==> !holds_id(#[trigger] s[j], id)
}

/// `k` is the first slot that holds an entry with id `id`.
pub open spec fn first_with_id(s: Seq<Option<Resp>>, id: u16, k: int) -> bool {
    0 <= k < s.len() && holds_id(s[k], id) && no_id(s.take(k), id)
}

/// The occupied slots, in order.
pub open spec fn occupied(s: Seq<Option<Resp>>) -> Seq<Option<Resp>>
    decreases s.len(),
{
    if s.len() == 0 {
        seq![]
    } else if s.last() is Some {
        occupied(s.drop_last()).push(s.last())
    } else {
        occupied(s.drop_last())
    }
}

/// The slots after storing `r`: appended; where every slot is in use, appended after the
/// emptied slots are dropped; where they are all occupied, nothing changes but that.
pub open spec fn stored(s: Seq<Option<Resp>>, r: Resp) -> Seq<Option<Resp>> {
    if s.len() < SLOTS {
        s.push(Some(r))
    } else if occupied(s).len() < SLOTS {
        occupied(s).push(Some(r))
    } else {
        occupied(s)
    }
}

/// Whether storing into slots `s` has room.
pub open spec fn has_room(s: Seq<Option<Resp>>) -> bool {
    s.len() < SLOTS || occupied(s).len() < SLOTS
}

/// What taking id `id` out of slots `s` returns, and the slots after it.
pub open spec fn taken(s: Seq<Option<Resp>>, id: u16) -> (Option<Resp>, Seq<Option<Resp>>) {
    if exists|k: int| first_with_id(s, id, k) {
        let k = choose|k: int| first_with_id(s, id, k);
        (s[k], s.update(k, None))
    } else {
        (None, s)
    }
}

proof fn lemma_occupied(s: Seq<Option<Resp>>, id: u16)
    ensures
        occupied(s).len() <= s.len(),
        no_id(s, id) ==> no_id(occupied(s), id),
        forall|j: int| 0 <= j < occupied(s).len() ==> (#[trigger] occupied(s)[j]) is Some,
        occupied(s).len() == s.len() ==> occupied(s) == s,
    decreases s.len(),
{
    if s.len() > 0 {
        let t = s.drop_last();
        lemma_occupied(t, id);
        assert(s =~= t.push(s.last()));
        if no_id(s, id) {
            assert(no_id(t, id)) by {
                assert forall|j: int| 0 <= j < t.len() implies !holds_id(#[trigger] t[j], id) by {
                    assert(t[j] == s[j]);
                }
            }
            assert(!holds_id(s[s.len() - 1], id));
        }
        let o = occupied(s);
        let ot = occupied(t);
        assert forall|j: int| 0 <= j < o.len() implies (#[trigger] o[j]) is Some by {
            if j < ot.len() {
                assert(o[j] == ot[j]);
            }
        }
        if no_id(s, id) {
            assert forall|j: int| 0 <= j < o.len() implies !holds_id(#[trigger] o[j], id) by {
                if j < ot.len() {
                    assert(o[j] == ot[j]);
                } else {
                    assert(o[j] == s.last());
                }
            }
        }
    } else {
        assert(occupied(s) =~= s);
    }
}

/// Once `r` is stored where no entry had its id, taking that id gives back `r`, and taking it
/// again gives nothing.
pub proof fn lemma_store_take(s: Seq<Option<Resp>>, r: Resp)
    requires
        s.len() <= SLOTS,
        has_room(s),
        no_id(s, r.0.msg.id.0),
    ensures
        taken(stored(s, r), r.0.msg.id.0).0 == Some(r),
        taken(taken(stored(s, r), r.0.msg.id.0).1, r.0.msg.id.0).0 is None,
{
    let id = r.0.msg.id.0;
    lemma_occupied(s, id);
    let base = if s.len() < SLOTS {
        s
    } else {
        occupied(s)
    };
    let t = stored(s, r);
    assert(t == base.push(Some(r)));
    let k = base.len() as int;
    assert(t.take(k) =~= base);
    assert(first_with_id(t, id, k));
    assert forall|k2: int| first_with_id(t, id, k2) implies k2 == k by {
        if k2 < k {
            assert(t[k2] == base[k2]);
        }
    }
    let t2 = t.update(k, None);
    assert(taken(t, id) == (Some(r), t2));
    assert(no_id(t2, id)) by {
        assert forall|j: int| 0 <= j < t2.len() implies !holds_id(#[trigger] t2[j], id) by {
            if j < k {
                assert(t2[j] == base[j]);
            }
        }
    }
    assert(!exists|k3: int| first_with_id(t2, id, k3));
}

/// What is taken for an id carries that id.
pub proof fn lemma_taken_id(s: Seq<Option<Resp>>, id: u16)
    ensures
        taken(s, id).0 matches Some(x) ==> x.0.msg.id.0 == id,
{
}

proof fn lemma_occupied_from(s: Seq<Option<Resp>>)
    ensures
        forall|j: int| 0 <= j < occupied(s).len() ==> s.contains(#[trigger] occupied(s)[j]),
    decreases s.len(),
{
    if s.len() > 0 {
        let t = s.drop_last();
        lemma_occupied_from(t);
        let o = occupied(s);
        let ot = occupied(t);
        assert forall|j: int| 0 <= j < o.len() implies s.contains(#[trigger] o[j]) by {
            if j < ot.len() {
                assert(o[j] == ot[j]);
                let k = choose|k: int| 0 <= k < t.len() && t[k] == ot[j];
                assert(s[k] == t[k]);
            } else {
                assert(o[j] == s[s.len() - 1]);
            }
        }
    }
}

/// Every entry after storing `r` is `r` or was there before.
pub proof fn lemma_stored_from(s: Seq<Option<Resp>>, r: Resp)
    ensures
        forall|j: int|
            0 <= j < stored(s, r).len() ==> #[trigger] stored(s, r)[j] == Some(r) || s.contains(
                stored(s, r)[j],
            ),
{
    lemma_occupied_from(s);
    let t = stored(s, r);
    assert forall|j: int| 0 <= j < t.len() implies #[trigger] t[j] == Some(r) || s.contains(
        t[j],
    ) by {
        if s.len() < SLOTS {
            if j < s.len() {
                assert(t[j] == s[j]);
            }
        } else if occupied(s).len() < SLOTS {
            if j < occupied(s).len() {
                assert(t[j] == occupied(s)[j]);
            }
        }
    }
}

/// What taking leaves, and what it takes, was in the store.
pub proof fn lemma_taken_from(s: Seq<Option<Resp>>, id: u16)
    ensures
        taken(s, id).0 matches Some(x) ==> s.contains(Some(x)),
        forall|j: int|
            0 <= j < taken(s, id).1.len() ==> #[trigger] taken(s, id).1[j] is None || s.contains(
                taken(s, id).1[j],
            ),
{
    let t = taken(s, id).1;
    if exists|k: int| first_with_id(s, id, k) {
        let k = choose|k: int| first_with_id(s, id, k);
        assert(s[k] == taken(s, id).0);
    }
    assert forall|j: int| 0 <= j < t.len() implies #[trigger] t[j] is None || s.contains(t[j]) by {
        assert(t[j] is None || t[j] == s[j]);
    }
}

/// Every entry of `s` is still in `t`: only empty slots may have gone.
pub open spec fn keeps(s: Seq<Option<Resp>>, t: Seq<Option<Resp>>) -> bool {
    forall|x: Resp| #[trigger] s.contains(Some(x)) ==> t.contains(Some(x))
}

proof fn lemma_occupied_keeps(s: Seq<Option<Resp>>)
    ensures
        keeps(s, occupied(s)),
    decreases s.len(),
{
    if s.len() > 0 {
        let t = s.drop_last();
        lemma_occupied_keeps(t);
        let o = occupied(s);
        let ot = occupied(t);
        assert forall|x: Resp| #[trigger] s.contains(Some(x)) implies o.contains(Some(x)) by {
            let k = choose|k: int| 0 <= k < s.len() && s[k] == Some(x);
            if k < t.len() {
                assert(t[k] == s[k]);
                assert(t.contains(Some(x)));
                let j = choose|j: int| 0 <= j < ot.len() && ot[j] == Some(x);
                assert(o[j] == ot[j]);
            } else {
                assert(o[o.len() - 1] == s.last());
            }
        }
    }
}

/// Storing keeps every entry that was there.
pub proof fn lemma_stored_keeps(s: Seq<Option<Resp>>, r: Resp)
    ensures
        keeps(s, stored(s, r)),
{
    lemma_occupied_keeps(s);
    let t = stored(s, r);
    assert forall|x: Resp| #[trigger] s.contains(Some(x)) implies t.contains(Some(x)) by {
        if s.len() < SLOTS {
            let k = choose|k: int| 0 <= k < s.len() && s[k] == Some(x);
            assert(t[k] == s[k]);
        } else {
            assert(occupied(s).contains(Some(x)));
            let k = choose|k: int| 0 <= k < occupied(s).len() && occupied(s)[k] == Some(x);
            assert(t[k] == occupied(s)[k]);
        }
    }
}

/// A bounded store of received messages, each waiting to be taken by its id.
pub struct Slots {
    items: Vec<Option<Resp>>,
}

impl Slots {
    pub closed spec fn view(&self) -> Seq<Option<Resp>> {
        self.items@
    }

    pub closed spec fn wf(&self) -> bool {
        self.items@.len() <= SLOTS
    }

    /// A store never holds more than `SLOTS` slots.
    pub proof fn lemma_bound(&self)
        requires
            self.wf(),
        ensures
            self.view().len() <= SLOTS,
    {
    }

    /// An empty store.
    pub fn new() -> (r: Slots)
        ensures
            r.wf(),
            r.view() == Seq::<Option<Resp>>::empty(),
    {
        Slots { items: Vec::new() }
    }

    fn compact(&mut self)
        ensures
            final(self).view() == occupied(old(self).view()),
    {
        let mut rest: Vec<Option<Resp>> = Vec::new();
        std::mem::swap(&mut self.items, &mut rest);
        let ghost orig = rest@;
        let ghost n = rest@.len();
        assert(orig.take(0) =~= Seq::<Option<Resp>>::empty());
        assert(orig.skip(0) =~= orig);
        while rest.len() > 0
            invariant
                n == orig.len(),
                rest@.len() <= n,
                rest@ == orig.skip(n - rest@.len()),
                self.items@ == occupied(orig.take(n - rest@.len())),
            decreases rest@.len(),
        {
            let ghost i = n - rest@.len();
            assert(rest@[0] == orig[i]);
            let x = rest.remove(0);
            assert(rest@ =~= orig.skip(i + 1));
            let ghost t = orig.take(i + 1);
            assert(t.drop_last() =~= orig.take(i));
            assert(t.last() == orig[i]);
            if x.is_some() {
                self.items.push(x);
            }
        }
        assert(orig.take(n as int) =~= orig);
    }

    /// Stores `r`, dropping emptied slots first where every slot is in use. Hands `r` back
    /// where no slot is free even then.
    pub fn store(&mut self, r: Resp) -> (back: Option<Resp>)
        requires
            old(self).wf(),
        ensures
            final(self).wf(),
            final(self).view() == stored(old(self).view(), r),
            back is None <==> has_room(old(self).view()),
            back matches Some(b) ==> b == r,
    {
        proof {
            lemma_occupied(self.items@, 0);
        }
        if self.items.len() < SLOTS {
            self.items.push(Some(r));
            return None;
        }
        self.compact();
        if self.items.len() < SLOTS {
            self.items.push(Some(r));
            None
        } else {
            Some(r)
        }
    }

    /// Takes out the first entry with message id `id`.
    pub fn take(&mut self, id: Id) -> (r: Option<Resp>)
        requires
            old(self).wf(),
        ensures
            final(self).wf(),
            (r, final(self).view()) == taken(old(self).view(), id.0),
    {
        let ghost s = self.items@;
        let mut i: usize = 0;
        assert(s.take(0) =~= Seq::<Option<Resp>>::empty());
        while i < self.items.len()
            invariant
                s == old(self).view(),
                s.len() <= SLOTS,
                self.items@ == s,
                i <= s.len(),
                no_id(s.take(i as int), id.0),
            decreases s.len() - i,
        {
            let hit = match &self.items[i] {
                Some(resp) => resp.0.msg.id.0 == id.0,
                None => false,
            };
            if hit {
                assert(first_with_id(s, id.0, i as int));
                assert forall|k2: int| first_with_id(s, id.0, k2) implies k2 == i by {
                    if k2 < i {
                        assert(s.take(i as int)[k2] == s[k2]);
                    }
                    if k2 > i {
                        assert(s.take(k2)[i as int] == s[i as int]);
                    }
                }
                let r = self.items.remove(i);
                self.items.insert(i, None);
                assert(self.items@ =~= s.update(i as int, None));
                return r;
            }
            assert(no_id(s.take(i + 1 as int), id.0)) by {
                assert forall|j: int| 0 <= j < i + 1 implies !holds_id(
                    #[trigger] s.take(i + 1 as int)[j],
                    id.0,
                ) by {
                    if j < i {
                        assert(s.take(i + 1 as int)[j] == s.take(i as int)[j]);
                    }
                }
            }
            i = i + 1;
        }
        assert(s.take(i as int) =~= s);
        assert forall|k: int| !first_with_id(s, id.0, k) by {
            if 0 <= k < s.len() {
                assert(s.take(i as int)[k] == s[k]);
            }
        }
        None
    }
}

} // verus!
