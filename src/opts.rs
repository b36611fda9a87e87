use vstd::prelude::*;
use vstd::multiset::Multiset;
use crate::msg::{Opt, OptView};

verus! {

/// An authoring-time option: its absolute number and its value.
pub type NumberedView = (nat, Seq<u8>);

pub open spec fn numbered_views(s: Seq<(u32, Vec<u8>)>) -> Seq<NumberedView> {
    s.map_values(|e: (u32, Vec<u8>)| (e.0 as nat, e.1@))
}

pub open spec fn sorted_by_number(s: Seq<NumberedView>) -> bool {
    forall|i: int, j: int| 0 <= i < j < s.len() ==> s[i].0 <= s[j].0
}

/// Places `x` after every entry whose number is not above its own, keeping the others in order.
pub open spec fn insert_sorted(s: Seq<NumberedView>, x: NumberedView) -> Seq<NumberedView>
    decreases s.len(),
{
    if s.len() == 0 {
        seq![x]
    } else if x.0 < s.last().0 {
        insert_sorted(s.drop_last(), x).push(s.last())
    } else {
        s.push(x)
    }
}

/// The authoring list after inserting each entry of `s` in turn.
pub open spec fn arrange(s: Seq<NumberedView>) -> Seq<NumberedView>
    decreases s.len(),
{
    if s.len() == 0 {
        seq![]
    } else {
        insert_sorted(arrange(s.drop_last()), s.last())
    }
}

/// The wire form of a list sorted by number: each number becomes the difference to the one before.
pub open spec fn normalize(s: Seq<NumberedView>) -> Seq<OptView> {
    Seq::new(
        s.len(),
        |i: int|
            OptView {
                delta: if i == 0 {
                    s[0].0
                } else {
                    (s[i].0 - s[i - 1].0) as nat
                },
                value: s[i].1,
            },
    )
}

/// The absolute number of the option at `i` of a wire-form list: the sum of the deltas up to it.
pub open spec fn running_number(d: Seq<OptView>, i: nat) -> nat
    decreases i,
{
    if i == 0 {
        d[0].delta
    } else {
        running_number(d, (i - 1) as nat) + d[i as int].delta
    }
}

pub(crate) proof fn lemma_insert_sorted(s: Seq<NumberedView>, x: NumberedView)
    ensures
        insert_sorted(s, x).to_multiset() == s.to_multiset().insert(x),
        sorted_by_number(s) ==> sorted_by_number(insert_sorted(s, x)),
        insert_sorted(s, x).len() == s.len() + 1,
    decreases s.len(),
{
    broadcast use vstd::seq_lib::group_to_multiset_ensures;

    if s.len() == 0 {
        assert(seq![x] =~= Seq::<NumberedView>::empty().push(x));
    } else if x.0 < s.last().0 {
        let t = s.drop_last();
        lemma_insert_sorted(t, x);
        assert(s =~= t.push(s.last()));
        assert(insert_sorted(s, x).to_multiset() =~= s.to_multiset().insert(x));
        if sorted_by_number(s) {
            let r = insert_sorted(t, x);
            assert(sorted_by_number(t));
            assert forall|i: int, j: int| 0 <= i < j < r.len() + 1 implies #[trigger] r.push(
                s.last(),
            )[i].0 <= #[trigger] r.push(s.last())[j].0 by {
                if j == r.len() {
                    assert(r.to_multiset().contains(r[i]));
                    assert(t.to_multiset().insert(x).contains(r[i]));
                    if r[i] != x {
                        assert(t.to_multiset().contains(r[i]));
                        let k = choose|k: int| 0 <= k < t.len() && t[k] == r[i];
                        assert(s[k] == t[k]);
                        assert(s[s.len() - 1] == s.last());
                    }
                }
            }
        }
    } else {
        assert(s.push(x).to_multiset() =~= s.to_multiset().insert(x));
    }
}

/// Building the authoring list entry by entry and then normalizing it keeps every
/// (number, value) pair, and the running sum of the deltas gives back each number.
pub proof fn lemma_normalize(s: Seq<NumberedView>)
    ensures
        sorted_by_number(arrange(s)),
        arrange(s).to_multiset() == s.to_multiset(),
        normalize(arrange(s)).len() == s.len(),
        forall|i: int|
            0 <= i < s.len() ==> running_number(normalize(arrange(s)), i as nat) == #[trigger] arrange(
                s,
            )[i].0 && normalize(arrange(s))[i].value == arrange(s)[i].1,
    decreases s.len(),
{
    broadcast use vstd::seq_lib::group_to_multiset_ensures;

    if s.len() == 0 {
        assert(s.to_multiset() =~= Multiset::empty());
    } else {
        lemma_normalize(s.drop_last());
        lemma_insert_sorted(arrange(s.drop_last()), s.last());
        assert(s =~= s.drop_last().push(s.last()));
    }
    let a = arrange(s);
    lemma_running_number(a);
}

proof fn lemma_running_number(a: Seq<NumberedView>)
    requires
        sorted_by_number(a),
    ensures
        forall|i: int| 0 <= i < a.len() ==> running_number(normalize(a), i as nat) == #[trigger] a[i].0,
{
    assert forall|i: int| 0 <= i < a.len() implies running_number(normalize(a), i as nat)
        == #[trigger] a[i].0 by {
        lemma_running_number_at(a, i);
    }
}

proof fn lemma_running_number_at(a: Seq<NumberedView>, i: int)
    requires
        sorted_by_number(a),
        0 <= i < a.len(),
    ensures
        running_number(normalize(a), i as nat) == a[i].0,
    decreases i,
{
    if i > 0 {
        lemma_running_number_at(a, i - 1);
    }
}

/// Inserts an option by absolute number, after any with the same number.
pub fn add_option(opts: &mut Vec<(u32, Vec<u8>)>, number: u32, value: Vec<u8>)
    ensures
        numbered_views(final(opts)@) == insert_sorted(
            numbered_views(old(opts)@),
            (number as nat, value@),
        ),
{
    let ghost s = numbered_views(opts@);
    let ghost x = (number as nat, value@);
    let mut k: usize = opts.len();
    assert(s.take(k as int) =~= s);
    assert(s.skip(k as int) =~= Seq::<NumberedView>::empty());
    while k > 0 && opts[k - 1].0 > number
        invariant
            k <= opts@.len(),
            s == numbered_views(opts@),
            x == (number as nat, value@),
            insert_sorted(s, x) == insert_sorted(s.take(k as int), x) + s.skip(k as int),
        decreases k,
    {
        assert(s[k - 1] == (opts@[k - 1].0 as nat, opts@[k - 1].1@));
        assert(s.take(k as int).drop_last() =~= s.take(k - 1 as int));
        assert(s.take(k as int).last() == s[k - 1]);
        assert(seq![s[k - 1]] + s.skip(k as int) =~= s.skip(k - 1 as int));
        assert(opts@[k - 1].0 > number);
        let ghost t = s.take(k as int);
        assert(t.len() > 0);
        assert(x.0 < t.last().0);
        assert(insert_sorted(t, x) == insert_sorted(t.drop_last(), x).push(t.last()));
        assert(insert_sorted(s.take(k - 1 as int), x).push(s[k - 1]) + s.skip(k as int)
            =~= insert_sorted(s.take(k - 1 as int), x) + s.skip(k - 1 as int));
        k = k - 1;
    }
    if k == 0 {
        assert(s.take(0) =~= Seq::<NumberedView>::empty());
    } else {
        assert(s.take(k as int).last() == s[k - 1]);
        assert(s[k - 1] == (opts@[k - 1].0 as nat, opts@[k - 1].1@));
    }
    opts.insert(k, (number, value));
    assert(numbered_views(opts@) =~= s.take(k as int).push(x) + s.skip(k as int));
}

/// The list sorted by number, stably: each entry inserted in turn after those with a number
/// not above its own.
pub fn arrange_opts(opts: &Vec<(u32, Vec<u8>)>) -> (r: Vec<(u32, Vec<u8>)>)
    ensures
        numbered_views(r@) == arrange(numbered_views(opts@)),
{
    let ghost s = numbered_views(opts@);
    let mut r: Vec<(u32, Vec<u8>)> = Vec::new();
    let mut i: usize = 0;
    assert(numbered_views(r@) =~= arrange(s.take(0)));
    while i < opts.len()
        invariant
            i <= opts@.len(),
            s == numbered_views(opts@),
            numbered_views(r@) == arrange(s.take(i as int)),
        decreases opts@.len() - i,
    {
        let ghost t = s.take(i + 1 as int);
        assert(t.drop_last() =~= s.take(i as int));
        assert(t.last() == s[i as int]);
        let v = opts[i].1.clone();
        assert(v@ == opts@[i as int].1@);
        add_option(&mut r, opts[i].0, v);
        i = i + 1;
    }
    assert(s.take(i as int) =~= s);
    r
}

/// Turns a list sorted by number into wire-form options.
pub fn normalize_opts(opts: &Vec<(u32, Vec<u8>)>) -> (r: Vec<Opt>)
    requires
        sorted_by_number(numbered_views(opts@)),
    ensures
        crate::msg::views(r@) == normalize(numbered_views(opts@)),
{
    let ghost s = numbered_views(opts@);
    let mut r: Vec<Opt> = Vec::new();
    let mut prev: u32 = 0;
    let mut i: usize = 0;
    while i < opts.len()
        invariant
            i <= opts@.len(),
            s == numbered_views(opts@),
            sorted_by_number(s),
            i > 0 ==> prev as nat == s[i - 1].0,
            crate::msg::views(r@) == normalize(s).take(i as int),
        decreases opts@.len() - i,
    {
        let n = opts[i].0;
        let delta = if i == 0 {
            n
        } else {
            assert(s[i - 1].0 <= s[i as int].0);
            n - prev
        };
        let ghost before = r@;
        assert(normalize(s).take(i as int).len() == i);
        assert(before.len() == i);
        let o = Opt { delta, value: opts[i].1.clone() };
        assert(o.value@ == s[i as int].1);
        let ghost ov = o@;
        assert(ov == normalize(s)[i as int]);
        r.push(o);
        assert(r@ =~= before.push(o));
        assert(crate::msg::views(r@).len() == i + 1);
        assert(crate::msg::views(r@)[i as int] == ov);
        assert forall|j: int| 0 <= j < i + 1 implies #[trigger] crate::msg::views(r@)[j]
            == normalize(s)[j] by {
            if j < i {
                assert(crate::msg::views(before)[j] == normalize(s).take(i as int)[j]);
            }
        }
        assert(crate::msg::views(r@) =~= normalize(s).take(i + 1 as int));
        prev = n;
        i = i + 1;
    }
    assert(normalize(s).take(i as int) =~= normalize(s));
    r
}

} // verus!
