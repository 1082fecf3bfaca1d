//! The orders in which the side views list things: timeline events by their
//! time text, places of the world tree by name, each level of the tree under
//! its parent.
//!
//! Texts are compared as `String`s are, character by character by code point
//! (which is the order of their UTF-8 bytes); the sort is stable.

use vstd::prelude::*;
use crate::model::{Location, Novel, TimelineEvent};
use crate::text::{str_eq, to_chars};

verus! {

/// `a` comes before `b`: at the first character where they differ, `a`'s is
/// smaller, or `a` is a proper prefix of `b`.
pub open spec fn text_lt(a: Seq<char>, b: Seq<char>) -> bool
    decreases a.len(),
{
    if a.len() == 0 {
        b.len() > 0
    } else if b.len() == 0 {
        false
    } else if a[0] != b[0] {
        (a[0] as u32) < (b[0] as u32)
    } else {
        text_lt(a.drop_first(), b.drop_first())
    }
}

/// Whether `a` comes before `b` in the order of texts.
pub fn text_less(a: &str, b: &str) -> (r: bool)
    ensures
        r == text_lt(a@, b@),
{
    let x = to_chars(a);
    let y = to_chars(b);
    let mut k: usize = 0;
    assert(x@.skip(0) =~= x@);
    assert(y@.skip(0) =~= y@);
    while k < x.len() && k < y.len() && x[k] == y[k]
        invariant
            k <= x@.len(),
            k <= y@.len(),
            text_lt(x@, y@) == text_lt(x@.skip(k as int), y@.skip(k as int)),
        decreases x.len() - k,
    {
        assert(x@.skip(k as int).drop_first() =~= x@.skip(k + 1));
        assert(y@.skip(k as int).drop_first() =~= y@.skip(k + 1));
        k = k + 1;
    }
    if k == x.len() {
        k < y.len()
    } else if k == y.len() {
        false
    } else {
        assert(x@.skip(k as int)[0] == x@[k as int]);
        assert(y@.skip(k as int)[0] == y@[k as int]);
        (x[k] as u32) < (y[k] as u32)
    }
}

/// Things listed in the order of a text of theirs.
pub trait Ordered {
    /// The text by which the thing is ordered.
    spec fn order_key(&self) -> Seq<char>;

    /// The text by which the thing is ordered.
    fn order_text(&self) -> (r: &str)
        ensures
            r@ == self.order_key(),
    ;
}

impl Ordered for TimelineEvent {
    open spec fn order_key(&self) -> Seq<char> {
        self.time@
    }

    fn order_text(&self) -> (r: &str) {
        self.time.as_str()
    }
}

impl Ordered for Location {
    open spec fn order_key(&self) -> Seq<char> {
        self.name@
    }

    fn order_text(&self) -> (r: &str) {
        self.name.as_str()
    }
}

/// Where `x` goes in `sorted`: after every element that does not come after it.
pub open spec fn sorted_place<T: Ordered>(sorted: Seq<&T>, x: &T) -> nat
    decreases sorted.len(),
{
    if sorted.len() == 0 || text_lt(x.order_key(), sorted[0].order_key()) {
        0
    } else {
        1 + sorted_place(sorted.drop_first(), x)
    }
}

/// `s` in the order of its texts, equal texts keeping their order.
pub open spec fn sorted_by_text<T: Ordered>(s: Seq<&T>) -> Seq<&T>
    decreases s.len(),
{
    if s.len() == 0 {
        Seq::empty()
    } else {
        let r = sorted_by_text(s.drop_last());
        r.insert(sorted_place(r, s.last()) as int, s.last())
    }
}

/// Sorts `items` by their texts, keeping the order of equal ones.
pub fn sort_by_text<'a, T: Ordered>(items: Vec<&'a T>) -> (r: Vec<&'a T>)
    ensures
        r@ == sorted_by_text(items@),
{
    let ghost all = items@;
    let mut out: Vec<&'a T> = Vec::new();
    let ghost mut i: int = 0;
    for x in it: items.into_iter()
        invariant
            it.seq() == all,
            i == it.index(),
            out@ == sorted_by_text(all.take(i)),
    {
        proof {
            assert(all.take(i + 1).drop_last() =~= all.take(i));
            assert(all.take(i + 1).last() == x);
        }
        let mut p: usize = 0;
        let ghost s = out@;
        proof {
            assert(s.skip(0) =~= s);
        }
        while p < out.len() && !text_less(x.order_text(), out[p].order_text())
            invariant
                out@ == s,
                p <= s.len(),
                sorted_place(s, x) == p + sorted_place(s.skip(p as int), x),
            decreases s.len() - p,
        {
            proof {
                assert(s.skip(p as int).drop_first() =~= s.skip(p + 1));
                assert(s.skip(p as int)[0] == s[p as int]);
            }
            p = p + 1;
        }
        proof {
            if p < s.len() {
                assert(s.skip(p as int)[0] == s[p as int]);
            }
        }
        out.insert(p, x);
        proof {
            i = i + 1;
        }
    }
    proof {
        assert(all.take(all.len() as int) =~= all);
    }
    out
}

/// Ordered by text: each element does not come after the next ones.
pub open spec fn in_text_order<T: Ordered>(s: Seq<&T>) -> bool {
    forall|i: int, j: int| 0 <= i < j < s.len() ==> !text_lt(s[j].order_key(), s[i].order_key())
}

proof fn lemma_text_lt_total(a: Seq<char>, b: Seq<char>)
    ensures
        a != b ==> (text_lt(a, b) || text_lt(b, a)),
        !(text_lt(a, b) && text_lt(b, a)),
    decreases a.len(),
{
    if a.len() > 0 && b.len() > 0 && a[0] == b[0] {
        lemma_text_lt_total(a.drop_first(), b.drop_first());
        if a.drop_first() == b.drop_first() {
            assert(a =~= seq![a[0]] + a.drop_first());
            assert(b =~= seq![b[0]] + b.drop_first());
            assert(a =~= b);
        }
    } else if a.len() == 0 && b.len() == 0 {
        assert(a =~= b);
    } else if a.len() > 0 && b.len() > 0 {
        vstd::utf8::char_u32_cast(a[0], a[0] as u32);
        vstd::utf8::char_u32_cast(b[0], b[0] as u32);
    }
}

proof fn lemma_text_lt_trans(a: Seq<char>, b: Seq<char>, c: Seq<char>)
    requires
        !text_lt(b, a),
        !text_lt(c, b),
    ensures
        !text_lt(c, a),
    decreases a.len(),
{
    lemma_text_lt_total(a, b);
    lemma_text_lt_total(b, c);
    if a.len() > 0 && b.len() > 0 && c.len() > 0 && a[0] == b[0] && b[0] == c[0] {
        lemma_text_lt_trans(a.drop_first(), b.drop_first(), c.drop_first());
    }
}

proof fn lemma_sorted_place<T: Ordered>(sorted: Seq<&T>, x: &T)
    ensures
        sorted_place(sorted, x) <= sorted.len(),
        forall|i: int| 0 <= i < sorted_place(sorted, x) ==> !text_lt(x.order_key(), #[trigger] sorted[i].order_key()),
        sorted_place(sorted, x) < sorted.len() ==> text_lt(x.order_key(), sorted[sorted_place(sorted, x) as int].order_key()),
    decreases sorted.len(),
{
    if sorted.len() > 0 && !text_lt(x.order_key(), sorted[0].order_key()) {
        lemma_sorted_place(sorted.drop_first(), x);
        assert forall|i: int| 0 <= i < sorted_place(sorted, x) implies !text_lt(
            x.order_key(),
            #[trigger] sorted[i].order_key(),
        ) by {
            if i > 0 {
                assert(sorted[i] == sorted.drop_first()[i - 1]);
            }
        }
    }
}

/// Sorting by text orders the elements by their texts and keeps them all.
pub proof fn law_sorted_by_text<T: Ordered>(s: Seq<&T>)
    ensures
        in_text_order(sorted_by_text(s)),
        sorted_by_text(s).to_multiset() == s.to_multiset(),
    decreases s.len(),
{
    broadcast use {vstd::seq_lib::to_multiset_insert, vstd::seq_lib::to_multiset_build};
    broadcast use vstd::multiset::group_multiset_axioms;

    if s.len() == 0 {
        assert(s =~= Seq::<&T>::empty());
    } else {
        law_sorted_by_text(s.drop_last());
        let r = sorted_by_text(s.drop_last());
        let x = s.last();
        lemma_sorted_place(r, x);
        let p = sorted_place(r, x) as int;
        let n = r.insert(p, x);
        assert forall|i: int, j: int| 0 <= i < j < n.len() implies !text_lt(
            n[j].order_key(),
            n[i].order_key(),
        ) by {
            if i < p && j == p {
            } else if i < p && j > p {
                lemma_text_lt_total(n[j].order_key(), n[i].order_key());
                assert(n[j] == r[j - 1]);
            } else if i == p && j > p {
                assert(n[j] == r[j - 1]);
                assert(r[p] == n[p + 1] || p == r.len());
                if j - 1 > p {
                    lemma_text_lt_total(r[j - 1].order_key(), r[p].order_key());
                    lemma_text_lt_total(x.order_key(), r[p].order_key());
                    lemma_text_lt_trans(x.order_key(), r[p].order_key(), r[j - 1].order_key());
                } else {
                    lemma_text_lt_total(x.order_key(), r[p].order_key());
                }
            } else if i > p {
                assert(n[i] == r[i - 1]);
                assert(n[j] == r[j - 1]);
            } else {
                assert(n[i] == r[i]);
                assert(n[j] == r[j]);
            }
        }
        assert(s.drop_last().push(x) =~= s);
        assert(n.to_multiset() == r.to_multiset().insert(x));
        assert(s.drop_last().push(x).to_multiset() == s.drop_last().to_multiset().insert(x));
    }
}

impl Novel {
    /// The timeline's events ordered by their time text (stable).
    pub fn timeline_order(&self) -> (r: Vec<&TimelineEvent>)
        ensures
            r@ == sorted_by_text(Seq::new(self.timeline@.len(), |i: int| &self.timeline@[i])),
    {
        let mut all: Vec<&TimelineEvent> = Vec::new();
        let mut i: usize = 0;
        while i < self.timeline.len()
            invariant
                i <= self.timeline@.len(),
                all@ == Seq::new(i as nat, |k: int| &self.timeline@[k]),
            decreases self.timeline.len() - i,
        {
            all.push(&self.timeline[i]);
            assert(all@ =~= Seq::new((i + 1) as nat, |k: int| &self.timeline@[k]));
            i = i + 1;
        }
        sort_by_text(all)
    }

    /// The places inside place `parent` (the top level for `None`), in the
    /// novel's order.
    pub fn places_inside(&self, parent: Option<&str>) -> (r: Vec<&Location>)
        ensures
            r@ == places_under(
                Seq::new(self.locations@.len(), |i: int| &self.locations@[i]),
                match parent {
                    Some(p) => Some(p@),
                    None => None,
                },
            ),
    {
        let ghost all = Seq::new(self.locations@.len(), |i: int| &self.locations@[i]);
        let ghost pv = match parent {
            Some(p) => Some(p@),
            None => None,
        };
        let mut out: Vec<&Location> = Vec::new();
        let mut i: usize = 0;
        while i < self.locations.len()
            invariant
                i <= self.locations@.len(),
                all == Seq::new(self.locations@.len(), |i: int| &self.locations@[i]),
                pv == (match parent {
                    Some(p) => Some(p@),
                    None => None,
                }),
                out@ == places_under(all.take(i as int), pv),
            decreases self.locations.len() - i,
        {
            proof {
                assert(all.take(i + 1).drop_last() =~= all.take(i as int));
                assert(all.take(i + 1).last() == &self.locations@[i as int]);
            }
            let l = &self.locations[i];
            let keep = match (&l.parent_id, parent) {
                (None, None) => true,
                (Some(x), Some(p)) => str_eq(x.as_str(), p),
                _ => false,
            };
            if keep {
                out.push(l);
            }
            i = i + 1;
        }
        assert(all.take(all.len() as int) =~= all);
        out
    }

    /// The top level of the world tree, ordered by name (stable).
    pub fn root_places(&self) -> (r: Vec<&Location>)
        ensures
            r@ == sorted_by_text(places_under(Seq::new(self.locations@.len(), |i: int| &self.locations@[i]), None)),
    {
        sort_by_text(self.places_inside(None))
    }
}

/// The place `l` is directly inside `parent` (at the top level for `None`).
pub open spec fn under(l: &Location, parent: Option<Seq<char>>) -> bool {
    match (l.parent_id, parent) {
        (None, None) => true,
        (Some(x), Some(p)) => x@ == p,
        _ => false,
    }
}

/// The places of `ls` directly inside `parent`, in order.
pub open spec fn places_under(ls: Seq<&Location>, parent: Option<Seq<char>>) -> Seq<&Location>
    decreases ls.len(),
{
    if ls.len() == 0 {
        Seq::empty()
    } else if under(ls.last(), parent) {
        places_under(ls.drop_last(), parent).push(ls.last())
    } else {
        places_under(ls.drop_last(), parent)
    }
}

} // verus!
