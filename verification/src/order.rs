//! Orders on text and a stable sort.
//!
//! Strings are ordered by their characters' code points from the left, which
//! is the order of their UTF-8 encodings.

use vstd::prelude::*;

use crate::text::chars_of;

verus! {

// ---------------------------------------------------------------------------
// Text order
// ---------------------------------------------------------------------------

/// `a` stands before `b`, or they are equal.
pub open spec fn text_le(a: Seq<char>, b: Seq<char>) -> bool
    decreases a.len(),
{
    if a.len() == 0 {
        true
    } else if b.len() == 0 {
        false
    } else if a[0] != b[0] {
        a[0] < b[0]
    } else {
        text_le(a.drop_first(), b.drop_first())
    }
}

/// Rows of texts, ordered by the first component that differs.
pub open spec fn row_le(a: Seq<Seq<char>>, b: Seq<Seq<char>>) -> bool
    decreases a.len(),
{
    if a.len() == 0 {
        true
    } else if b.len() == 0 {
        false
    } else if a[0] != b[0] {
        text_le(a[0], b[0])
    } else {
        row_le(a.drop_first(), b.drop_first())
    }
}

/// Two texts are ordered one way or the other, both ways only if they are equal.
pub proof fn text_le_total(a: Seq<char>, b: Seq<char>)
    ensures
        text_le(a, b) || text_le(b, a),
        text_le(a, b) && text_le(b, a) <==> a == b,
    decreases a.len(),
{
    if a.len() == 0 {
        if b.len() == 0 {
            assert(a =~= b);
        }
    } else if b.len() == 0 {
    } else if a[0] == b[0] {
        text_le_total(a.drop_first(), b.drop_first());
        if a.drop_first() == b.drop_first() {
            assert(a =~= seq![a[0]] + a.drop_first());
            assert(b =~= seq![b[0]] + b.drop_first());
        }
    }
}

/// The text order is transitive.
pub proof fn text_le_transitive(a: Seq<char>, b: Seq<char>, c: Seq<char>)
    requires
        text_le(a, b),
        text_le(b, c),
    ensures
        text_le(a, c),
    decreases a.len(),
{
    if a.len() > 0 && b.len() > 0 && c.len() > 0 && a[0] == b[0] && b[0] == c[0] {
        text_le_transitive(a.drop_first(), b.drop_first(), c.drop_first());
    }
}

/// Two rows are ordered one way or the other, both ways only if they are equal.
pub proof fn row_le_total(a: Seq<Seq<char>>, b: Seq<Seq<char>>)
    ensures
        row_le(a, b) || row_le(b, a),
        row_le(a, b) && row_le(b, a) <==> a == b,
    decreases a.len(),
{
    if a.len() == 0 {
        if b.len() == 0 {
            assert(a =~= b);
        }
    } else if b.len() == 0 {
    } else {
        text_le_total(a[0], b[0]);
        if a[0] == b[0] {
            row_le_total(a.drop_first(), b.drop_first());
            if a.drop_first() == b.drop_first() {
                assert(a =~= seq![a[0]] + a.drop_first());
                assert(b =~= seq![b[0]] + b.drop_first());
            }
        }
    }
}

/// The order on rows is transitive.
pub proof fn row_le_transitive(a: Seq<Seq<char>>, b: Seq<Seq<char>>, c: Seq<Seq<char>>)
    requires
        row_le(a, b),
        row_le(b, c),
    ensures
        row_le(a, c),
    decreases a.len(),
{
    if a.len() > 0 && b.len() > 0 && c.len() > 0 {
        text_le_total(a[0], b[0]);
        text_le_total(b[0], c[0]);
        if a[0] == b[0] && b[0] == c[0] {
            row_le_transitive(a.drop_first(), b.drop_first(), c.drop_first());
        } else {
            text_le_transitive(a[0], b[0], c[0]);
        }
    }
}

/// `a` stands before `b`, or they are equal.
pub fn text_at_most(a: &str, b: &str) -> (r: bool)
    ensures
        r == text_le(a@, b@),
{
    let x = chars_of(a);
    let y = chars_of(b);
    let mut i: usize = 0;
    assert(a@.skip(0) =~= a@);
    assert(b@.skip(0) =~= b@);
    while i < x.len() && i < y.len() && x[i] == y[i]
        invariant
            i <= x@.len(),
            i <= y@.len(),
            x@ == a@,
            y@ == b@,
            text_le(a@, b@) == text_le(a@.skip(i as int), b@.skip(i as int)),
        decreases x@.len() - i,
    {
        assert(a@.skip(i as int).drop_first() =~= a@.skip(i + 1));
        assert(b@.skip(i as int).drop_first() =~= b@.skip(i + 1));
        i = i + 1;
    }
    if i == x.len() {
        true
    } else if i == y.len() {
        false
    } else {
        x[i] < y[i]
    }
}

// ---------------------------------------------------------------------------
// Stable sort
// ---------------------------------------------------------------------------

/// Items with a total preorder.
pub trait Ranked: Sized {
    /// `self` may stand before `other` in a sorted row.
    spec fn ranks_by(&self, other: &Self) -> bool;

    proof fn ranks_total(a: &Self, b: &Self)
        ensures
            a.ranks_by(b) || b.ranks_by(a),
    ;

    proof fn ranks_transitive(a: &Self, b: &Self, c: &Self)
        requires
            a.ranks_by(b),
            b.ranks_by(c),
        ensures
            a.ranks_by(c),
    ;

    fn at_most(&self, other: &Self) -> (r: bool)
        ensures
            r == self.ranks_by(other),
    ;
}

/// No item stands before one that has to come earlier.
pub open spec fn ranked<T: Ranked>(s: Seq<T>) -> bool {
    forall|i: int, j: int|
        #![trigger s[i], s[j]]
        0 <= i <= j < s.len() ==> s[i].ranks_by(&s[j])
}

/// The items that rank the same as `x`.
pub open spec fn peer_of<T: Ranked>(x: T) -> spec_fn(T) -> bool {
    |y: T| x.ranks_by(&y) && y.ranks_by(&x)
}

/// `out` holds the items of `s` in rank order, those of the same rank in the
/// order in which they stand in `s`.
pub open spec fn sorted_from<T: Ranked>(out: Seq<T>, s: Seq<T>) -> bool {
    &&& ranked(out)
    &&& out.len() == s.len()
    &&& forall|x: T| out.filter(#[trigger] peer_of(x)) == s.filter(peer_of(x))
}

proof fn lemma_filter_none<T>(s: Seq<T>, pred: spec_fn(T) -> bool)
    requires
        forall|i: int| 0 <= i < s.len() ==> !pred(#[trigger] s[i]),
    ensures
        s.filter(pred) == Seq::<T>::empty(),
    decreases s.len(),
{
    reveal(Seq::filter);
    if s.len() > 0 {
        lemma_filter_none(s.drop_last(), pred);
    }
}

proof fn lemma_filter_one<T>(x: T, pred: spec_fn(T) -> bool)
    ensures
        seq![x].filter(pred) == if pred(x) {
            seq![x]
        } else {
            Seq::<T>::empty()
        },
{
    reveal(Seq::filter);
    assert(seq![x].drop_last() =~= Seq::<T>::empty());
    assert(Seq::<T>::empty().filter(pred) =~= Seq::<T>::empty());
    assert(Seq::<T>::empty().push(x) =~= seq![x]);
}

/// Inserting `x` in front of everything that does not come strictly before it
/// keeps a row sorted, and puts `x` in front of its peers.
proof fn lemma_insert<T: Ranked>(out: Seq<T>, s: Seq<T>, x: T, j: int)
    requires
        sorted_from(out, s),
        0 <= j <= out.len(),
        forall|i: int| #![trigger out[i]] 0 <= i < j ==> !x.ranks_by(&out[i]),
        j < out.len() ==> x.ranks_by(&out[j]),
    ensures
        sorted_from(out.insert(j, x), seq![x] + s),
{
    let next = out.insert(j, x);
    let left = out.take(j);
    let right = out.skip(j);
    assert(next =~= left + (seq![x] + right));
    assert(out =~= left + right);
    assert forall|a: int, b: int|
        #![trigger next[a], next[b]]
        0 <= a <= b < next.len() implies next[a].ranks_by(&next[b]) by {
        if a < j && b == j {
            T::ranks_total(&next[a], &x);
        } else if a == j && b == j {
            T::ranks_total(&x, &x);
        } else if a == j && b > j {
            assert(next[b] == out[b - 1]);
            assert(out[j].ranks_by(&out[b - 1]));
            T::ranks_transitive(&x, &out[j], &out[b - 1]);
        } else if a < j && b > j {
            assert(out[a].ranks_by(&out[b - 1]));
        } else if a < j && b < j {
            assert(out[a].ranks_by(&out[b]));
        } else {
            assert(out[a - 1].ranks_by(&out[b - 1]));
        }
    }
    assert forall|y: T| next.filter(#[trigger] peer_of(y)) == (seq![x] + s).filter(peer_of(y)) by {
        let p = peer_of(y);
        Seq::filter_distributes_over_add(left, seq![x] + right, p);
        Seq::filter_distributes_over_add(seq![x], right, p);
        Seq::filter_distributes_over_add(left, right, p);
        Seq::filter_distributes_over_add(seq![x], s, p);
        lemma_filter_one(x, p);
        if p(x) {
            assert forall|i: int| 0 <= i < left.len() implies !p(#[trigger] left[i]) by {
                assert(left[i] == out[i]);
                if p(left[i]) {
                    T::ranks_transitive(&x, &y, &left[i]);
                }
            }
            lemma_filter_none(left, p);
            assert(left.filter(p) + right.filter(p) =~= right.filter(p));
            assert(left.filter(p) + (seq![x] + right.filter(p)) =~= seq![x] + right.filter(p));
        } else {
            assert(Seq::<T>::empty() + right.filter(p) =~= right.filter(p));
            assert(Seq::<T>::empty() + s.filter(p) =~= s.filter(p));
        }
        assert(out.filter(p) == s.filter(p));
    }
}

/// Sorting keeps the items.
pub proof fn sorted_has_the_same_items<T: Ranked>(out: Seq<T>, s: Seq<T>, x: T)
    requires
        sorted_from(out, s),
    ensures
        out.contains(x) <==> s.contains(x),
{
    let p = peer_of(x);
    T::ranks_total(&x, &x);
    if out.contains(x) {
        let i = choose|i: int| 0 <= i < out.len() && out[i] == x;
        out.lemma_filter_contains(p, i);
        s.lemma_filter_contains_rev(p, x);
    }
    if s.contains(x) {
        let i = choose|i: int| 0 <= i < s.len() && s[i] == x;
        s.lemma_filter_contains(p, i);
        out.lemma_filter_contains_rev(p, x);
    }
}

/// The items in rank order, those of the same rank in the order they came in.
pub fn stable_sort<T: Ranked>(items: Vec<T>) -> (out: Vec<T>)
    ensures
        sorted_from(out@, items@),
{
    let ghost all = items@;
    let mut rest = items;
    let mut out: Vec<T> = Vec::new();
    assert(all.skip(all.len() as int) =~= out@);
    loop
        invariant
            all == items@,
            rest@.len() <= all.len(),
            rest@ == all.take(rest@.len() as int),
            sorted_from(out@, all.skip(rest@.len() as int)),
        decreases rest@.len(),
    {
        match rest.pop() {
            Some(x) => {
                let ghost tail = all.skip((rest@.len() + 1) as int);
                let mut j: usize = 0;
                while j < out.len() && !x.at_most(&out[j])
                    invariant
                        j <= out@.len(),
                        forall|i: int|
                            #![trigger out@[i]]
                            0 <= i < j ==> !x.ranks_by(&out@[i]),
                    decreases out@.len() - j,
                {
                    j = j + 1;
                }
                proof {
                    lemma_insert(out@, tail, x, j as int);
                    assert(seq![x] + tail =~= all.skip(rest@.len() as int));
                    assert(rest@ =~= all.take(rest@.len() as int));
                }
                out.insert(j, x);
            },
            None => {
                assert(all.skip(0) =~= all);
                return out;
            },
        }
    }
}

/// Texts are ordered by the first place at which they differ, by code point;
/// and a text stands before what goes on behind it.
pub proof fn texts_are_ordered_by_the_first_difference(
    lead: Seq<char>,
    c: char,
    d: char,
    x: Seq<char>,
    y: Seq<char>,
)
    ensures
        c != d ==> (text_le(lead + seq![c] + x, lead + seq![d] + y) <==> (c as int) < (d as int)),
        text_le(lead, lead + x),
        x.len() > 0 ==> !text_le(lead + x, lead),
    decreases lead.len(),
{
    let a = lead + seq![c] + x;
    let b = lead + seq![d] + y;
    if lead.len() > 0 {
        texts_are_ordered_by_the_first_difference(lead.drop_first(), c, d, x, y);
        assert(a.drop_first() =~= lead.drop_first() + seq![c] + x);
        assert(b.drop_first() =~= lead.drop_first() + seq![d] + y);
        assert((lead + x).drop_first() =~= lead.drop_first() + x);
    } else {
        assert(lead + x =~= x);
    }
}

/// Rows are ordered by their first texts and, where these are equal, by the
/// rest.
pub proof fn rows_are_ordered_from_the_left(
    a: Seq<char>,
    b: Seq<char>,
    x: Seq<Seq<char>>,
    y: Seq<Seq<char>>,
)
    ensures
        a != b ==> (row_le(seq![a] + x, seq![b] + y) <==> text_le(a, b)),
        row_le(seq![a] + x, seq![a] + y) <==> row_le(x, y),
        row_le(Seq::empty(), y),
{
    assert((seq![a] + x).drop_first() =~= x);
    assert((seq![a] + y).drop_first() =~= y);
    assert((seq![b] + y).drop_first() =~= y);
}

/// In a sorted row each item ranks no later than those behind it.
pub proof fn sorted_items_stand_in_order<T: Ranked>(out: Seq<T>, s: Seq<T>, i: int, j: int)
    requires
        sorted_from(out, s),
        0 <= i < j < out.len(),
    ensures
        out[i].ranks_by(&out[j]),
        out.len() == s.len(),
{
}

/// Items that all rank the same keep their order.
pub proof fn items_of_one_rank_keep_their_order<T: Ranked>(out: Seq<T>, s: Seq<T>)
    requires
        sorted_from(out, s),
        forall|i: int, j: int|
            #![trigger s[i], s[j]]
            0 <= i < s.len() && 0 <= j < s.len() ==> s[i].ranks_by(&s[j]),
    ensures
        out == s,
{
    if s.len() > 0 {
        let p = peer_of(s[0]);
        assert forall|i: int| 0 <= i < s.len() implies p(#[trigger] s[i]) by {
            assert(s[0].ranks_by(&s[i]) && s[i].ranks_by(&s[0]));
        }
        lemma_filter_all(s, p);
        assert forall|i: int| 0 <= i < out.len() implies p(#[trigger] out[i]) by {
            assert(out.contains(out[i]));
            sorted_has_the_same_items(out, s, out[i]);
            let k = choose|k: int| 0 <= k < s.len() && s[k] == out[i];
            assert(p(s[k]));
        }
        lemma_filter_all(out, p);
    } else {
        assert(out =~= s);
    }
}

proof fn lemma_filter_all<T>(s: Seq<T>, pred: spec_fn(T) -> bool)
    requires
        forall|i: int| 0 <= i < s.len() ==> pred(#[trigger] s[i]),
    ensures
        s.filter(pred) == s,
    decreases s.len(),
{
    reveal(Seq::filter);
    if s.len() > 0 {
        assert forall|i: int| 0 <= i < s.drop_last().len() implies pred(
            #[trigger] s.drop_last()[i],
        ) by {
            assert(s.drop_last()[i] == s[i]);
        }
        lemma_filter_all(s.drop_last(), pred);
        assert(pred(s[s.len() - 1]));
        assert(s.drop_last().push(s.last()) =~= s);
    }
}

} // verus!
