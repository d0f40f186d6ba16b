//! Ordering of text and stable sorting.

use crate::text::chars;
use vstd::prelude::*;

verus! {

/// Lexicographic order by scalar value.
pub open spec fn precedes(a: Seq<char>, b: Seq<char>) -> bool
    decreases a.len(),
{
    if a.len() == 0 {
        true
    } else if b.len() == 0 {
        false
    } else if a[0] == b[0] {
        precedes(a.skip(1), b.skip(1))
    } else {
        a[0] < b[0]
    }
}

pub proof fn lemma_precedes_total(a: Seq<char>, b: Seq<char>)
    ensures
        precedes(a, b) || precedes(b, a),
        precedes(a, b) && precedes(b, a) ==> a == b,
    decreases a.len(),
{
    if a.len() > 0 && b.len() > 0 && a[0] == b[0] {
        lemma_precedes_total(a.skip(1), b.skip(1));
        if a.skip(1) == b.skip(1) {
            assert(a =~= seq![a[0]] + a.skip(1));
            assert(b =~= seq![b[0]] + b.skip(1));
        }
    } else if a.len() == 0 && b.len() == 0 {
        assert(a =~= b);
    }
}

pub proof fn lemma_precedes_chain(a: Seq<char>, b: Seq<char>, c: Seq<char>)
    requires
        precedes(a, b),
        precedes(b, c),
    ensures
        precedes(a, c),
    decreases a.len(),
{
    if a.len() > 0 && b.len() > 0 && c.len() > 0 {
        if a[0] == b[0] && b[0] == c[0] {
            lemma_precedes_chain(a.skip(1), b.skip(1), c.skip(1));
        }
    }
}

/// Whether one string stands before another or equals it.
pub fn text_precedes(a: &str, b: &str) -> (r: bool)
    ensures
        r == precedes(a@, b@),
{
    let x = chars(a);
    let y = chars(b);
    let mut i: usize = 0;
    assert(a@.skip(0) =~= a@);
    assert(b@.skip(0) =~= b@);
    while i < x.len() && i < y.len()
        invariant
            i <= x.len(),
            i <= y.len(),
            x@ == a@,
            y@ == b@,
            precedes(a@, b@) == precedes(a@.skip(i as int), b@.skip(i as int)),
        decreases x.len() - i,
    {
        if x[i] != y[i] {
            return x[i] < y[i];
        }
        assert(a@.skip(i as int).skip(1) =~= a@.skip(i + 1));
        assert(b@.skip(i as int).skip(1) =~= b@.skip(i + 1));
        i += 1;
    }
    i == x.len()
}

/// Values with a total preorder: a rank that sorting goes by.
pub trait Ranked: Sized {
    /// Whether this value's rank is at most the other's.
    spec fn upto(&self, other: &Self) -> bool;

    proof fn upto_total(a: &Self, b: &Self)
        ensures
            a.upto(b) || b.upto(a),
    ;

    proof fn upto_chain(a: &Self, b: &Self, c: &Self)
        requires
            a.upto(b),
            b.upto(c),
        ensures
            a.upto(c),
    ;

    fn is_upto(&self, other: &Self) -> (r: bool)
        ensures
            r == self.upto(other),
    ;
}

impl Ranked for String {
    open spec fn upto(&self, other: &Self) -> bool {
        precedes(self@, other@)
    }

    proof fn upto_total(a: &Self, b: &Self) {
        lemma_precedes_total(a@, b@);
    }

    proof fn upto_chain(a: &Self, b: &Self, c: &Self) {
        lemma_precedes_chain(a@, b@, c@);
    }

    fn is_upto(&self, other: &Self) -> (r: bool) {
        text_precedes(self.as_str(), other.as_str())
    }
}

/// Whether no item outranks one behind it.
pub open spec fn in_order<T: Ranked>(items: Seq<T>) -> bool {
    forall|i: int, j: int|
        #![trigger items[i], items[j]]
        0 <= i < j < items.len() ==> items[i].upto(&items[j])
}

/// The items that rank with `item`, in their order.
pub open spec fn peers<T: Ranked>(items: Seq<T>, item: T) -> Seq<T> {
    items.filter(|other: T| other.upto(&item) && item.upto(&other))
}

/// Whether `after` holds the items of `before` sorted: in order, and for each
/// rank the same items in the same order.
pub open spec fn sorts<T: Ranked>(before: Seq<T>, after: Seq<T>) -> bool {
    &&& in_order(after)
    &&& before.to_multiset() == after.to_multiset()
    &&& forall|item: T| #[trigger] peers(after, item) == peers(before, item)
}

proof fn lemma_filter_concat<T>(a: Seq<T>, b: Seq<T>, keep: spec_fn(T) -> bool)
    ensures
        (a + b).filter(keep) == a.filter(keep) + b.filter(keep),
{
    Seq::filter_distributes_over_add(a, b, keep);
}

proof fn lemma_filter_none<T>(a: Seq<T>, keep: spec_fn(T) -> bool)
    requires
        forall|i: int| 0 <= i < a.len() ==> !keep(#[trigger] a[i]),
    ensures
        a.filter(keep) == Seq::<T>::empty(),
    decreases a.len(),
{
    reveal(Seq::filter);
    if a.len() > 0 {
        let head = a.drop_last();
        assert forall|i: int| 0 <= i < head.len() implies !keep(#[trigger] head[i]) by {
            assert(head[i] == a[i]);
        }
        lemma_filter_none(head, keep);
        assert(!keep(a.last()));
    }
}

proof fn lemma_insert_sorts<T: Ranked>(before: Seq<T>, sorted: Seq<T>, item: T, at: int)
    requires
        sorts(before, sorted),
        0 <= at <= sorted.len(),
        forall|i: int| 0 <= i < at ==> (#[trigger] sorted[i]).upto(&item),
        at < sorted.len() ==> !sorted[at].upto(&item),
    ensures
        sorts(before.push(item), sorted.insert(at, item)),
{
    let after = sorted.insert(at, item);
    assert forall|i: int| at <= i < sorted.len() implies !(#[trigger] sorted[i]).upto(&item)
        && item.upto(&sorted[i]) by {
        T::upto_total(&item, &sorted[i]);
        if sorted[i].upto(&item) {
            if i > at {
                assert(sorted[at].upto(&sorted[i]));
                T::upto_chain(&sorted[at], &sorted[i], &item);
            }
        }
    }
    assert forall|i: int, j: int|
        #![trigger after[i], after[j]]
        0 <= i < j < after.len() implies after[i].upto(&after[j]) by {
        let a = if i < at { i } else { i - 1 };
        let b = if j < at { j } else { j - 1 };
        if i == at {
            assert(after[j] == sorted[b]);
        } else if j == at {
            assert(after[i] == sorted[a]);
        } else {
            assert(after[i] == sorted[a]);
            assert(after[j] == sorted[b]);
        }
    }
    let low = sorted.take(at);
    let high = sorted.skip(at);
    assert(sorted =~= low + high);
    assert(after =~= low + seq![item] + high);
    assert(before.push(item).to_multiset() =~= before.to_multiset().insert(item)) by {
        broadcast use vstd::seq_lib::group_to_multiset_ensures;
    }
    assert(after.to_multiset() =~= sorted.to_multiset().insert(item)) by {
        broadcast use vstd::seq_lib::group_to_multiset_ensures;
    }
    assert forall|other: T| #[trigger] peers(after, other) == peers(before.push(item), other) by {
        let keep = |o: T| o.upto(&other) && other.upto(&o);
        assert(peers(sorted, other) == peers(before, other));
        lemma_filter_concat(low, high, keep);
        lemma_filter_concat(low + seq![item], high, keep);
        lemma_filter_concat(low, seq![item], keep);
        lemma_filter_concat(before, seq![item], keep);
        assert(before.push(item) =~= before + seq![item]);
        assert(peers(after, other) == low.filter(keep) + seq![item].filter(keep) + high.filter(keep));
        assert(peers(before.push(item), other) == low.filter(keep) + high.filter(keep)
            + seq![item].filter(keep));
        if keep(item) {
            assert forall|i: int| 0 <= i < high.len() implies !keep(#[trigger] high[i]) by {
                assert(high[i] == sorted[at + i]);
                if keep(high[i]) {
                    T::upto_chain(&high[i], &other, &item);
                }
            }
            lemma_filter_none(high, keep);
            assert(peers(after, other) =~= peers(before.push(item), other));
        } else {
            assert forall|i: int| 0 <= i < seq![item].len() implies !keep(
                #[trigger] seq![item][i],
            ) by {}
            lemma_filter_none(seq![item], keep);
            assert(peers(after, other) =~= peers(before.push(item), other));
        }
    }
}

/// Sorts a list by rank and leaves items of one rank in their order.
pub fn sort<T: Ranked>(items: Vec<T>) -> (out: Vec<T>)
    ensures
        sorts(items@, out@),
{
    let mut out: Vec<T> = Vec::new();
    assert(items@.take(0) =~= out@);
    for item in it: items
        invariant
            it.seq() == items@,
            sorts(items@.take(it.index()), out@),
    {
        let ghost head = items@.take(it.index());
        let mut at: usize = out.len();
        while at > 0 && !out[at - 1].is_upto(&item)
            invariant
                at <= out.len(),
                in_order(out@),
                at < out.len() ==> !out@[at as int].upto(&item),
            decreases at,
        {
            at -= 1;
        }
        proof {
            if at > 0 {
                assert forall|i: int| 0 <= i < at implies (#[trigger] out@[i]).upto(&item) by {
                    if i < at - 1 {
                        T::upto_chain(&out@[i], &out@[at - 1], &item);
                    }
                }
            }
            lemma_insert_sorts(head, out@, item, at as int);
        }
        assert(items@.take(it.index() + 1) =~= head.push(item));
        out.insert(at, item);
    }
    assert(items@.take(items.len() as int) =~= items@);
    out
}

/// Whether `found` is what stands in `all` at the given places, in the order
/// of `all`, each place once.
pub open spec fn taken_at<T>(all: Seq<T>, places: Seq<int>, found: Seq<T>) -> bool {
    &&& found.len() == places.len()
    &&& forall|i: int|
        #![trigger places[i]]
        #![trigger found[i]]
        0 <= i < places.len() ==> 0 <= places[i] < all.len() && found[i] == all[places[i]]
    &&& forall|i: int, j: int|
        #![trigger places[i], places[j]]
        0 <= i < j < places.len() ==> places[i] < places[j]
}

/// What stands in `all` at the given places.
pub open spec fn at_places<T>(all: Seq<T>, places: Seq<int>) -> Seq<T> {
    Seq::new(places.len(), |i: int| all[places[i]])
}

/// The first of each pair.
pub open spec fn firsts<A, B>(pairs: Seq<(A, B)>) -> Seq<A> {
    Seq::new(pairs.len(), |i: int| pairs[i].0)
}

/// What a filter keeps stands at some places, in order, and these are all the
/// places of what is to be kept.
pub proof fn lemma_filter_places<T>(all: Seq<T>, keep: spec_fn(T) -> bool) -> (places: Seq<int>)
    ensures
        taken_at(all, places, all.filter(keep)),
        forall|k: int|
            #![trigger places.contains(k)]
            0 <= k < all.len() ==> (places.contains(k) <==> keep(all[k])),
    decreases all.len(),
{
    reveal(Seq::filter);
    if all.len() == 0 {
        Seq::empty()
    } else {
        let short = all.drop_last();
        let last = all.len() - 1;
        let before = lemma_filter_places(short, keep);
        if keep(all.last()) {
            let places = before.push(last);
            assert forall|k: int|
                #![trigger places.contains(k)]
                0 <= k < all.len() implies (places.contains(k) <==> keep(all[k])) by {
                if k < last {
                    assert(short[k] == all[k]);
                    assert(before.contains(k) <==> keep(short[k]));
                    if before.contains(k) {
                        let i = choose|i: int| 0 <= i < before.len() && before[i] == k;
                        assert(places[i] == k);
                    }
                    if places.contains(k) {
                        let i = choose|i: int| 0 <= i < places.len() && places[i] == k;
                        assert(before[i] == k);
                    }
                } else {
                    assert(places[before.len() as int] == k);
                }
            }
            places
        } else {
            assert forall|k: int|
                #![trigger before.contains(k)]
                0 <= k < all.len() implies (before.contains(k) <==> keep(all[k])) by {
                if k < last {
                    assert(short[k] == all[k]);
                } else if before.contains(k) {
                    let i = choose|i: int| 0 <= i < before.len() && before[i] == k;
                    assert(before[i] < short.len());
                }
            }
            before
        }
    }
}

/// Text is ordered by its first difference: texts that agree up to some place
/// are ordered by what stands there, and a beginning comes before the whole.
pub proof fn law_first_difference_decides(
    head: Seq<char>,
    a: char,
    b: char,
    left: Seq<char>,
    right: Seq<char>,
)
    ensures
        precedes(head, head + left),
        left.len() > 0 ==> !precedes(head + left, head),
        a != b ==> (precedes(head + seq![a] + left, head + seq![b] + right) <==> a < b),
    decreases head.len(),
{
    let x = head + seq![a] + left;
    let y = head + seq![b] + right;
    if head.len() == 0 {
        assert(head + left =~= left);
        assert(x[0] == a && y[0] == b);
    } else {
        let rest = head.skip(1);
        law_first_difference_decides(rest, a, b, left, right);
        assert((head + left).skip(1) =~= rest + left);
        assert(x.skip(1) =~= rest + seq![a] + left);
        assert(y.skip(1) =~= rest + seq![b] + right);
        assert(x[0] == head[0] && y[0] == head[0]);
    }
}

/// A sorted list has every item as often as before, none behind one that it
/// comes before, and items of one rank as they stood.
pub proof fn law_sorting_keeps_items<T: Ranked>(items: Vec<T>, out: Vec<T>, item: T)
    requires
        call_ensures(sort::<T>, (items,), out),
    ensures
        out@.len() == items@.len(),
        out@.to_multiset().count(item) == items@.to_multiset().count(item),
        out@.contains(item) <==> items@.contains(item),
        forall|i: int, j: int|
            #![trigger out@[i], out@[j]]
            0 <= i < j < out@.len() ==> out@[i].upto(&out@[j]),
{
    broadcast use vstd::seq_lib::group_to_multiset_ensures;

    assert(items@.to_multiset().len() == items@.len());
    assert(out@.to_multiset().len() == out@.len());
    assert(items@.contains(item) <==> items@.to_multiset().count(item) > 0);
    assert(out@.contains(item) <==> out@.to_multiset().count(item) > 0);
}

} // verus!
