//! Orders on text and on paths, and a stable sort.

use vstd::prelude::*;

use crate::text::{chars_of, same_text, views};

verus! {

/// Whether `a` comes before `b`, by the first character in which they differ.
pub open spec fn text_less(a: Seq<char>, b: Seq<char>) -> bool
    decreases b.len(),
{
    if b.len() == 0 {
        false
    } else if a.len() == 0 {
        true
    } else if a[0] != b[0] {
        a[0] < b[0]
    } else {
        text_less(a.drop_first(), b.drop_first())
    }
}

/// Whether the path `a` comes before the path `b`, by the first part in which they differ.
pub open spec fn path_less(a: Seq<Seq<char>>, b: Seq<Seq<char>>) -> bool
    decreases b.len(),
{
    if b.len() == 0 {
        false
    } else if a.len() == 0 {
        true
    } else if a[0] != b[0] {
        text_less(a[0], b[0])
    } else {
        path_less(a.drop_first(), b.drop_first())
    }
}

/// Of two texts at most one comes before the other; exactly one does where they differ.
pub proof fn text_less_is_total(a: Seq<char>, b: Seq<char>)
    ensures
        !(text_less(a, b) && text_less(b, a)),
        a != b ==> text_less(a, b) || text_less(b, a),
        a == b ==> !text_less(a, b),
    decreases b.len(),
{
    if a.len() > 0 && b.len() > 0 && a[0] == b[0] {
        text_less_is_total(a.drop_first(), b.drop_first());
        if a.drop_first() == b.drop_first() {
            assert(a =~= seq![a[0]] + a.drop_first());
            assert(b =~= seq![b[0]] + b.drop_first());
        }
    } else if a.len() == 0 && b.len() == 0 {
        assert(a =~= b);
    }
}

/// A text before another is before all that the other is before.
pub proof fn text_less_is_transitive(a: Seq<char>, b: Seq<char>, c: Seq<char>)
    requires
        text_less(a, b),
        text_less(b, c),
    ensures
        text_less(a, c),
    decreases c.len(),
{
    if a.len() > 0 && a[0] == b[0] && b[0] == c[0] {
        text_less_is_transitive(a.drop_first(), b.drop_first(), c.drop_first());
    }
}

/// Of two paths at most one comes before the other; exactly one does where they differ.
pub proof fn path_less_is_total(a: Seq<Seq<char>>, b: Seq<Seq<char>>)
    ensures
        !(path_less(a, b) && path_less(b, a)),
        a != b ==> path_less(a, b) || path_less(b, a),
        a == b ==> !path_less(a, b),
    decreases b.len(),
{
    if a.len() > 0 && b.len() > 0 {
        text_less_is_total(a[0], b[0]);
        if a[0] == b[0] {
            path_less_is_total(a.drop_first(), b.drop_first());
            if a.drop_first() == b.drop_first() {
                assert(a =~= seq![a[0]] + a.drop_first());
                assert(b =~= seq![b[0]] + b.drop_first());
            }
        }
    } else if a.len() == 0 && b.len() == 0 {
        assert(a =~= b);
    }
}

/// A path before another is before all that the other is before.
pub proof fn path_less_is_transitive(a: Seq<Seq<char>>, b: Seq<Seq<char>>, c: Seq<Seq<char>>)
    requires
        path_less(a, b),
        path_less(b, c),
    ensures
        path_less(a, c),
    decreases c.len(),
{
    if a.len() > 0 {
        if a[0] == b[0] && b[0] == c[0] {
            path_less_is_transitive(a.drop_first(), b.drop_first(), c.drop_first());
        } else if a[0] != b[0] && b[0] != c[0] {
            text_less_is_transitive(a[0], b[0], c[0]);
            text_less_is_total(a[0], b[0]);
        }
    }
}

/// Whether `a` comes before `b`.
pub fn is_text_less(a: &str, b: &str) -> (less: bool)
    ensures
        less == text_less(a@, b@),
{
    let left = chars_of(a);
    let right = chars_of(b);
    let mut i: usize = 0;
    assert(a@.skip(0) =~= a@);
    assert(b@.skip(0) =~= b@);
    while i < left.len() && i < right.len() && left[i] == right[i]
        invariant
            left@ == a@,
            right@ == b@,
            i <= left@.len(),
            i <= right@.len(),
            text_less(a@, b@) == text_less(a@.skip(i as int), b@.skip(i as int)),
        decreases left@.len() - i,
    {
        assert(a@.skip(i as int).drop_first() =~= a@.skip(i + 1));
        assert(b@.skip(i as int).drop_first() =~= b@.skip(i + 1));
        i += 1;
    }
    if i == right.len() {
        false
    } else if i == left.len() {
        true
    } else {
        left[i] < right[i]
    }
}

/// Whether the path with the parts `a` comes before that with the parts `b`.
pub fn is_path_less(a: &Vec<String>, b: &Vec<String>) -> (less: bool)
    ensures
        less == path_less(views(a@), views(b@)),
{
    let ghost left = views(a@);
    let ghost right = views(b@);
    let mut i: usize = 0;
    assert(left.skip(0) =~= left);
    assert(right.skip(0) =~= right);
    while i < a.len() && i < b.len() && same_text(a[i].as_str(), b[i].as_str())
        invariant
            left == views(a@),
            right == views(b@),
            i <= a@.len(),
            i <= b@.len(),
            path_less(left, right) == path_less(left.skip(i as int), right.skip(i as int)),
        decreases a@.len() - i,
    {
        assert(left.skip(i as int).drop_first() =~= left.skip(i + 1));
        assert(right.skip(i as int).drop_first() =~= right.skip(i + 1));
        assert(left[i as int] == right[i as int]);
        i += 1;
    }
    if i == b.len() {
        false
    } else if i == a.len() {
        true
    } else {
        assert(left[i as int] == a@[i as int]@ && right[i as int] == b@[i as int]@);
        is_text_less(a[i].as_str(), b[i].as_str())
    }
}

/// Values that can be sorted.
pub trait Sortable: Sized {
    /// Whether `self` belongs after `other`.
    spec fn after(self, other: Self) -> bool;

    proof fn after_is_an_order(a: Self, b: Self, c: Self)
        ensures
            !(a.after(b) && b.after(a)),
            !a.after(b) && !b.after(c) ==> !a.after(c),
    ;

    fn is_after(&self, other: &Self) -> (after: bool)
        ensures
            after == self.after(*other),
    ;
}

/// `items` with `item` put behind all that it does not have to stand before.
pub open spec fn placed<T: Sortable>(items: Seq<T>, item: T) -> Seq<T>
    decreases items.len(),
{
    if items.len() > 0 && items.last().after(item) {
        placed(items.drop_last(), item).push(items.last())
    } else {
        items.push(item)
    }
}

/// `items` in order; those of which neither belongs after the other keep their places.
pub open spec fn in_order<T: Sortable>(items: Seq<T>) -> Seq<T>
    decreases items.len(),
{
    if items.len() == 0 {
        seq![]
    } else {
        placed(in_order(items.drop_last()), items.last())
    }
}

proof fn lemma_placed<T: Sortable>(items: Seq<T>, item: T, at: int)
    requires
        0 <= at <= items.len(),
        forall|i: int| at <= i < items.len() ==> (#[trigger] items[i]).after(item),
        at > 0 ==> !items[at - 1].after(item),
    ensures
        placed(items, item) == items.insert(at, item),
    decreases items.len(),
{
    if at < items.len() {
        let rest = items.drop_last();
        assert forall|i: int| at <= i < rest.len() implies (#[trigger] rest[i]).after(item) by {
            assert(rest[i] == items[i]);
        }
        assert(items[items.len() - 1].after(item));
        lemma_placed(rest, item, at);
        assert(rest.insert(at, item).push(items.last()) =~= items.insert(at, item));
    } else {
        assert(items.insert(at, item) =~= items.push(item));
    }
}

/// Where `item` is put: behind what it does not have to stand before, and before what belongs
/// after it.
pub proof fn lemma_place<T: Sortable>(items: Seq<T>, item: T) -> (at: int)
    ensures
        0 <= at <= items.len(),
        placed(items, item) == items.insert(at, item),
        at > 0 ==> !items[at - 1].after(item),
        forall|i: int| at <= i < items.len() ==> (#[trigger] items[i]).after(item),
    decreases items.len(),
{
    if items.len() > 0 && items.last().after(item) {
        let rest = items.drop_last();
        let at = lemma_place(rest, item);
        assert forall|i: int| at <= i < items.len() implies (#[trigger] items[i]).after(item) by {
            if i < rest.len() {
                assert(rest[i] == items[i]);
            }
        }
        if at > 0 {
            assert(rest[at - 1] == items[at - 1]);
        }
        lemma_placed(items, item, at);
        at
    } else {
        lemma_placed(items, item, items.len() as int);
        items.len() as int
    }
}

/// Puts `item` in its place among `items`.
pub fn place<T: Sortable>(items: &mut Vec<T>, item: T)
    ensures
        final(items)@ == placed(old(items)@, item),
{
    let mut at: usize = items.len();
    while at > 0 && items[at - 1].is_after(&item)
        invariant
            at <= items@.len(),
            forall|i: int| at <= i < items@.len() ==> (#[trigger] items@[i]).after(item),
        decreases at,
    {
        at -= 1;
    }
    proof {
        lemma_placed(items@, item, at as int);
    }
    items.insert(at, item);
}

proof fn lemma_placed_sorted<T: Sortable>(items: Seq<T>, item: T)
    requires
        forall|i: int, j: int|
            0 <= i < j < items.len() ==> !(#[trigger] items[i]).after(#[trigger] items[j]),
    ensures
        forall|i: int, j: int|
            0 <= i < j < placed(items, item).len() ==> !(#[trigger] placed(items, item)[i]).after(
                #[trigger] placed(items, item)[j],
            ),
        placed(items, item).to_multiset() == items.to_multiset().insert(item),
        placed(items, item).len() == items.len() + 1,
        forall|i: int|
            0 <= i < placed(items, item).len() ==> (#[trigger] placed(items, item)[i]) == item
                || items.contains(placed(items, item)[i]),
    decreases items.len(),
{
    broadcast use vstd::seq_lib::group_to_multiset_ensures;

    let result = placed(items, item);
    if items.len() > 0 && items.last().after(item) {
        let rest = items.drop_last();
        let last = items.last();
        assert forall|i: int, j: int| 0 <= i < j < rest.len() implies !(#[trigger] rest[i]).after(
            #[trigger] rest[j],
        ) by {
            assert(rest[i] == items[i] && rest[j] == items[j]);
        }
        lemma_placed_sorted(rest, item);
        let front = placed(rest, item);
        assert(items =~= rest.push(last));
        assert forall|i: int| 0 <= i < result.len() implies (#[trigger] result[i]) == item
            || items.contains(result[i]) by {
            if i < front.len() {
                assert(result[i] == front[i]);
                if front[i] != item {
                    let k = choose|k: int| 0 <= k < rest.len() && rest[k] == front[i];
                    assert(items[k] == front[i]);
                }
            } else {
                assert(items[items.len() - 1] == result[i]);
            }
        }
        assert forall|i: int, j: int| 0 <= i < j < result.len() implies !(
        #[trigger] result[i]).after(#[trigger] result[j]) by {
            if j < front.len() {
                assert(result[i] == front[i] && result[j] == front[j]);
            } else {
                assert(result[i] == front[i]);
                T::after_is_an_order(last, item, item);
                if front[i] != item {
                    let k = choose|k: int| 0 <= k < rest.len() && rest[k] == front[i];
                    assert(items[k] == front[i]);
                    assert(items[items.len() - 1] == last);
                }
            }
        }
    } else {
        assert forall|i: int| 0 <= i < result.len() implies (#[trigger] result[i]) == item
            || items.contains(result[i]) by {
            if i < items.len() {
                assert(items[i] == result[i]);
            }
        }
        assert forall|i: int, j: int| 0 <= i < j < result.len() implies !(
        #[trigger] result[i]).after(#[trigger] result[j]) by {
            if j < items.len() {
                assert(result[i] == items[i] && result[j] == items[j]);
            } else {
                assert(result[i] == items[i]);
                let last = items.last();
                if i < items.len() - 1 {
                    assert(!items[i].after(items[items.len() - 1]));
                    T::after_is_an_order(items[i], last, item);
                }
            }
        }
    }
}

/// Sorting neither loses nor adds anything, and leaves nothing before what it belongs after.
pub proof fn in_order_is_sorted<T: Sortable>(items: Seq<T>)
    ensures
        in_order(items).to_multiset() == items.to_multiset(),
        in_order(items).len() == items.len(),
        forall|i: int, j: int|
            0 <= i < j < in_order(items).len() ==> !(#[trigger] in_order(items)[i]).after(
                #[trigger] in_order(items)[j],
            ),
    decreases items.len(),
{
    broadcast use vstd::seq_lib::group_to_multiset_ensures;

    if items.len() > 0 {
        let rest = items.drop_last();
        in_order_is_sorted(rest);
        lemma_placed_sorted(in_order(rest), items.last());
        assert(items =~= rest.push(items.last()));
    } else {
        assert(items =~= seq![]);
    }
}

/// The first character in which two texts differ decides which of them comes first; a text comes
/// before any that goes on where it ends.
pub proof fn first_difference_orders_texts(
    same: Seq<char>,
    a: char,
    b: char,
    after_a: Seq<char>,
    after_b: Seq<char>,
)
    ensures
        a != b ==> (text_less(same + seq![a] + after_a, same + seq![b] + after_b) <==> (a as u32) < (
        b as u32)),
        text_less(same, same + seq![a] + after_a),
        !text_less(same + seq![a] + after_a, same),
    decreases same.len(),
{
    let x = same + seq![a] + after_a;
    let y = same + seq![b] + after_b;
    if same.len() > 0 {
        let rest = same.drop_first();
        first_difference_orders_texts(rest, a, b, after_a, after_b);
        assert(x.drop_first() =~= rest + seq![a] + after_a);
        assert(y.drop_first() =~= rest + seq![b] + after_b);
        assert(x[0] == same[0] && y[0] == same[0]);
    } else {
        assert(x[0] == a && y[0] == b);
    }
}

/// The first part in which two paths differ decides which of them comes first, by the order of
/// texts; a path comes before those below it.
pub proof fn first_difference_orders_paths(
    same: Seq<Seq<char>>,
    a: Seq<char>,
    b: Seq<char>,
    below_a: Seq<Seq<char>>,
    below_b: Seq<Seq<char>>,
)
    ensures
        a != b ==> (path_less(same + seq![a] + below_a, same + seq![b] + below_b) <==> text_less(
            a,
            b,
        )),
        path_less(same, same + seq![a] + below_a),
        !path_less(same + seq![a] + below_a, same),
    decreases same.len(),
{
    let x = same + seq![a] + below_a;
    let y = same + seq![b] + below_b;
    if same.len() > 0 {
        let rest = same.drop_first();
        first_difference_orders_paths(rest, a, b, below_a, below_b);
        assert(x.drop_first() =~= rest + seq![a] + below_a);
        assert(y.drop_first() =~= rest + seq![b] + below_b);
        assert(x[0] == same[0] && y[0] == same[0]);
    } else {
        assert(x[0] == a && y[0] == b);
    }
}

} // verus!
