//! Lists in a fixed order: a stable sort of anything that has one.

use vstd::prelude::*;

verus! {

/// Something that lists are sorted by.
pub trait Ordered: Sized {
    /// Whether one value may stand before another.
    spec fn before(self, other: Self) -> bool;

    fn is_before(&self, other: &Self) -> (r: bool)
        ensures
            r == self.before(*other),
    ;

    /// Any two values may stand one before the other, and what may stand before
    /// a value may stand before all that follow it.
    proof fn is_order(a: Self, b: Self, c: Self)
        ensures
            a.before(b) || b.before(a),
            a.before(b) && b.before(c) ==> a.before(c),
    ;
}

/// The place for a value among the first `n` of a sorted list: behind all that
/// may stand before it.
pub open spec fn place_for<T: Ordered>(list: Seq<T>, x: T, n: int) -> int
    decreases n,
{
    if n <= 0 || list[n - 1].before(x) {
        n
    } else {
        place_for(list, x, n - 1)
    }
}

/// The list in order; values that may stand either way keep their order.
pub open spec fn in_order<T: Ordered>(list: Seq<T>) -> Seq<T>
    decreases list.len(),
{
    if list.len() == 0 {
        list
    } else {
        let sorted = in_order(list.drop_last());
        sorted.insert(place_for(sorted, list.last(), sorted.len() as int), list.last())
    }
}

proof fn lemma_place<T: Ordered>(list: Seq<T>, x: T, n: int)
    requires
        0 <= n <= list.len(),
    ensures
        0 <= place_for(list, x, n) <= n,
        forall|k: int| place_for(list, x, n) <= k < n ==> !(#[trigger] list[k]).before(x),
        place_for(list, x, n) > 0 ==> list[place_for(list, x, n) - 1].before(x),
    decreases n,
{
    if n > 0 && !list[n - 1].before(x) {
        lemma_place(list, x, n - 1);
    }
}

/// Sorts a list.
pub fn sort<T: Ordered>(list: Vec<T>) -> (r: Vec<T>)
    ensures
        r@ == in_order(list@),
{
    let ghost all = list@;
    let mut left = list;
    let mut rest: Vec<T> = Vec::new();
    // Turn the list round, so that taking from its end goes through it in order.
    while left.len() > 0
        invariant
            left.len() + rest.len() == all.len(),
            forall|k: int| 0 <= k < left.len() ==> #[trigger] left@[k] == all[k],
            forall|k: int| 0 <= k < rest.len() ==> #[trigger] rest@[k] == all[all.len() - 1 - k],
        decreases left.len(),
    {
        match left.pop() {
            Some(x) => {
                rest.push(x);
            },
            None => {},
        }
    }
    let mut sorted: Vec<T> = Vec::new();
    assert(sorted@ =~= in_order(all.take(0)));
    while rest.len() > 0
        invariant
            sorted.len() + rest.len() == all.len(),
            sorted@ == in_order(all.take(sorted.len() as int)),
            forall|k: int| 0 <= k < rest.len() ==> #[trigger] rest@[k] == all[all.len() - 1 - k],
        decreases rest.len(),
    {
        match rest.pop() {
            Some(x) => {
                let ghost n = sorted.len() as int;
                let ghost before = sorted@;
                assert(x == all[n]);
                let mut i: usize = sorted.len();
                while i > 0 && !sorted[i - 1].is_before(&x)
                    invariant
                        i <= sorted.len(),
                        before == sorted@,
                        place_for(before, x, before.len() as int) == place_for(
                            before,
                            x,
                            i as int,
                        ),
                    decreases i,
                {
                    i -= 1;
                }
                assert(all.take(n + 1).drop_last() =~= all.take(n));
                assert(all.take(n + 1).last() == all[n]);
                sorted.insert(i, x);
            },
            None => {},
        }
    }
    assert(all.take(sorted.len() as int) =~= all);
    sorted
}

/// A sorted list is in order, and nothing is lost or added.
pub proof fn law_sort<T: Ordered>(list: Seq<T>)
    ensures
        in_order(list).len() == list.len(),
        in_order(list).to_multiset() == list.to_multiset(),
        forall|i: int, j: int|
            0 <= i < j < list.len() ==> (#[trigger] in_order(list)[i]).before(
                #[trigger] in_order(list)[j],
            ),
    decreases list.len(),
{
    if list.len() > 0 {
        let rest = list.drop_last();
        law_sort(rest);
        let sorted = in_order(rest);
        let x = list.last();
        let at = place_for(sorted, x, sorted.len() as int);
        lemma_place(sorted, x, sorted.len() as int);
        let r = in_order(list);
        assert forall|i: int, j: int| 0 <= i < j < list.len() implies (#[trigger] r[i]).before(
            #[trigger] r[j],
        ) by {
            let a = if i < at {
                i
            } else {
                i - 1
            };
            let b = if j < at {
                j
            } else {
                j - 1
            };
            if j == at {
                assert(r[i] == sorted[a]);
                T::is_order(sorted[a], sorted[at - 1], x);
                if a < at - 1 {
                    assert(sorted[a].before(sorted[at - 1]));
                }
            } else if i == at {
                assert(r[j] == sorted[b]);
                assert(!sorted[b].before(x));
                T::is_order(x, sorted[b], x);
            } else {
                assert(r[i] == sorted[a]);
                assert(r[j] == sorted[b]);
            }
        }
        assert(list =~= rest.push(x));
        assert(r.remove(at) =~= sorted);
        assert(r[at] == x);
        assert(r.contains(x));
        r.to_multiset_ensures();
        rest.to_multiset_ensures();
        assert(r.to_multiset() =~= r.to_multiset().remove(x).insert(x));
    } else {
        assert(in_order(list) =~= list);
    }
}

/// A list that is in order already stays as it is: what may stand either way is
/// not moved.
pub proof fn law_sorted_lists_stay<T: Ordered>(list: Seq<T>)
    requires
        forall|i: int, j: int|
            0 <= i < j < list.len() ==> (#[trigger] list[i]).before(#[trigger] list[j]),
    ensures
        in_order(list) == list,
    decreases list.len(),
{
    if list.len() > 0 {
        let front = list.drop_last();
        assert forall|i: int, j: int| 0 <= i < j < front.len() implies (#[trigger] front[i]).before(
            #[trigger] front[j],
        ) by {
            assert(list[i].before(list[j]));
        }
        law_sorted_lists_stay(front);
        let n = front.len() as int;
        if n > 0 {
            assert(list[n - 1].before(list[n]));
        }
        assert(place_for(front, list.last(), n) == n);
        assert(front.insert(n, list.last()) =~= list);
    }
}

} // verus!
