//! Sorting a collection by a comparator, stably: an item goes after every item
//! before it that it does not compare less than.
use vstd::prelude::*;
use std::cmp::Ordering;
use crate::collection::Collection;

verus! {

/// The positions of a vector of indices, as integers.
pub open spec fn ints(v: Seq<usize>) -> Seq<int> {
    v.map_values(|x: usize| x as int)
}

/// A length as an integer.
pub open spec fn len_int(n: nat) -> int {
    n as int
}

/// An index as an integer.
pub open spec fn idx_int(i: usize) -> int {
    i as int
}

proof fn lemma_ints_index(v: Seq<usize>, p: usize)
    requires
        p < v.len(),
    ensures
        ints(v)[p as int] == v[p as int] as int,
        ints(v).len() == v.len(),
{
}

proof fn lemma_ints_insert(v: Seq<usize>, p: usize, x: usize)
    requires
        p <= v.len(),
    ensures
        ints(v.insert(p as int, x)) == ints(v).insert(p as int, x as int),
{
    assert(ints(v.insert(p as int, x)) =~= ints(v).insert(p as int, x as int));
}

proof fn lemma_ints_take(v: Seq<usize>, p: usize)
    requires
        0 < p <= v.len(),
    ensures
        ints(v).take(p as int).drop_last() == ints(v).take(p - 1),
        ints(v).take(p as int).last() == v[p - 1] as int,
        ints(v).take(p as int).len() == p,
{
    assert(ints(v).take(p as int).drop_last() =~= ints(v).take(p - 1));
}

proof fn lemma_ints_full(v: Seq<usize>)
    ensures
        ints(v).take(v.len() as int) == ints(v),
{
    assert(ints(v).take(v.len() as int) =~= ints(v));
}

/// `a` compares less than `b`.
pub open spec fn precedes<T, F: Fn(&T, &T) -> Ordering>(f: F, a: T, b: T) -> bool {
    call_ensures(f, (&a, &b), Ordering::Less)
}

/// A comparator that can be called on any two items and answers each pair the
/// same way every time.
pub open spec fn deterministic<T, F: Fn(&T, &T) -> Ordering>(f: F) -> bool {
    &&& forall|a: &T, b: &T| #[trigger] call_requires(f, (a, b))
    &&& forall|a: &T, b: &T, o1: Ordering, o2: Ordering|
        #![trigger call_ensures(f, (a, b), o1), call_ensures(f, (a, b), o2)]
        call_ensures(f, (a, b), o1) && call_ensures(f, (a, b), o2) ==> o1 == o2
}

/// Where a stable insertion puts the item at `x` among the items at `order`:
/// after the last one that it does not compare less than.
pub open spec fn insert_at<T, F: Fn(&T, &T) -> Ordering>(
    f: F,
    items: Seq<T>,
    order: Seq<int>,
    x: int,
) -> int
    decreases order.len(),
{
    if order.len() == 0 {
        0
    } else if !precedes(f, items[x], items[order.last()]) {
        len_int(order.len())
    } else {
        insert_at(f, items, order.drop_last(), x)
    }
}

/// The order of the first `n` items sorted stably by the comparator, as indices.
pub open spec fn sorted_order<T, F: Fn(&T, &T) -> Ordering>(f: F, items: Seq<T>, n: int) -> Seq<int>
    decreases n,
{
    if n <= 0 {
        seq![]
    } else {
        let t = sorted_order(f, items, n - 1);
        t.insert(insert_at(f, items, t, n - 1), n - 1)
    }
}

/// The comparator never answers that `a` is less than `b` and `b` less than `a`.
pub open spec fn asymmetric<T, F: Fn(&T, &T) -> Ordering>(f: F) -> bool {
    forall|a: T, b: T| #[trigger] precedes(f, a, b) ==> !precedes(f, b, a)
}

/// Each index of `s` is below `n`, and none occurs twice.
pub open spec fn indices_below(s: Seq<int>, n: int) -> bool {
    &&& forall|k: int| 0 <= k < s.len() ==> 0 <= #[trigger] s[k] < n
    &&& s.no_duplicates()
}

/// No item of the order compares less than the one before it.
pub open spec fn adjacent_sorted<T, F: Fn(&T, &T) -> Ordering>(f: F, items: Seq<T>, s: Seq<int>) -> bool {
    forall|k: int| 0 <= k < s.len() - 1 ==> !precedes(f, items[#[trigger] s[k + 1]], items[s[k]])
}

proof fn lemma_insert_at<T, F: Fn(&T, &T) -> Ordering>(f: F, items: Seq<T>, order: Seq<int>, x: int)
    ensures
        0 <= insert_at(f, items, order, x) <= order.len(),
        forall|j: int|
            insert_at(f, items, order, x) <= j < order.len() ==> precedes(f, items[x], items[#[trigger] order[j]]),
        insert_at(f, items, order, x) > 0 ==> !precedes(
            f,
            items[x],
            items[order[insert_at(f, items, order, x) - 1]],
        ),
    decreases order.len(),
{
    if order.len() > 0 && precedes(f, items[x], items[order.last()]) {
        let d = order.drop_last();
        lemma_insert_at(f, items, d, x);
        assert forall|j: int| insert_at(f, items, order, x) <= j < order.len() implies precedes(
            f,
            items[x],
            items[#[trigger] order[j]],
        ) by {
            if j < d.len() {
                assert(order[j] == d[j]);
            }
        }
        if insert_at(f, items, order, x) > 0 {
            assert(order[insert_at(f, items, order, x) - 1] == d[insert_at(f, items, d, x) - 1]);
        }
    }
}

/// The sorted order of the first `n` items holds each of their indices once, and,
/// for a comparator that never answers both ways, no item in it compares less than
/// the one before it.
pub proof fn lemma_sorted_order<T, F: Fn(&T, &T) -> Ordering>(f: F, items: Seq<T>, n: int)
    requires
        0 <= n,
    ensures
        sorted_order(f, items, n).len() == n,
        indices_below(sorted_order(f, items, n), n),
        asymmetric(f) ==> adjacent_sorted(f, items, sorted_order(f, items, n)),
    decreases n,
{
    if n > 0 {
        let t = sorted_order(f, items, n - 1);
        lemma_sorted_order(f, items, n - 1);
        let p = insert_at(f, items, t, n - 1);
        lemma_insert_at(f, items, t, n - 1);
        let u = t.insert(p, n - 1);
        assert(u.len() == n);
        assert forall|k: int| 0 <= k < u.len() implies 0 <= #[trigger] u[k] < n by {
            if k < p {
                assert(u[k] == t[k]);
            } else if k > p {
                assert(u[k] == t[k - 1]);
            }
        }
        assert forall|a: int, b: int| 0 <= a < u.len() && 0 <= b < u.len() && a != b implies u[a]
            != u[b] by {
            if a != p && b != p {
                let ta = if a < p { a } else { a - 1 };
                let tb = if b < p { b } else { b - 1 };
                assert(u[a] == t[ta]);
                assert(u[b] == t[tb]);
                assert(ta != tb);
            } else if a == p {
                let tb = if b < p { b } else { b - 1 };
                assert(u[b] == t[tb]);
            } else {
                let ta = if a < p { a } else { a - 1 };
                assert(u[a] == t[ta]);
            }
        }
        if asymmetric(f) {
            assert forall|k: int| 0 <= k < u.len() - 1 implies !precedes(
                f,
                items[#[trigger] u[k + 1]],
                items[u[k]],
            ) by {
                if k + 1 < p {
                    assert(u[k] == t[k] && u[k + 1] == t[k + 1]);
                } else if k + 1 == p {
                    assert(u[k] == t[k] && u[k + 1] == n - 1);
                } else if k == p {
                    assert(u[k] == n - 1 && u[k + 1] == t[k]);
                    assert(precedes(f, items[n - 1], items[t[k]]));
                } else {
                    assert(u[k] == t[k - 1] && u[k + 1] == t[k]);
                    assert(t[k] == t[(k - 1) + 1]);
                }
            }
        }
    }
}

impl<T> Collection<T> {
    /// The items sorted by `f`, stably; each item of the result is a clone of the
    /// item at that place of the sorted order.
    pub fn sort_by<F: Fn(&T, &T) -> Ordering>(&self, f: F) -> (r: Collection<T>)
        where
            T: Clone,
        requires
            deterministic(f),
        ensures
            r@.len() == self@.len(),
            forall|k: int|
                0 <= k < r@.len() ==> cloned(
                    self@[sorted_order(f, self@, len_int(self@.len()))[k]],
                    #[trigger] r@[k],
                ),
            sorted_order(f, self@, len_int(self@.len())).len() == self@.len(),
            indices_below(sorted_order(f, self@, len_int(self@.len())), len_int(self@.len())),
            asymmetric(f) ==> adjacent_sorted(f, self@, sorted_order(f, self@, len_int(self@.len()))),
    {
        proof {
            lemma_sorted_order(f, self@, len_int(self@.len()));
        }
        let items = self.items();
        let n = items.len();
        let mut order: Vec<usize> = Vec::new();
        let mut i: usize = 0;
        while i < n
            invariant
                i <= n,
                n == self@.len(),
                items@ == self@,
                deterministic(f),
                order@.len() == i,
                ints(order@) == sorted_order(f, self@, idx_int(i)),
                forall|j: int| 0 <= j < order@.len() ==> #[trigger] order@[j] < i,
            decreases n - i,
        {
            let mut p: usize = order.len();
            proof {
                lemma_ints_full(order@);
            }
            loop
                invariant
                    p <= order@.len(),
                    i < n,
                    n == self@.len(),
                    items@ == self@,
                    deterministic(f),
                    forall|j: int| 0 <= j < order@.len() ==> #[trigger] order@[j] < i,
                    insert_at(f, self@, ints(order@), idx_int(i)) == insert_at(
                        f,
                        self@,
                        ints(order@).take(idx_int(p)),
                        idx_int(i),
                    ),
                ensures
                    insert_at(f, self@, ints(order@), idx_int(i)) == idx_int(p),
                decreases p,
            {
                if p == 0 {
                    break;
                }
                let y = order[p - 1];
                proof {
                    lemma_ints_take(order@, p);
                }
                let o = f(&items[i], &items[y]);
                let less = match o {
                    Ordering::Less => true,
                    _ => false,
                };
                if !less {
                    break;
                }
                p -= 1;
            }
            proof {
                lemma_ints_insert(order@, p, i);
            }
            order.insert(p, i);
            i += 1;
        }
        let mut out: Vec<T> = Vec::new();
        let mut k: usize = 0;
        while k < n
            invariant
                k <= n,
                n == self@.len(),
                items@ == self@,
                order@.len() == n,
                ints(order@) == sorted_order(f, self@, idx_int(n)),
                forall|j: int| 0 <= j < order@.len() ==> #[trigger] order@[j] < n,
                out@.len() == k,
                forall|j: int|
                    0 <= j < k ==> cloned(self@[sorted_order(f, self@, idx_int(n))[j]], #[trigger] out@[j]),
            decreases n - k,
        {
            let idx = order[k];
            proof {
                lemma_ints_index(order@, k);
            }
            let c = items[idx].clone();
            out.push(c);
            k += 1;
        }
        Collection::new(out)
    }
}

} // verus!
