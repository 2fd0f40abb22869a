//! A fluent wrapper around a vector of items.
use vstd::prelude::*;
use vstd::std_specs::cmp::PartialEqSpec;

verus! {

/// An ordered collection of items.
#[derive(Debug, Clone)]
pub struct Collection<T> {
    items: Vec<T>,
}

impl<T> View for Collection<T> {
    type V = Seq<T>;

    closed spec fn view(&self) -> Seq<T> {
        self.items@
    }
}

/// The items of a sequence of references, dereferenced.
pub open spec fn derefs<T>(s: Seq<&T>) -> Seq<T> {
    s.map_values(|x: &T| *x)
}

/// The items of `s` whose entry in `keep` is true, in order.
pub open spec fn select<T>(s: Seq<T>, keep: Seq<bool>) -> Seq<T>
    decreases s.len(),
{
    if s.len() == 0 {
        Seq::empty()
    } else {
        let rest = select(s.drop_last(), keep.take(s.len() - 1));
        if keep[s.len() - 1] {
            rest.push(s.last())
        } else {
            rest
        }
    }
}

/// `s` cut into consecutive pieces of `size` items; the last piece may be shorter.
pub open spec fn chunks_of<T>(s: Seq<T>, size: nat) -> Seq<Seq<T>>
    decreases s.len(),
{
    if size == 0 || s.len() == 0 {
        Seq::empty()
    } else if s.len() <= size {
        seq![s]
    } else {
        seq![s.take(size as int)] + chunks_of(s.skip(size as int), size)
    }
}

/// No item before position `i` equals the item at `i`.
pub open spec fn is_first_occurrence<T: PartialEq>(s: Seq<T>, i: int) -> bool {
    forall|j: int| 0 <= j < i ==> !s[j].eq_spec(&s[i])
}

/// The positions of the first occurrences in `s`, in order.
pub open spec fn first_occurrences<T: PartialEq>(s: Seq<T>) -> Seq<int>
    decreases s.len(),
{
    if s.len() == 0 {
        Seq::empty()
    } else {
        let rest = first_occurrences(s.drop_last());
        if is_first_occurrence(s, s.len() - 1) {
            rest.push(s.len() - 1)
        } else {
            rest
        }
    }
}

/// The sum of a sequence of integers.
pub open spec fn total(s: Seq<i64>) -> int
    decreases s.len(),
{
    if s.len() == 0 {
        0
    } else {
        total(s.drop_last()) + s.last()
    }
}

/// Every running total of `s` fits in an `i64`.
pub open spec fn sums_fit(s: Seq<i64>) -> bool {
    forall|k: int| 0 <= k <= s.len() ==> i64::MIN <= #[trigger] total(s.take(k)) <= i64::MAX
}

proof fn lemma_select_push<T>(s: Seq<T>, keep: Seq<bool>, x: T, b: bool)
    requires
        keep.len() == s.len(),
    ensures
        select(s.push(x), keep.push(b)) == if b {
            select(s, keep).push(x)
        } else {
            select(s, keep)
        },
{
    assert(s.push(x).drop_last() =~= s);
    assert(keep.push(b).take(s.len() as int) =~= keep);
}

proof fn lemma_first_occurrence_prefix<T: PartialEq>(s: Seq<T>, n: int, i: int)
    requires
        0 <= i < n <= s.len(),
    ensures
        is_first_occurrence(s.take(n), i) == is_first_occurrence(s, i),
{
    assert forall|j: int| 0 <= j < i implies s.take(n)[j] == s[j] by {}
}

proof fn lemma_first_occurrences_push<T: PartialEq>(s: Seq<T>, n: int)
    requires
        0 <= n < s.len(),
    ensures
        first_occurrences(s.take(n + 1)) == if is_first_occurrence(s, n) {
            first_occurrences(s.take(n)).push(n)
        } else {
            first_occurrences(s.take(n))
        },
{
    assert(s.take(n + 1).drop_last() =~= s.take(n));
    lemma_first_occurrence_prefix(s, n + 1, n);
}

proof fn lemma_first_occurrences_bounded<T: PartialEq>(s: Seq<T>)
    ensures
        forall|k: int|
            0 <= k < first_occurrences(s).len() ==> 0 <= #[trigger] first_occurrences(s)[k]
                < s.len(),
    decreases s.len(),
{
    if s.len() > 0 {
        lemma_first_occurrences_bounded(s.drop_last());
        let rest = first_occurrences(s.drop_last());
        if is_first_occurrence(s, s.len() - 1) {
            assert forall|k: int| 0 <= k < rest.len() + 1 implies 0 <= #[trigger] rest.push(
                s.len() - 1,
            )[k] < s.len() by {
                if k < rest.len() {
                    assert(rest.push(s.len() - 1)[k] == rest[k]);
                }
            }
        }
    }
}

proof fn lemma_chunks_step<T>(s: Seq<T>, size: nat, i: int)
    requires
        size > 0,
        0 <= i < s.len(),
    ensures
        chunks_of(s.skip(i), size) == seq![
            s.subrange(i, if i + size <= s.len() { i + size } else { s.len() as int }),
        ] + chunks_of(s.skip(if i + size <= s.len() { i + size } else { s.len() as int }), size),
{
    let rest = s.skip(i);
    let end = if i + size <= s.len() {
        i + size
    } else {
        s.len() as int
    };
    if rest.len() <= size {
        assert(rest =~= s.subrange(i, end));
        assert(s.skip(end).len() == 0);
        assert(chunks_of(s.skip(end), size) =~= Seq::<Seq<T>>::empty());
        assert(seq![rest] + Seq::<Seq<T>>::empty() =~= seq![rest]);
    } else {
        assert(rest.take(size as int) =~= s.subrange(i, end));
        assert(rest.skip(size as int) =~= s.skip(end));
    }
}

impl<T> Collection<T> {
    pub fn new(items: Vec<T>) -> (r: Collection<T>)
        ensures
            r@ == items@,
    {
        Collection { items }
    }

    /// The items, as a slice.
    pub fn items(&self) -> (r: &[T])
        ensures
            r@ == self@,
    {
        self.items.as_slice()
    }

    pub fn into_inner(self) -> (r: Vec<T>)
        ensures
            r@ == self@,
    {
        self.items
    }

    pub fn count(&self) -> (r: usize)
        ensures
            r == self@.len(),
    {
        self.items.len()
    }

    pub fn is_empty(&self) -> (r: bool)
        ensures
            r == (self@.len() == 0),
    {
        self.items.len() == 0
    }

    pub fn first(&self) -> (r: Option<&T>)
        ensures
            r == if self@.len() > 0 {
                Some(&self@[0])
            } else {
                None
            },
    {
        if self.items.len() > 0 {
            Some(&self.items[0])
        } else {
            None
        }
    }

    pub fn last(&self) -> (r: Option<&T>)
        ensures
            r == if self@.len() > 0 {
                Some(&self@.last())
            } else {
                None
            },
    {
        let n = self.items.len();
        if n > 0 {
            Some(&self.items[n - 1])
        } else {
            None
        }
    }

    pub fn get(&self, index: usize) -> (r: Option<&T>)
        ensures
            r == if index < self@.len() {
                Some(&self@[index as int])
            } else {
                None
            },
    {
        if index < self.items.len() {
            Some(&self.items[index])
        } else {
            None
        }
    }

    /// A collection of `f` applied to each item, in order.
    pub fn map<U, F: Fn(&T) -> U>(&self, f: F) -> (r: Collection<U>)
        requires
            forall|i: int| 0 <= i < self@.len() ==> f.requires((&self@[i],)),
        ensures
            r@.len() == self@.len(),
            forall|i: int| 0 <= i < self@.len() ==> f.ensures((&self@[i],), #[trigger] r@[i]),
    {
        let mut out: Vec<U> = Vec::new();
        let mut i: usize = 0;
        while i < self.items.len()
            invariant
                i <= self@.len(),
                out@.len() == i,
                forall|j: int| 0 <= j < self@.len() ==> f.requires((&self@[j],)),
                forall|j: int| 0 <= j < i ==> f.ensures((&self@[j],), #[trigger] out@[j]),
            decreases self@.len() - i,
        {
            let y = f(&self.items[i]);
            out.push(y);
            i += 1;
        }
        Collection { items: out }
    }

    /// The items for which `f` answers true, in order.
    pub fn filter<F: Fn(&T) -> bool>(&self, f: F) -> (r: Collection<&T>)
        requires
            forall|i: int| 0 <= i < self@.len() ==> f.requires((&self@[i],)),
        ensures
            exists|keep: Seq<bool>|
                {
                    &&& keep.len() == self@.len()
                    &&& forall|i: int|
                        0 <= i < self@.len() ==> f.ensures((&self@[i],), #[trigger] keep[i])
                    &&& derefs(r@) == select(self@, keep)
                },
    {
        let mut out: Vec<&T> = Vec::new();
        let ghost mut keep: Seq<bool> = Seq::empty();
        let mut i: usize = 0;
        while i < self.items.len()
            invariant
                i <= self@.len(),
                keep.len() == i,
                forall|j: int| 0 <= j < self@.len() ==> f.requires((&self@[j],)),
                forall|j: int| 0 <= j < i ==> f.ensures((&self@[j],), #[trigger] keep[j]),
                derefs(out@) == select(self@.take(i as int), keep),
            decreases self@.len() - i,
        {
            let b = f(&self.items[i]);
            proof {
                lemma_select_push(self@.take(i as int), keep, self@[i as int], b);
                assert(self@.take(i as int).push(self@[i as int]) =~= self@.take(i + 1));
                if b {
                    assert(derefs(out@.push(&self.items[i as int])) =~= derefs(out@).push(
                        self@[i as int],
                    ));
                }
                keep = keep.push(b);
            }
            if b {
                out.push(&self.items[i]);
            }
            i += 1;
        }
        proof {
            assert(self@.take(i as int) =~= self@);
        }
        Collection { items: out }
    }

    /// Folds the items into `init` with `f`, first to last.
    pub fn reduce<U, F: Fn(U, &T) -> U>(&self, init: U, f: F) -> (r: U)
        requires
            forall|i: int, acc: U| 0 <= i < self@.len() ==> f.requires((acc, &self@[i])),
        ensures
            exists|acc: Seq<U>|
                {
                    &&& acc.len() == self@.len() + 1
                    &&& acc[0] == init
                    &&& forall|i: int|
                        0 <= i < self@.len() ==> f.ensures((acc[i], &self@[i]), #[trigger] acc[i
                            + 1])
                    &&& r == acc[self@.len() as int]
                },
    {
        let mut cur = init;
        let ghost mut acc: Seq<U> = seq![init];
        let mut i: usize = 0;
        while i < self.items.len()
            invariant
                i <= self@.len(),
                acc.len() == i + 1,
                acc[0] == init,
                acc[i as int] == cur,
                forall|j: int, a: U| 0 <= j < self@.len() ==> f.requires((a, &self@[j])),
                forall|j: int| 0 <= j < i ==> f.ensures((acc[j], &self@[j]), #[trigger] acc[j + 1]),
            decreases self@.len() - i,
        {
            let next = f(cur, &self.items[i]);
            proof {
                acc = acc.push(next);
            }
            cur = next;
            i += 1;
        }
        cur
    }

    /// Calls `f` on each item, first to last.
    pub fn each<F: Fn(&T)>(&self, f: F)
        requires
            forall|i: int| 0 <= i < self@.len() ==> f.requires((&self@[i],)),
    {
        let mut i: usize = 0;
        while i < self.items.len()
            invariant
                i <= self@.len(),
                forall|j: int| 0 <= j < self@.len() ==> f.requires((&self@[j],)),
            decreases self@.len() - i,
        {
            f(&self.items[i]);
            i += 1;
        }
    }

    /// Whether some item equals `item`.
    pub fn contains(&self, item: &T) -> (r: bool)
        where
            T: PartialEq,
        ensures
            T::obeys_eq_spec() ==> (r <==> exists|i: int|
                0 <= i < self@.len() && #[trigger] self@[i].eq_spec(item)),
    {
        let mut i: usize = 0;
        while i < self.items.len()
            invariant
                i <= self@.len(),
                T::obeys_eq_spec() ==> forall|j: int| 0 <= j < i ==> !#[trigger] self@[j].eq_spec(item),
            decreases self@.len() - i,
        {
            if self.items[i] == *item {
                return true;
            }
            i += 1;
        }
        false
    }

    /// The first occurrence of each distinct item, in order.
    pub fn unique(&self) -> (r: Collection<T>)
        where
            T: Clone + PartialEq,
        ensures
            T::obeys_eq_spec() ==> r@.len() == first_occurrences(self@).len(),
            T::obeys_eq_spec() ==> forall|k: int|
                0 <= k < r@.len() ==> cloned(self@[first_occurrences(self@)[k]], #[trigger] r@[k]),
    {
        let mut out: Vec<T> = Vec::new();
        let mut i: usize = 0;
        proof {
            assert(self@.take(0) =~= Seq::<T>::empty());
        }
        while i < self.items.len()
            invariant
                i <= self@.len(),
                T::obeys_eq_spec() ==> out@.len() == first_occurrences(self@.take(i as int)).len(),
                T::obeys_eq_spec() ==> forall|k: int|
                    0 <= k < out@.len() ==> cloned(
                        self@[first_occurrences(self@.take(i as int))[k]],
                        #[trigger] out@[k],
                    ),
            decreases self@.len() - i,
        {
            let mut seen = false;
            let mut j: usize = 0;
            while j < i
                invariant
                    j <= i < self@.len(),
                    T::obeys_eq_spec() ==> (seen <==> exists|m: int|
                        0 <= m < j && #[trigger] self@[m].eq_spec(&self@[i as int])),
                decreases i - j,
            {
                if !seen && self.items[j] == self.items[i] {
                    seen = true;
                }
                j += 1;
            }
            proof {
                lemma_first_occurrences_push(self@, i as int);
                lemma_first_occurrences_bounded(self@.take(i as int));
                if T::obeys_eq_spec() {
                    if seen {
                        let m = choose|m: int| 0 <= m < i && #[trigger] self@[m].eq_spec(&self@[i as int]);
                        assert(!is_first_occurrence(self@, i as int));
                    } else {
                        assert(is_first_occurrence(self@, i as int));
                    }
                }
            }
            if !seen {
                let c = self.items[i].clone();
                out.push(c);
                proof {
                    if T::obeys_eq_spec() {
                        let fo = first_occurrences(self@.take(i as int));
                        assert forall|k: int| 0 <= k < out@.len() implies cloned(
                            self@[first_occurrences(self@.take(i + 1))[k]],
                            #[trigger] out@[k],
                        ) by {
                            if k < fo.len() {
                                assert(first_occurrences(self@.take(i + 1))[k] == fo[k]);
                            }
                        }
                    }
                }
            }
            i += 1;
        }
        proof {
            assert(self@.take(i as int) =~= self@);
        }
        Collection { items: out }
    }

    /// The items in consecutive groups of `size`; the last group may be shorter.
    pub fn chunk(&self, size: usize) -> (r: Collection<Vec<&T>>)
        requires
            size > 0,
        ensures
            r@.len() == chunks_of(self@, size as nat).len(),
            forall|k: int|
                0 <= k < r@.len() ==> derefs(#[trigger] r@[k]@) == chunks_of(self@, size as nat)[k],
    {
        let mut out: Vec<Vec<&T>> = Vec::new();
        let n = self.items.len();
        let mut i: usize = 0;
        proof {
            assert(self@.skip(0) =~= self@);
        }
        while i < n
            invariant
                n == self@.len(),
                i <= n,
                size > 0,
                out@.len() + chunks_of(self@.skip(i as int), size as nat).len() == chunks_of(
                    self@,
                    size as nat,
                ).len(),
                forall|k: int|
                    0 <= k < out@.len() ==> derefs(#[trigger] out@[k]@) == chunks_of(
                        self@,
                        size as nat,
                    )[k],
                forall|k: int|
                    0 <= k < chunks_of(self@.skip(i as int), size as nat).len() ==> chunks_of(
                        self@.skip(i as int),
                        size as nat,
                    )[k] == chunks_of(self@, size as nat)[out@.len() + k],
            decreases n - i,
        {
            let end = if n - i >= size {
                i + size
            } else {
                n
            };
            let mut piece: Vec<&T> = Vec::new();
            let mut j: usize = i;
            while j < end
                invariant
                    i <= j <= end <= n,
                    n == self@.len(),
                    derefs(piece@) == self@.subrange(i as int, j as int),
                decreases end - j,
            {
                proof {
                    assert(derefs(piece@.push(&self.items[j as int])) =~= derefs(piece@).push(
                        self@[j as int],
                    ));
                    assert(self@.subrange(i as int, j + 1) =~= self@.subrange(
                        i as int,
                        j as int,
                    ).push(self@[j as int]));
                }
                piece.push(&self.items[j]);
                j += 1;
            }
            proof {
                lemma_chunks_step(self@, size as nat, i as int);
                let rest = chunks_of(self@.skip(end as int), size as nat);
                assert(chunks_of(self@.skip(i as int), size as nat)[0] == self@.subrange(
                    i as int,
                    end as int,
                ));
                assert forall|k: int| 0 <= k < rest.len() implies rest[k] == chunks_of(
                    self@,
                    size as nat,
                )[out@.len() + 1 + k] by {
                    assert(chunks_of(self@.skip(i as int), size as nat)[k + 1] == rest[k]);
                }
            }
            out.push(piece);
            i = end;
        }
        proof {
            assert(self@.skip(n as int).len() == 0);
        }
        Collection { items: out }
    }

    /// The items of `self` followed by those of `other`.
    pub fn merge(self, other: Collection<T>) -> (r: Collection<T>)
        ensures
            r@ == self@ + other@,
    {
        let mut items = self.items;
        let mut more = other.items;
        items.append(&mut more);
        Collection { items }
    }

    /// The items in reverse order, each cloned.
    pub fn reverse(&self) -> (r: Collection<T>)
        where
            T: Clone,
        ensures
            r@.len() == self@.len(),
            forall|i: int|
                0 <= i < self@.len() ==> cloned(self@[self@.len() - 1 - i], #[trigger] r@[i]),
    {
        let mut out: Vec<T> = Vec::new();
        let n = self.items.len();
        let mut i: usize = 0;
        while i < n
            invariant
                n == self@.len(),
                i <= n,
                out@.len() == i,
                forall|j: int| 0 <= j < i ==> cloned(self@[n - 1 - j], #[trigger] out@[j]),
            decreases n - i,
        {
            let c = self.items[n - 1 - i].clone();
            out.push(c);
            i += 1;
        }
        Collection { items: out }
    }

    /// The first `n` items (all of them where there are fewer).
    pub fn take(&self, n: usize) -> (r: Collection<&T>)
        ensures
            derefs(r@) == self@.take(if n <= self@.len() { n as int } else { self@.len() as int }),
    {
        let end = if n <= self.items.len() {
            n
        } else {
            self.items.len()
        };
        let mut out: Vec<&T> = Vec::new();
        let mut i: usize = 0;
        while i < end
            invariant
                i <= end <= self@.len(),
                derefs(out@) == self@.take(i as int),
            decreases end - i,
        {
            proof {
                assert(derefs(out@.push(&self.items[i as int])) =~= derefs(out@).push(
                    self@[i as int],
                ));
                assert(self@.take(i + 1) =~= self@.take(i as int).push(self@[i as int]));
            }
            out.push(&self.items[i]);
            i += 1;
        }
        Collection { items: out }
    }

    /// The items after the first `n` (none where there are fewer).
    pub fn skip(&self, n: usize) -> (r: Collection<&T>)
        ensures
            derefs(r@) == self@.skip(if n <= self@.len() { n as int } else { self@.len() as int }),
    {
        let len = self.items.len();
        let start = if n <= len {
            n
        } else {
            len
        };
        let mut out: Vec<&T> = Vec::new();
        let mut i: usize = start;
        while i < len
            invariant
                start <= i <= len,
                len == self@.len(),
                derefs(out@) == self@.subrange(start as int, i as int),
            decreases len - i,
        {
            proof {
                assert(derefs(out@.push(&self.items[i as int])) =~= derefs(out@).push(
                    self@[i as int],
                ));
                assert(self@.subrange(start as int, i + 1) =~= self@.subrange(
                    start as int,
                    i as int,
                ).push(self@[i as int]));
            }
            out.push(&self.items[i]);
            i += 1;
        }
        proof {
            assert(self@.subrange(start as int, len as int) =~= self@.skip(start as int));
        }
        Collection { items: out }
    }

    /// The items, each cloned, as a vector.
    pub fn to_vec(&self) -> (r: Vec<T>)
        where
            T: Clone,
        ensures
            r@.len() == self@.len(),
            forall|i: int| 0 <= i < self@.len() ==> cloned(self@[i], #[trigger] r@[i]),
    {
        self.items.clone()
    }
}

impl Collection<i64> {
    /// The sum of the items.
    pub fn sum(&self) -> (r: i64)
        requires
            sums_fit(self@),
        ensures
            r == total(self@),
    {
        let mut acc: i64 = 0;
        let mut i: usize = 0;
        proof {
            assert(self@.take(0) =~= Seq::<i64>::empty());
        }
        while i < self.items.len()
            invariant
                i <= self@.len(),
                sums_fit(self@),
                acc == total(self@.take(i as int)),
            decreases self@.len() - i,
        {
            proof {
                assert(self@.take(i + 1).drop_last() =~= self@.take(i as int));
                assert(i64::MIN <= total(self@.take(i + 1)) <= i64::MAX);
            }
            acc = acc + self.items[i];
            i += 1;
        }
        proof {
            assert(self@.take(i as int) =~= self@);
        }
        acc
    }

    /// The smallest item, or `None` for an empty collection.
    pub fn min(&self) -> (r: Option<i64>)
        ensures
            self@.len() == 0 <==> r is None,
            r matches Some(m) ==> self@.contains(m) && forall|i: int|
                0 <= i < self@.len() ==> m <= #[trigger] self@[i],
    {
        if self.items.len() == 0 {
            return None;
        }
        let mut m = self.items[0];
        let mut i: usize = 1;
        while i < self.items.len()
            invariant
                1 <= i <= self@.len(),
                self@.contains(m),
                forall|j: int| 0 <= j < i ==> m <= #[trigger] self@[j],
            decreases self@.len() - i,
        {
            if self.items[i] < m {
                m = self.items[i];
            }
            i += 1;
        }
        Some(m)
    }

    /// The largest item, or `None` for an empty collection.
    pub fn max(&self) -> (r: Option<i64>)
        ensures
            self@.len() == 0 <==> r is None,
            r matches Some(m) ==> self@.contains(m) && forall|i: int|
                0 <= i < self@.len() ==> #[trigger] self@[i] <= m,
    {
        if self.items.len() == 0 {
            return None;
        }
        let mut m = self.items[0];
        let mut i: usize = 1;
        while i < self.items.len()
            invariant
                1 <= i <= self@.len(),
                self@.contains(m),
                forall|j: int| 0 <= j < i ==> #[trigger] self@[j] <= m,
            decreases self@.len() - i,
        {
            if self.items[i] > m {
                m = self.items[i];
            }
            i += 1;
        }
        Some(m)
    }
}

impl<T> From<Vec<T>> for Collection<T> {
    fn from(items: Vec<T>) -> (r: Collection<T>) {
        Collection { items }
    }
}

impl<T> vstd::std_specs::convert::FromSpecImpl<Vec<T>> for Collection<T> {
    open spec fn obeys_from_spec() -> bool {
        true
    }

    closed spec fn from_spec(v: Vec<T>) -> Collection<T> {
        Collection { items: v }
    }
}

} // verus!
