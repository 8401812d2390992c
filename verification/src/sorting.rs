//! Stable sorting under an order given by its user.

use vstd::prelude::*;

verus! {

/// A total preorder on `T` that can be decided at run time.
pub trait Precedence<T> {
    /// `a` may stand before `b`.
    spec fn le(&self, a: T, b: T) -> bool;

    /// Decides [`Self::le`].
    fn decide(&self, a: &T, b: &T) -> (r: bool)
        ensures
            r == self.le(*a, *b),
    ;
}

/// `s` with `x` put behind the last item that may stand before it.
pub open spec fn insert_stable<T>(s: Seq<T>, x: T, le: spec_fn(T, T) -> bool) -> Seq<T>
    decreases s.len(),
{
    if s.len() == 0 || le(s.last(), x) {
        s.push(x)
    } else {
        insert_stable(s.drop_last(), x, le).push(s.last())
    }
}

/// The items of `s` in ascending order; items that the order does not tell
/// apart keep the order they had in `s`.
pub open spec fn stable_sort<T>(s: Seq<T>, le: spec_fn(T, T) -> bool) -> Seq<T>
    decreases s.len(),
{
    if s.len() == 0 {
        s
    } else {
        insert_stable(stable_sort(s.drop_last(), le), s.last(), le)
    }
}

/// The order tells any two items apart or puts them level, and is
/// transitive.
pub open spec fn total_preorder<T>(le: spec_fn(T, T) -> bool) -> bool {
    &&& forall|a: T, b: T| #[trigger] le(a, b) || #[trigger] le(b, a)
    &&& forall|a: T, b: T, c: T| #[trigger] le(a, b) && #[trigger] le(b, c) ==> le(a, c)
}

/// No item of `s` stands before one that the order puts before it.
pub open spec fn ascending<T>(s: Seq<T>, le: spec_fn(T, T) -> bool) -> bool {
    forall|i: int, j: int| 0 <= i < j < s.len() ==> le(#[trigger] s[i], #[trigger] s[j])
}

/// Putting an item into an ascending sequence leaves it ascending and adds
/// that item and no other.
pub proof fn lemma_insert_stable<T>(s: Seq<T>, x: T, le: spec_fn(T, T) -> bool)
    requires
        total_preorder(le),
        ascending(s, le),
    ensures
        ascending(insert_stable(s, x, le), le),
        insert_stable(s, x, le).len() == s.len() + 1,
        insert_stable(s, x, le).to_multiset() == s.to_multiset().insert(x),
        forall|i: int|
            0 <= i < s.len() + 1 ==> #[trigger] insert_stable(s, x, le)[i] == x || s.contains(
                insert_stable(s, x, le)[i],
            ),
    decreases s.len(),
{
    s.to_multiset_ensures();
    if s.len() == 0 || le(s.last(), x) {
        let r = s.push(x);
        assert forall|i: int, j: int| 0 <= i < j < r.len() implies le(
            #[trigger] r[i],
            #[trigger] r[j],
        ) by {
            if j == s.len() {
                if i < s.len() - 1 {
                    assert(le(s[i], s[s.len() - 1]));
                }
            }
        }
        assert forall|i: int| 0 <= i < s.len() + 1 implies #[trigger] r[i] == x || s.contains(
            r[i],
        ) by {
            if i < s.len() {
                assert(s[i] == r[i]);
            }
        }
    } else {
        let head = s.drop_last();
        assert(ascending(head, le)) by {
            assert forall|i: int, j: int| 0 <= i < j < head.len() implies le(
                #[trigger] head[i],
                #[trigger] head[j],
            ) by {
                assert(le(s[i], s[j]));
            }
        }
        lemma_insert_stable(head, x, le);
        let inner = insert_stable(head, x, le);
        let r = inner.push(s.last());
        assert(le(x, s.last()));
        assert forall|i: int| 0 <= i < inner.len() implies le(#[trigger] inner[i], s.last()) by {
            if inner[i] != x {
                assert(head.contains(inner[i]));
                let k = choose|k: int| 0 <= k < head.len() && head[k] == inner[i];
                assert(le(s[k], s[s.len() - 1]));
            }
        }
        assert forall|i: int, j: int| 0 <= i < j < r.len() implies le(
            #[trigger] r[i],
            #[trigger] r[j],
        ) by {
            if j < inner.len() {
                assert(le(inner[i], inner[j]));
            }
        }
        assert forall|i: int| 0 <= i < s.len() + 1 implies #[trigger] r[i] == x || s.contains(
            r[i],
        ) by {
            if i < inner.len() {
                if inner[i] != x {
                    assert(head.contains(inner[i]));
                    let k = choose|k: int| 0 <= k < head.len() && head[k] == inner[i];
                    assert(s[k] == r[i]);
                }
            } else {
                assert(s[s.len() - 1] == r[i]);
            }
        }
        head.to_multiset_ensures();
        inner.to_multiset_ensures();
        assert(head.push(s.last()) =~= s);
        assert(r.to_multiset() =~= s.to_multiset().insert(x));
    }
}

/// What stable sorting gives is ascending and holds the items that were
/// given, each as often as it was given.
pub proof fn lemma_stable_sort_sorts<T>(s: Seq<T>, le: spec_fn(T, T) -> bool)
    requires
        total_preorder(le),
    ensures
        ascending(stable_sort(s, le), le),
        stable_sort(s, le).len() == s.len(),
        stable_sort(s, le).to_multiset() == s.to_multiset(),
    decreases s.len(),
{
    if s.len() > 0 {
        lemma_stable_sort_sorts(s.drop_last(), le);
        lemma_insert_stable(stable_sort(s.drop_last(), le), s.last(), le);
        s.drop_last().to_multiset_ensures();
        assert(s.drop_last().push(s.last()) =~= s);
    }
}

/// Stable sorting leaves an ascending sequence as it is: items that the
/// order puts level are never exchanged.
pub proof fn lemma_stable_sort_keeps_ascending<T>(s: Seq<T>, le: spec_fn(T, T) -> bool)
    requires
        ascending(s, le),
    ensures
        stable_sort(s, le) == s,
    decreases s.len(),
{
    if s.len() > 0 {
        let head = s.drop_last();
        assert(ascending(head, le)) by {
            assert forall|i: int, j: int| 0 <= i < j < head.len() implies le(
                #[trigger] head[i],
                #[trigger] head[j],
            ) by {
                assert(le(s[i], s[j]));
            }
        }
        lemma_stable_sort_keeps_ascending(head, le);
        if head.len() > 0 {
            assert(le(s[head.len() - 1], s[s.len() - 1]));
            assert(head.last() == s[head.len() - 1]);
        }
        assert(head.push(s.last()) =~= s);
    }
}

/// What a filter keeps of an ascending sequence is ascending, and each item
/// that it keeps is an item of the sequence.
pub proof fn lemma_filter_keeps_ascending<T>(
    s: Seq<T>,
    keep: spec_fn(T) -> bool,
    le: spec_fn(T, T) -> bool,
)
    requires
        ascending(s, le),
    ensures
        ascending(s.filter(keep), le),
        forall|i: int| 0 <= i < s.filter(keep).len() ==> s.contains(#[trigger] s.filter(keep)[i]),
    decreases s.len(),
{
    reveal(Seq::filter);
    if s.len() > 0 {
        let head = s.drop_last();
        assert(ascending(head, le)) by {
            assert forall|i: int, j: int| 0 <= i < j < head.len() implies le(
                #[trigger] head[i],
                #[trigger] head[j],
            ) by {
                assert(le(s[i], s[j]));
            }
        }
        lemma_filter_keeps_ascending(head, keep, le);
        let kept = head.filter(keep);
        let r = s.filter(keep);
        assert forall|i: int| 0 <= i < r.len() implies s.contains(#[trigger] r[i]) by {
            if i < kept.len() {
                assert(r[i] == kept[i]);
                assert(head.contains(kept[i]));
                let k = choose|k: int| 0 <= k < head.len() && head[k] == kept[i];
                assert(s[k] == r[i]);
            } else {
                assert(s[s.len() - 1] == r[i]);
            }
        }
        assert forall|i: int, j: int| 0 <= i < j < r.len() implies le(
            #[trigger] r[i],
            #[trigger] r[j],
        ) by {
            if j < kept.len() {
                assert(le(kept[i], kept[j]));
            } else {
                assert(head.contains(kept[i]));
                let k = choose|k: int| 0 <= k < head.len() && head[k] == kept[i];
                assert(le(s[k], s[s.len() - 1]));
            }
        }
    }
}

/// Sorting the images of items under an order is sorting the items under the
/// order of their images.
pub proof fn lemma_stable_sort_map<T, V>(
    s: Seq<T>,
    f: spec_fn(T) -> V,
    le: spec_fn(V, V) -> bool,
)
    ensures
        stable_sort(s, |a: T, b: T| le(f(a), f(b))).map_values(f) == stable_sort(
            s.map_values(f),
            le,
        ),
    decreases s.len(),
{
    let le_t = |a: T, b: T| le(f(a), f(b));
    if s.len() == 0 {
        assert(s.map_values(f) =~= Seq::<V>::empty());
        assert(stable_sort(s, le_t).map_values(f) =~= Seq::<V>::empty());
    } else {
        lemma_stable_sort_map(s.drop_last(), f, le);
        assert(s.map_values(f).drop_last() =~= s.drop_last().map_values(f));
        lemma_insert_stable_map(stable_sort(s.drop_last(), le_t), s.last(), f, le);
    }
}

/// Inserting the image of an item among images is inserting the item among
/// the items.
pub proof fn lemma_insert_stable_map<T, V>(
    s: Seq<T>,
    x: T,
    f: spec_fn(T) -> V,
    le: spec_fn(V, V) -> bool,
)
    ensures
        insert_stable(s, x, |a: T, b: T| le(f(a), f(b))).map_values(f) == insert_stable(
            s.map_values(f),
            f(x),
            le,
        ),
    decreases s.len(),
{
    let le_t = |a: T, b: T| le(f(a), f(b));
    if s.len() == 0 || le_t(s.last(), x) {
        assert(s.push(x).map_values(f) =~= s.map_values(f).push(f(x)));
    } else {
        lemma_insert_stable_map(s.drop_last(), x, f, le);
        assert(s.map_values(f).drop_last() =~= s.drop_last().map_values(f));
        assert(insert_stable(s.drop_last(), x, le_t).push(s.last()).map_values(f)
            =~= insert_stable(s.drop_last(), x, le_t).map_values(f).push(f(s.last())));
    }
}

/// Filtering the images of items is filtering the items by what holds of
/// their images.
pub proof fn lemma_filter_map<T, V>(s: Seq<T>, f: spec_fn(T) -> V, keep: spec_fn(V) -> bool)
    ensures
        s.filter(|a: T| keep(f(a))).map_values(f) == s.map_values(f).filter(keep),
    decreases s.len(),
{
    let keep_t = |a: T| keep(f(a));
    reveal(Seq::filter);
    if s.len() == 0 {
        assert(s.map_values(f) =~= Seq::<V>::empty());
        assert(s.filter(keep_t).map_values(f) =~= Seq::<V>::empty());
    } else {
        lemma_filter_map(s.drop_last(), f, keep);
        assert(s.map_values(f).drop_last() =~= s.drop_last().map_values(f));
        if keep_t(s.last()) {
            assert(s.drop_last().filter(keep_t).push(s.last()).map_values(f)
                =~= s.drop_last().filter(keep_t).map_values(f).push(f(s.last())));
        }
    }
}

/// Sorts `items` stably under `order`.
pub fn sort_stable<T, O: Precedence<T>>(items: Vec<T>, order: &O) -> (sorted: Vec<T>)
    ensures
        sorted@ == stable_sort(items@, |a: T, b: T| order.le(a, b)),
{
    let ghost le = |a: T, b: T| order.le(a, b);
    let mut out: Vec<T> = Vec::new();
    for x in it: items
        invariant
            le == (|a: T, b: T| order.le(a, b)),
            out@ == stable_sort(items@.take(it.index() as int), le),
    {
        let ghost before = out@;
        let mut j: usize = out.len();
        proof {
            assert(before.take(before.len() as int) =~= before);
            assert(insert_stable(before, x, le) + before.skip(before.len() as int)
                =~= insert_stable(before, x, le));
        }
        while j > 0 && !order.decide(&out[j - 1], &x)
            invariant
                j <= out.len(),
                out@ == before,
                le == (|a: T, b: T| order.le(a, b)),
                insert_stable(before, x, le) == insert_stable(before.take(j as int), x, le)
                    + before.skip(j as int),
            decreases j,
        {
            proof {
                let head = before.take(j as int);
                assert(head.last() == before[j - 1]);
                assert(head.drop_last() =~= before.take(j - 1));
                assert(insert_stable(head, x, le) == insert_stable(
                    before.take(j - 1),
                    x,
                    le,
                ).push(before[j - 1]));
                assert(insert_stable(before.take(j - 1), x, le).push(before[j - 1]) + before.skip(
                    j as int,
                ) =~= insert_stable(before.take(j - 1), x, le) + before.skip(j - 1));
            }
            j -= 1;
        }
        proof {
            let head = before.take(j as int);
            if j > 0 {
                assert(head.last() == before[j - 1]);
            }
            assert(insert_stable(head, x, le) == head.push(x));
            assert(head.push(x) + before.skip(j as int) =~= before.insert(j as int, x));
            let done = items@.take(it.index() + 1);
            assert(done.drop_last() =~= items@.take(it.index() as int));
            assert(done.last() == x);
        }
        out.insert(j, x);
    }
    proof {
        assert(items@.take(items@.len() as int) =~= items@);
    }
    out
}

} // verus!
