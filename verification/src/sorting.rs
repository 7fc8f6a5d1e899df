//! Sorting a list and dropping what is repeated in it, for anything that is
//! ranked by a key.
use vstd::prelude::*;

verus! {

/// Something that has a key, and an order of such keys.
pub trait Ranked: Sized {
    /// All that there is to it.
    type Key;

    spec fn key(&self) -> Self::Key;

    /// Whether the first key comes before the second or ranks with it.
    spec fn rank() -> spec_fn(Self::Key, Self::Key) -> bool;

    fn comes_first(&self, other: &Self) -> (r: bool)
        ensures
            r == Self::rank()(self.key(), other.key()),
    ;

    fn is_same(&self, other: &Self) -> (r: bool)
        ensures
            r == (self.key() == other.key()),
    ;

    fn copy(&self) -> (r: Self)
        ensures
            r.key() == self.key(),
    ;
}

pub open spec fn keys<T: Ranked>(list: Seq<T>) -> Seq<T::Key> {
    list.map_values(|item: T| item.key())
}

/// `x` put where it belongs in the sorted list `list`, behind its equals.
pub open spec fn inserted<K>(list: Seq<K>, x: K, rank: spec_fn(K, K) -> bool) -> Seq<K>
    decreases list.len(),
{
    if list.len() == 0 || rank(list.last(), x) {
        list.push(x)
    } else {
        inserted(list.drop_last(), x, rank).push(list.last())
    }
}

/// The same keys in order; those that rank alike stay in the order they had.
pub open spec fn arranged<K>(list: Seq<K>, rank: spec_fn(K, K) -> bool) -> Seq<K>
    decreases list.len(),
{
    if list.len() == 0 {
        list
    } else {
        inserted(arranged(list.drop_last(), rank), list.last(), rank)
    }
}

/// Each run of equal keys once.
pub open spec fn without_repeats<K>(list: Seq<K>) -> Seq<K>
    decreases list.len(),
{
    if list.len() == 0 {
        list
    } else {
        let earlier = without_repeats(list.drop_last());
        if earlier.len() > 0 && earlier.last() == list.last() {
            earlier
        } else {
            earlier.push(list.last())
        }
    }
}

/// `list` is in order.
pub open spec fn is_arranged<K>(list: Seq<K>, rank: spec_fn(K, K) -> bool) -> bool {
    forall|i: int, j: int| 0 <= i < j < list.len() ==> rank(#[trigger] list[i], #[trigger] list[j])
}

/// Any two keys can be ranked, and a rank passes on.
pub open spec fn is_ranking<K>(rank: spec_fn(K, K) -> bool) -> bool {
    &&& forall|a: K, b: K| #[trigger] rank(a, b) || rank(b, a)
    &&& forall|a: K, b: K, c: K| #[trigger] rank(a, b) && #[trigger] rank(b, c) ==> rank(a, c)
}

proof fn lemma_inserted<K>(list: Seq<K>, x: K, rank: spec_fn(K, K) -> bool)
    requires
        is_ranking(rank),
        is_arranged(list, rank),
    ensures
        is_arranged(inserted(list, x, rank), rank),
        inserted(list, x, rank).to_multiset() == list.to_multiset().insert(x),
        forall|y: K| #[trigger] inserted(list, x, rank).contains(y) <==> list.contains(y) || y == x,
    decreases list.len(),
{
    broadcast use vstd::seq_lib::group_to_multiset_ensures;

    let r = inserted(list, x, rank);
    if list.len() == 0 || rank(list.last(), x) {
        assert forall|i: int, j: int| 0 <= i < j < r.len() implies rank(
            #[trigger] r[i],
            #[trigger] r[j],
        ) by {
            if j == list.len() && i < list.len() - 1 {
                assert(rank(list[i], list[list.len() - 1]));
            }
        }
        lemma_push_contains(list, x);
    } else {
        let front = list.drop_last();
        let inner = inserted(front, x, rank);
        assert forall|i: int, j: int| 0 <= i < j < front.len() implies rank(
            #[trigger] front[i],
            #[trigger] front[j],
        ) by {
            assert(rank(list[i], list[j]));
        }
        lemma_inserted(front, x, rank);
        assert(rank(x, list.last()));
        lemma_push_contains(inner, list.last());
        lemma_push_contains(front, list.last());
        assert(list =~= front.push(list.last()));
        assert forall|i: int, j: int| 0 <= i < j < r.len() implies rank(
            #[trigger] r[i],
            #[trigger] r[j],
        ) by {
            if j == inner.len() {
                assert(inner.contains(inner[i]));
                if inner[i] != x {
                    let k = choose|k: int| 0 <= k < front.len() && front[k] == inner[i];
                    assert(rank(list[k], list[list.len() - 1]));
                }
            } else {
                assert(rank(inner[i], inner[j]));
            }
        }
        assert(r.to_multiset() =~= list.to_multiset().insert(x));
    }
}

proof fn lemma_push_contains<K>(list: Seq<K>, x: K)
    ensures
        forall|y: K| #[trigger] list.push(x).contains(y) <==> list.contains(y) || y == x,
{
    assert forall|y: K| #[trigger] list.push(x).contains(y) <==> list.contains(y) || y == x by {
        assert(list.push(x)[list.len() as int] == x);
        if list.contains(y) {
            let k = choose|k: int| 0 <= k < list.len() && list[k] == y;
            assert(list.push(x)[k] == y);
        }
        if list.push(x).contains(y) {
            let k = choose|k: int| 0 <= k < list.push(x).len() && list.push(x)[k] == y;
            if k < list.len() {
                assert(list[k] == y);
            }
        }
    }
}

/// `arranged` is in order and holds what it was given, as often as it was
/// given it.
pub proof fn lemma_arranged<K>(list: Seq<K>, rank: spec_fn(K, K) -> bool)
    requires
        is_ranking(rank),
    ensures
        is_arranged(arranged(list, rank), rank),
        arranged(list, rank).to_multiset() == list.to_multiset(),
        arranged(list, rank).len() == list.len(),
        forall|y: K| #[trigger] arranged(list, rank).contains(y) <==> list.contains(y),
    decreases list.len(),
{
    broadcast use vstd::seq_lib::group_to_multiset_ensures;

    if list.len() > 0 {
        let front = list.drop_last();
        lemma_arranged(front, rank);
        lemma_inserted(arranged(front, rank), list.last(), rank);
        lemma_push_contains(front, list.last());
        assert(list =~= front.push(list.last()));
    }
    assert(arranged(list, rank).to_multiset().len() == list.to_multiset().len());
}

/// `without_repeats` holds what it was given, keeps it in order, and has
/// nothing twice in a row.
pub proof fn lemma_without_repeats<K>(list: Seq<K>, rank: spec_fn(K, K) -> bool)
    ensures
        is_arranged(list, rank) ==> is_arranged(without_repeats(list), rank),
        forall|y: K| #[trigger] without_repeats(list).contains(y) <==> list.contains(y),
        list.len() > 0 <==> without_repeats(list).len() > 0,
        list.len() > 0 ==> without_repeats(list).last() == list.last(),
        forall|i: int|
            0 < i < without_repeats(list).len() ==> #[trigger] without_repeats(list)[i]
                != without_repeats(list)[i - 1],
    decreases list.len(),
{
    if list.len() > 0 {
        let front = list.drop_last();
        let earlier = without_repeats(front);
        let r = without_repeats(list);
        lemma_without_repeats(front, rank);
        lemma_push_contains(earlier, list.last());
        lemma_push_contains(front, list.last());
        assert(list =~= front.push(list.last()));
        assert(r.contains(r[r.len() - 1]));
        if is_arranged(list, rank) {
            assert forall|i: int, j: int| 0 <= i < j < front.len() implies rank(
                #[trigger] front[i],
                #[trigger] front[j],
            ) by {
                assert(rank(list[i], list[j]));
            }
            assert forall|i: int, j: int| 0 <= i < j < r.len() implies rank(
                #[trigger] r[i],
                #[trigger] r[j],
            ) by {
                if j < earlier.len() {
                    assert(rank(earlier[i], earlier[j]));
                } else {
                    assert(earlier.contains(earlier[i]));
                    let k = choose|k: int| 0 <= k < front.len() && front[k] == earlier[i];
                    assert(rank(list[k], list[list.len() - 1]));
                }
            }
        }
        assert forall|i: int| 0 < i < r.len() implies #[trigger] r[i] != r[i - 1] by {
            if i < earlier.len() {
                assert(earlier[i] != earlier[i - 1]);
            }
        }
    }
}

fn insert<T: Ranked>(list: &mut Vec<T>, x: T)
    ensures
        keys(final(list)@) == inserted(keys(old(list)@), x.key(), T::rank()),
{
    let ghost before = keys(list@);
    let ghost rank = T::rank();
    let mut pos: usize = list.len();
    assert(before.take(pos as int) =~= before);
    assert(inserted(before, x.key(), rank) =~= inserted(before.take(pos as int), x.key(), rank)
        + before.skip(pos as int));
    while pos > 0 && !list[pos - 1].comes_first(&x)
        invariant
            pos <= list.len(),
            rank == T::rank(),
            before == keys(list@),
            inserted(before, x.key(), rank) == inserted(before.take(pos as int), x.key(), rank)
                + before.skip(pos as int),
        decreases pos,
    {
        let ghost here = before.take(pos as int);
        assert(here.last() == before[pos - 1]);
        assert(here.drop_last() =~= before.take(pos - 1));
        assert(before.skip(pos - 1) =~= seq![before[pos - 1]] + before.skip(pos as int));
        pos = pos - 1;
        assert(inserted(before, x.key(), rank) =~= inserted(
            before.take(pos as int),
            x.key(),
            rank,
        ) + before.skip(pos as int));
    }
    let ghost here = before.take(pos as int);
    proof {
        if pos > 0 {
            assert(here.last() == before[pos - 1]);
        }
    }
    assert(inserted(here, x.key(), rank) == here.push(x.key()));
    list.insert(pos, x);
    assert(keys(list@) =~= here.push(x.key()) + before.skip(pos as int));
}

/// The same items in order; those that rank alike stay in the order they had.
pub fn arrange<T: Ranked>(list: &Vec<T>) -> (r: Vec<T>)
    ensures
        keys(r@) == arranged(keys(list@), T::rank()),
{
    let ghost all = keys(list@);
    let mut out: Vec<T> = Vec::new();
    assert(keys(out@) =~= arranged(all.take(0), T::rank()));
    for i in 0..list.len()
        invariant
            all == keys(list@),
            keys(out@) == arranged(all.take(i as int), T::rank()),
    {
        insert(&mut out, list[i].copy());
        assert(all.take(i + 1).drop_last() =~= all.take(i as int));
        assert(all.take(i + 1).last() == list@[i as int].key());
    }
    assert(all.take(list@.len() as int) =~= all);
    out
}

/// Each run of equal items once.
pub fn drop_repeats<T: Ranked>(list: &Vec<T>) -> (r: Vec<T>)
    ensures
        keys(r@) == without_repeats(keys(list@)),
{
    let ghost all = keys(list@);
    let mut out: Vec<T> = Vec::new();
    assert(keys(out@) =~= without_repeats(all.take(0)));
    for i in 0..list.len()
        invariant
            all == keys(list@),
            keys(out@) == without_repeats(all.take(i as int)),
    {
        assert(all.take(i + 1).drop_last() =~= all.take(i as int));
        assert(all.take(i + 1).last() == list@[i as int].key());
        let count: usize = out.len();
        assert(count == keys(out@).len());
        if count == 0 || !out[count - 1].is_same(&list[i]) {
            let ghost so_far = out@;
            out.push(list[i].copy());
            assert(keys(out@) =~= keys(so_far).push(list@[i as int].key()));
        }
    }
    assert(all.take(list@.len() as int) =~= all);
    out
}

} // verus!
