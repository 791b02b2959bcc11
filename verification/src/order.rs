//! Stable ordering by an integer key, as a specification: insertion sort
//! places each item after every earlier item whose key is not larger, so
//! items with equal keys keep the order in which they came.
use vstd::prelude::*;

verus! {

/// `s` with `e` placed after every trailing item whose key is not larger.
pub open spec fn insert_by<T>(s: Seq<T>, e: T, key: spec_fn(T) -> int) -> Seq<T>
    decreases s.len(),
{
    if s.len() == 0 {
        seq![e]
    } else if key(s.last()) <= key(e) {
        s.push(e)
    } else {
        insert_by(s.drop_last(), e, key).push(s.last())
    }
}

/// `s` stably sorted by `key`.
pub open spec fn sort_by<T>(s: Seq<T>, key: spec_fn(T) -> int) -> Seq<T>
    decreases s.len(),
{
    if s.len() == 0 {
        s
    } else {
        insert_by(sort_by(s.drop_last(), key), s.last(), key)
    }
}

pub open spec fn sorted_by<T>(s: Seq<T>, key: spec_fn(T) -> int) -> bool {
    forall|i: int, j: int| 0 <= i <= j < s.len() ==> key(#[trigger] s[i]) <= key(#[trigger] s[j])
}

/// Inserting at the first position after which every key is larger.
pub proof fn lemma_insert_by_at<T>(s: Seq<T>, e: T, key: spec_fn(T) -> int, p: int)
    requires
        0 <= p <= s.len(),
        forall|j: int| p <= j < s.len() ==> key(#[trigger] s[j]) > key(e),
        p > 0 ==> key(s[p - 1]) <= key(e),
    ensures
        insert_by(s, e, key) == s.insert(p, e),
    decreases s.len(),
{
    if s.len() == 0 {
        assert(s.insert(p, e) =~= seq![e]);
    } else if key(s.last()) <= key(e) {
        assert(s.insert(p, e) =~= s.push(e));
    } else {
        let d = s.drop_last();
        assert forall|j: int| p <= j < d.len() implies key(#[trigger] d[j]) > key(e) by {
            assert(d[j] == s[j]);
        }
        lemma_insert_by_at(d, e, key, p);
        assert(s.insert(p, e) =~= d.insert(p, e).push(s.last()));
    }
}

pub proof fn lemma_sort_by_step<T>(s: Seq<T>, i: int, key: spec_fn(T) -> int)
    requires
        0 <= i < s.len(),
    ensures
        sort_by(s.take(i + 1), key) == insert_by(sort_by(s.take(i), key), s[i], key),
{
    assert(s.take(i + 1).drop_last() =~= s.take(i));
}

/// Inserting into a sorted sequence keeps it sorted.
pub proof fn lemma_insert_by_sorted<T>(s: Seq<T>, e: T, key: spec_fn(T) -> int)
    requires
        sorted_by(s, key),
    ensures
        sorted_by(insert_by(s, e, key), key),
        insert_by(s, e, key).len() == s.len() + 1,
        insert_by(s, e, key).to_multiset() == s.to_multiset().insert(e),
    decreases s.len(),
{
    broadcast use vstd::seq_lib::group_to_multiset_ensures;

    if s.len() == 0 {
        assert(seq![e] =~= Seq::<T>::empty().push(e));
    } else if key(s.last()) <= key(e) {
    } else {
        let d = s.drop_last();
        lemma_insert_by_sorted(d, e, key);
        let r = insert_by(d, e, key);
        assert forall|i: int| 0 <= i < r.len() implies key(#[trigger] r[i]) <= key(s.last()) by {
            assert(r.to_multiset().count(r[i]) > 0);
            assert(d.to_multiset().insert(e).count(r[i]) > 0);
            if r[i] != e {
                assert(d.to_multiset().count(r[i]) > 0);
                let k = choose|k: int| 0 <= k < d.len() && d[k] == r[i];
                assert(d.contains(r[i]));
                assert(s[k] == d[k]);
            }
        }
        assert(s =~= d.push(s.last()));
    }
}

/// The stable sort is sorted and holds the same items.
pub proof fn lemma_sort_by_sorted<T>(s: Seq<T>, key: spec_fn(T) -> int)
    ensures
        sorted_by(sort_by(s, key), key),
        sort_by(s, key).len() == s.len(),
        sort_by(s, key).to_multiset() == s.to_multiset(),
    decreases s.len(),
{
    broadcast use vstd::seq_lib::group_to_multiset_ensures;

    if s.len() != 0 {
        lemma_sort_by_sorted(s.drop_last(), key);
        lemma_insert_by_sorted(sort_by(s.drop_last(), key), s.last(), key);
        assert(s =~= s.drop_last().push(s.last()));
    }
}

/// `s` with `e` placed after every trailing item that `le` puts before it.
pub open spec fn insert_le<T>(s: Seq<T>, e: T, le: spec_fn(T, T) -> bool) -> Seq<T>
    decreases s.len(),
{
    if s.len() == 0 {
        seq![e]
    } else if le(s.last(), e) {
        s.push(e)
    } else {
        insert_le(s.drop_last(), e, le).push(s.last())
    }
}

/// `s` stably sorted by the total preorder `le`.
pub open spec fn sort_le<T>(s: Seq<T>, le: spec_fn(T, T) -> bool) -> Seq<T>
    decreases s.len(),
{
    if s.len() == 0 {
        s
    } else {
        insert_le(sort_le(s.drop_last(), le), s.last(), le)
    }
}

pub proof fn lemma_insert_le_at<T>(s: Seq<T>, e: T, le: spec_fn(T, T) -> bool, p: int)
    requires
        0 <= p <= s.len(),
        forall|j: int| p <= j < s.len() ==> !le(#[trigger] s[j], e),
        p > 0 ==> le(s[p - 1], e),
    ensures
        insert_le(s, e, le) == s.insert(p, e),
    decreases s.len(),
{
    if s.len() == 0 {
        assert(s.insert(p, e) =~= seq![e]);
    } else if le(s.last(), e) {
        assert(s.insert(p, e) =~= s.push(e));
    } else {
        let d = s.drop_last();
        assert forall|j: int| p <= j < d.len() implies !le(#[trigger] d[j], e) by {
            assert(d[j] == s[j]);
        }
        lemma_insert_le_at(d, e, le, p);
        assert(s.insert(p, e) =~= d.insert(p, e).push(s.last()));
    }
}

pub proof fn lemma_sort_le_step<T>(s: Seq<T>, i: int, le: spec_fn(T, T) -> bool)
    requires
        0 <= i < s.len(),
    ensures
        sort_le(s.take(i + 1), le) == insert_le(sort_le(s.take(i), le), s[i], le),
{
    assert(s.take(i + 1).drop_last() =~= s.take(i));
}

} // verus!
