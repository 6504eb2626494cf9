//! Sequences that are kept sorted and free of repetitions.
use vstd::prelude::*;

use crate::order::{
    key_order, lemma_key_equal, lemma_key_flip, lemma_key_transitive, Order, OrderKey,
};

verus! {

/// A type whose values have a place in a sorted sequence.
pub trait Ordered: View + Sized {
    /// What an item with this abstract value is sorted by.
    spec fn key_of(v: Self::V) -> OrderKey;

    fn compare(&self, other: &Self) -> (o: Order)
        ensures
            o == key_order(Self::key_of(self@), Self::key_of(other@)),
    ;
}

/// The abstract values of the items, in order.
pub open spec fn views<T: View>(s: Seq<T>) -> Seq<T::V> {
    Seq::new(s.len(), |i: int| s[i]@)
}

/// Each item sorts strictly before every later one.
pub open spec fn sorted<T: Ordered>(s: Seq<T::V>) -> bool {
    forall|i: int, j: int|
        #![trigger s[i], s[j]]
        0 <= i < j < s.len() ==> key_order(T::key_of(s[i]), T::key_of(s[j])) == Order::Less
}

/// How many leading items sort before the key.
pub open spec fn slot<T: Ordered>(s: Seq<T::V>, key: OrderKey) -> int
    decreases s.len(),
{
    if s.len() > 0 && key_order(T::key_of(s[0]), key) == Order::Less {
        1 + slot::<T>(s.drop_first(), key)
    } else {
        0
    }
}

/// The sequence with one item added in its place. Where an item with the same key is there
/// already, the new item takes its place if `replace` is set, and is dropped otherwise.
pub open spec fn inserted<T: Ordered>(s: Seq<T::V>, item: T::V, replace: bool) -> Seq<T::V> {
    let at = slot::<T>(s, T::key_of(item));
    if at < s.len() && T::key_of(s[at]) == T::key_of(item) {
        if replace {
            s.update(at, item)
        } else {
            s
        }
    } else {
        s.insert(at, item)
    }
}

/// The items added one after the other to an empty sequence.
pub open spec fn collected<T: Ordered>(items: Seq<T::V>, replace: bool) -> Seq<T::V>
    decreases items.len(),
{
    if items.len() == 0 {
        Seq::empty()
    } else {
        inserted::<T>(collected::<T>(items.drop_last(), replace), items.last(), replace)
    }
}

/// An item with this key is in the sequence.
pub open spec fn has_key<T: Ordered>(s: Seq<T::V>, key: OrderKey) -> bool {
    exists|i: int| 0 <= i < s.len() && #[trigger] T::key_of(s[i]) == key
}

proof fn lemma_slot<T: Ordered>(s: Seq<T::V>, key: OrderKey)
    ensures
        0 <= slot::<T>(s, key) <= s.len(),
        forall|i: int|
            0 <= i < slot::<T>(s, key) ==> key_order(#[trigger] T::key_of(s[i]), key)
                == Order::Less,
        slot::<T>(s, key) < s.len() ==> key_order(T::key_of(s[slot::<T>(s, key)]), key)
            != Order::Less,
    decreases s.len(),
{
    if s.len() > 0 && key_order(T::key_of(s[0]), key) == Order::Less {
        let rest = s.drop_first();
        lemma_slot::<T>(rest, key);
        assert forall|i: int| 0 <= i < slot::<T>(s, key) implies key_order(
            #[trigger] T::key_of(s[i]),
            key,
        ) == Order::Less by {
            if i > 0 {
                assert(s[i] == rest[i - 1]);
            }
        }
    }
}

proof fn lemma_slot_unique<T: Ordered>(s: Seq<T::V>, key: OrderKey, at: int)
    requires
        0 <= at <= s.len(),
        forall|i: int|
            0 <= i < at ==> key_order(#[trigger] T::key_of(s[i]), key) == Order::Less,
        at < s.len() ==> key_order(T::key_of(s[at]), key) != Order::Less,
    ensures
        slot::<T>(s, key) == at,
{
    lemma_slot::<T>(s, key);
    let p = slot::<T>(s, key);
    if p < at {
        assert(key_order(T::key_of(s[p]), key) == Order::Less);
    } else if at < p {
        assert(key_order(T::key_of(s[at]), key) == Order::Less);
    }
}

/// Adding an item keeps the sequence sorted.
pub proof fn lemma_inserted_sorted<T: Ordered>(s: Seq<T::V>, item: T::V, replace: bool)
    requires
        sorted::<T>(s),
    ensures
        sorted::<T>(inserted::<T>(s, item, replace)),
{
    let key = T::key_of(item);
    let at = slot::<T>(s, key);
    lemma_slot::<T>(s, key);
    let r = inserted::<T>(s, item, replace);
    if at < s.len() && T::key_of(s[at]) == key {
        assert forall|i: int, j: int| 0 <= i < j < r.len() implies key_order(
            T::key_of(#[trigger] r[i]),
            T::key_of(#[trigger] r[j]),
        ) == Order::Less by {
            assert(T::key_of(r[i]) == T::key_of(s[i]));
            assert(T::key_of(r[j]) == T::key_of(s[j]));
        }
    } else {
        if at < s.len() {
            lemma_key_flip(T::key_of(s[at]), key);
            lemma_key_equal(T::key_of(s[at]), key);
        }
        assert forall|i: int, j: int| 0 <= i < j < r.len() implies key_order(
            T::key_of(#[trigger] r[i]),
            T::key_of(#[trigger] r[j]),
        ) == Order::Less by {
            let k = if j < at {
                s[j]
            } else if j == at {
                item
            } else {
                s[j - 1]
            };
            assert(r[j] == k);
            if i < at {
                assert(r[i] == s[i]);
                if j > at {
                    assert(key_order(T::key_of(s[i]), T::key_of(s[j - 1])) == Order::Less);
                } else if j == at {
                    assert(key_order(T::key_of(s[i]), key) == Order::Less);
                }
            } else if i == at {
                assert(r[i] == item);
                if j - 1 > at {
                    assert(key_order(T::key_of(s[at]), T::key_of(s[j - 1])) == Order::Less);
                    lemma_key_transitive(key, T::key_of(s[at]), T::key_of(s[j - 1]));
                }
            } else {
                assert(r[i] == s[i - 1]);
                assert(key_order(T::key_of(s[i - 1]), T::key_of(s[j - 1])) == Order::Less);
            }
        }
    }
}

/// After an item was added, exactly the keys that were there and the item's key are there.
pub proof fn lemma_inserted_keys<T: Ordered>(
    s: Seq<T::V>,
    item: T::V,
    replace: bool,
    key: OrderKey,
)
    ensures
        has_key::<T>(inserted::<T>(s, item, replace), key) <==> has_key::<T>(s, key) || key
            == T::key_of(item),
{
    let at = slot::<T>(s, T::key_of(item));
    lemma_slot::<T>(s, T::key_of(item));
    let r = inserted::<T>(s, item, replace);
    if has_key::<T>(r, key) {
        let i = choose|i: int| 0 <= i < r.len() && #[trigger] T::key_of(r[i]) == key;
        if at < s.len() && T::key_of(s[at]) == T::key_of(item) {
            assert(T::key_of(r[i]) == T::key_of(s[i]));
        } else if i < at {
            assert(T::key_of(s[i]) == key);
        } else if i > at {
            assert(T::key_of(s[i - 1]) == key);
        }
    }
    if has_key::<T>(s, key) {
        let i = choose|i: int| 0 <= i < s.len() && #[trigger] T::key_of(s[i]) == key;
        if at < s.len() && T::key_of(s[at]) == T::key_of(item) {
            assert(T::key_of(r[i]) == key);
        } else if i < at {
            assert(T::key_of(r[i]) == key);
        } else {
            assert(r[i + 1] == s[i]);
            assert(T::key_of(r[i + 1]) == key);
        }
    }
    assert(T::key_of(r[at]) == T::key_of(item));
}

/// Whatever the items are, what is collected from them is sorted.
pub proof fn lemma_collected_sorted<T: Ordered>(items: Seq<T::V>, replace: bool)
    ensures
        sorted::<T>(collected::<T>(items, replace)),
    decreases items.len(),
{
    if items.len() > 0 {
        lemma_collected_sorted::<T>(items.drop_last(), replace);
        lemma_inserted_sorted::<T>(
            collected::<T>(items.drop_last(), replace),
            items.last(),
            replace,
        );
    }
}

/// What is collected holds the key of every item, and no other.
pub proof fn lemma_collected_keys<T: Ordered>(items: Seq<T::V>, replace: bool, key: OrderKey)
    ensures
        has_key::<T>(collected::<T>(items, replace), key) <==> has_key::<T>(items, key),
    decreases items.len(),
{
    if items.len() > 0 {
        let front = items.drop_last();
        lemma_collected_keys::<T>(front, replace, key);
        lemma_inserted_keys::<T>(collected::<T>(front, replace), items.last(), replace, key);
        if has_key::<T>(items, key) {
            let i = choose|i: int| 0 <= i < items.len() && #[trigger] T::key_of(items[i]) == key;
            if i < front.len() {
                assert(T::key_of(front[i]) == key);
            }
        }
        if has_key::<T>(front, key) {
            let i = choose|i: int| 0 <= i < front.len() && #[trigger] T::key_of(front[i]) == key;
            assert(T::key_of(items[i]) == key);
        }
        assert(T::key_of(items[items.len() - 1]) == T::key_of(items.last()));
    }
}

/// Collecting items that are sorted already gives them back as they are.
pub proof fn lemma_collected_of_sorted<T: Ordered>(items: Seq<T::V>, replace: bool)
    requires
        sorted::<T>(items),
    ensures
        collected::<T>(items, replace) == items,
    decreases items.len(),
{
    if items.len() > 0 {
        let front = items.drop_last();
        assert forall|i: int, j: int| 0 <= i < j < front.len() implies key_order(
            T::key_of(#[trigger] front[i]),
            T::key_of(#[trigger] front[j]),
        ) == Order::Less by {
            assert(key_order(T::key_of(items[i]), T::key_of(items[j])) == Order::Less);
        }
        lemma_collected_of_sorted::<T>(front, replace);
        let key = T::key_of(items.last());
        assert forall|i: int| 0 <= i < front.len() implies key_order(
            #[trigger] T::key_of(front[i]),
            key,
        ) == Order::Less by {
            assert(key_order(T::key_of(items[i]), T::key_of(items[items.len() - 1]))
                == Order::Less);
        }
        lemma_slot_unique::<T>(front, key, front.len() as int);
        assert(front.insert(front.len() as int, items.last()) =~= items);
    } else {
        assert(items =~= Seq::<T::V>::empty());
    }
}

/// Everything in what was collected is one of the items.
pub proof fn lemma_collected_from<T: Ordered>(items: Seq<T::V>, replace: bool, i: int)
    requires
        0 <= i < collected::<T>(items, replace).len(),
    ensures
        items.contains(collected::<T>(items, replace)[i]),
    decreases items.len(),
{
    let front = items.drop_last();
    let before = collected::<T>(front, replace);
    let all = collected::<T>(items, replace);
    let at = slot::<T>(before, T::key_of(items.last()));
    lemma_slot::<T>(before, T::key_of(items.last()));
    if all[i] == items.last() {
        assert(items[items.len() - 1] == all[i]);
    } else {
        let k = if all.len() == before.len() || i < at {
            i
        } else {
            i - 1
        };
        assert(all[i] == before[k]);
        lemma_collected_from::<T>(front, replace, k);
        let m = choose|m: int| 0 <= m < front.len() && front[m] == before[k];
        assert(items[m] == all[i]);
    }
}

/// No two items have the same key.
pub open spec fn distinct_keys<T: Ordered>(items: Seq<T::V>) -> bool {
    forall|i: int, j: int|
        0 <= i < j < items.len() ==> T::key_of(#[trigger] items[i]) != T::key_of(
            #[trigger] items[j],
        )
}

/// Of items with distinct keys none is lost in what is collected.
pub proof fn lemma_collected_keeps<T: Ordered>(items: Seq<T::V>, replace: bool, j: int)
    requires
        distinct_keys::<T>(items),
        0 <= j < items.len(),
    ensures
        collected::<T>(items, replace).contains(items[j]),
{
    let all = collected::<T>(items, replace);
    lemma_collected_keys::<T>(items, replace, T::key_of(items[j]));
    assert(has_key::<T>(items, T::key_of(items[j])));
    let i = choose|i: int|
        0 <= i < all.len() && #[trigger] T::key_of(all[i]) == T::key_of(items[j]);
    lemma_collected_from::<T>(items, replace, i);
    let m = choose|m: int| 0 <= m < items.len() && items[m] == all[i];
    assert(m == j) by {
        if m < j {
            assert(T::key_of(items[m]) != T::key_of(items[j]));
        } else if j < m {
            assert(T::key_of(items[j]) != T::key_of(items[m]));
        }
    }
    assert(all[i] == items[j]);
}

/// The items ascend by a key.
pub open spec fn ascending<A>(s: Seq<A>, key: spec_fn(A) -> OrderKey) -> bool {
    forall|i: int, j: int|
        #![trigger s[i], s[j]]
        0 <= i < j < s.len() ==> key_order(key(s[i]), key(s[j])) == Order::Less
}

/// Two ascending sequences of the same items are the same.
pub proof fn lemma_same_ascending<A>(s: Seq<A>, t: Seq<A>, key: spec_fn(A) -> OrderKey)
    requires
        ascending(s, key),
        ascending(t, key),
        forall|i: int| 0 <= i < s.len() ==> t.contains(#[trigger] s[i]),
        forall|j: int| 0 <= j < t.len() ==> s.contains(#[trigger] t[j]),
    ensures
        s == t,
    decreases s.len(),
{
    if s.len() == 0 {
        if t.len() > 0 {
            assert(s.contains(t[0]));
        }
        assert(s =~= t);
    } else {
        assert(t.contains(s[0]));
        let j = choose|j: int| 0 <= j < t.len() && t[j] == s[0];
        assert(s.contains(t[0]));
        let i = choose|i: int| 0 <= i < s.len() && s[i] == t[0];
        assert(s[0] == t[0]) by {
            if j > 0 && i > 0 {
                assert(key_order(key(t[0]), key(t[j])) == Order::Less);
                assert(key_order(key(s[0]), key(s[i])) == Order::Less);
                lemma_key_flip(key(s[0]), key(s[i]));
            }
        }
        let s1 = s.drop_first();
        let t1 = t.drop_first();
        assert forall|a: int, b: int|
            #![trigger s1[a], s1[b]]
            0 <= a < b < s1.len() implies key_order(key(s1[a]), key(s1[b])) == Order::Less by {
            assert(s1[a] == s[a + 1] && s1[b] == s[b + 1]);
        }
        assert forall|a: int, b: int|
            #![trigger t1[a], t1[b]]
            0 <= a < b < t1.len() implies key_order(key(t1[a]), key(t1[b])) == Order::Less by {
            assert(t1[a] == t[a + 1] && t1[b] == t[b + 1]);
        }
        lemma_key_equal(key(s[0]), key(s[0]));
        assert forall|a: int| 0 <= a < s1.len() implies t1.contains(#[trigger] s1[a]) by {
            assert(s1[a] == s[a + 1]);
            assert(t.contains(s[a + 1]));
            let b = choose|b: int| 0 <= b < t.len() && t[b] == s[a + 1];
            assert(key_order(key(s[0]), key(s[a + 1])) == Order::Less);
            assert(b != 0);
            assert(t1[b - 1] == s1[a]);
        }
        assert forall|a: int| 0 <= a < t1.len() implies s1.contains(#[trigger] t1[a]) by {
            assert(t1[a] == t[a + 1]);
            assert(s.contains(t[a + 1]));
            let b = choose|b: int| 0 <= b < s.len() && s[b] == t[a + 1];
            assert(key_order(key(t[0]), key(t[a + 1])) == Order::Less);
            assert(b != 0);
            assert(s1[b - 1] == t1[a]);
        }
        lemma_same_ascending(s1, t1, key);
        assert(s =~= seq![s[0]] + s1);
        assert(t =~= seq![t[0]] + t1);
    }
}

/// A sorted sequence comes back from being collected in another order: `items` are its items in
/// another form, with keys of their own, and `back` turns what was collected of them round again.
pub proof fn lemma_collected_through<A: Ordered, B: Ordered>(
    s: Seq<B::V>,
    items: Seq<A::V>,
    back: Seq<B::V>,
)
    requires
        sorted::<B>(s),
        items.len() == s.len(),
        distinct_keys::<A>(items),
        back.len() == collected::<A>(items, true).len(),
        forall|k: int, i: int|
            #![trigger back[k], items[i]]
            0 <= k < back.len() && 0 <= i < s.len() && collected::<A>(items, true)[k] == items[i]
                ==> back[k] == s[i],
    ensures
        collected::<B>(back, true) == s,
{
    let c = collected::<A>(items, true);
    let d = collected::<B>(back, true);
    lemma_collected_sorted::<A>(items, true);
    lemma_collected_sorted::<B>(back, true);
    assert(distinct_keys::<B>(back)) by {
        assert forall|k: int, l: int| 0 <= k < l < back.len() implies B::key_of(#[trigger] back[k])
            != B::key_of(#[trigger] back[l]) by {
            lemma_collected_from::<A>(items, true, k);
            lemma_collected_from::<A>(items, true, l);
            let i = choose|i: int| 0 <= i < items.len() && items[i] == c[k];
            let j = choose|j: int| 0 <= j < items.len() && items[j] == c[l];
            assert(back[k] == s[i] && back[l] == s[j]);
            assert(key_order(A::key_of(c[k]), A::key_of(c[l])) == Order::Less);
            lemma_key_equal(A::key_of(c[k]), A::key_of(c[k]));
            assert(i != j);
            lemma_key_equal(B::key_of(s[i]), B::key_of(s[j]));
            lemma_key_equal(B::key_of(s[j]), B::key_of(s[i]));
            if i < j {
                assert(key_order(B::key_of(s[i]), B::key_of(s[j])) == Order::Less);
            } else {
                assert(key_order(B::key_of(s[j]), B::key_of(s[i])) == Order::Less);
            }
        }
    }
    assert forall|k: int| 0 <= k < d.len() implies s.contains(#[trigger] d[k]) by {
        lemma_collected_from::<B>(back, true, k);
        let l = choose|l: int| 0 <= l < back.len() && back[l] == d[k];
        lemma_collected_from::<A>(items, true, l);
        let i = choose|i: int| 0 <= i < items.len() && items[i] == c[l];
        assert(back[l] == s[i]);
    }
    assert forall|i: int| 0 <= i < s.len() implies d.contains(#[trigger] s[i]) by {
        lemma_collected_keeps::<A>(items, true, i);
        let k = choose|k: int| 0 <= k < c.len() && c[k] == items[i];
        assert(back[k] == s[i]);
        lemma_collected_keeps::<B>(back, true, k);
    }
    let key = |v: B::V| B::key_of(v);
    assert(ascending(s, key)) by {
        assert forall|i: int, j: int|
            #![trigger s[i], s[j]]
            0 <= i < j < s.len() implies key_order(key(s[i]), key(s[j])) == Order::Less by {
            assert(key_order(B::key_of(s[i]), B::key_of(s[j])) == Order::Less);
        }
    }
    assert(ascending(d, key)) by {
        assert forall|i: int, j: int|
            #![trigger d[i], d[j]]
            0 <= i < j < d.len() implies key_order(key(d[i]), key(d[j])) == Order::Less by {
            assert(key_order(B::key_of(d[i]), B::key_of(d[j])) == Order::Less);
        }
    }
    lemma_same_ascending(d, s, key);
}

/// Every item has its like among items of another kind: what is collected of both has the same
/// labels in the same order, so the label of an item is that of one of the others.
pub proof fn lemma_collected_label<T: Ordered>(
    s: Seq<T::V>,
    t: Seq<T::V>,
    label: spec_fn(T::V) -> OrderKey,
    i: int,
) -> (m: int)
    requires
        distinct_keys::<T>(s),
        0 <= i < s.len(),
        collected::<T>(s, true).len() == collected::<T>(t, true).len(),
        forall|k: int|
            0 <= k < collected::<T>(s, true).len() ==> label(
                #[trigger] collected::<T>(s, true)[k],
            ) == label(collected::<T>(t, true)[k]),
    ensures
        0 <= m < t.len(),
        label(t[m]) == label(s[i]),
{
    let a = collected::<T>(s, true);
    let b = collected::<T>(t, true);
    lemma_collected_keeps::<T>(s, true, i);
    let k = choose|k: int| 0 <= k < a.len() && a[k] == s[i];
    assert(label(a[k]) == label(b[k]));
    lemma_collected_from::<T>(t, true, k);
    choose|m: int| 0 <= m < t.len() && t[m] == b[k]
}

/// Of items that share a key the last is kept where later items replace earlier ones, and the
/// first where they do not: what is collected under the key of an item is that item, unless a
/// later one, or an earlier one, has the same key.
pub proof fn collected_keeps_one<T: Ordered>(items: Seq<T::V>, replace: bool, j: int)
    requires
        0 <= j < items.len(),
        replace ==> forall|i: int|
            j < i < items.len() ==> T::key_of(#[trigger] items[i]) != T::key_of(items[j]),
        !replace ==> forall|i: int|
            0 <= i < j ==> T::key_of(#[trigger] items[i]) != T::key_of(items[j]),
    ensures
        collected::<T>(items, replace).contains(items[j]),
        forall|i: int|
            0 <= i < collected::<T>(items, replace).len() && T::key_of(
                #[trigger] collected::<T>(items, replace)[i],
            ) == T::key_of(items[j]) ==> collected::<T>(items, replace)[i] == items[j],
    decreases items.len(),
{
    let key = T::key_of(items[j]);
    let front = items.drop_last();
    let before = collected::<T>(front, replace);
    let all = collected::<T>(items, replace);
    let last = items.last();
    let at = slot::<T>(before, T::key_of(last));
    lemma_slot::<T>(before, T::key_of(last));
    lemma_collected_sorted::<T>(front, replace);
    lemma_collected_sorted::<T>(items, replace);
    let there = at < before.len() && T::key_of(before[at]) == T::key_of(last);
    if j == items.len() - 1 {
        if there && !replace {
            lemma_collected_keys::<T>(front, replace, key);
            assert(has_key::<T>(before, key));
            let i = choose|i: int| 0 <= i < front.len() && #[trigger] T::key_of(front[i]) == key;
            assert(T::key_of(items[i]) == key);
        }
        assert(all[at] == last);
        lemma_sorted_unique::<T>(all, at, key);
    } else {
        assert(front[j] == items[j]);
        assert forall|i: int| replace && j < i < front.len() implies T::key_of(
            #[trigger] front[i],
        ) != T::key_of(front[j]) by {
            assert(front[i] == items[i]);
        }
        assert forall|i: int| !replace && 0 <= i < j implies T::key_of(#[trigger] front[i])
            != T::key_of(front[j]) by {
            assert(front[i] == items[i]);
        }
        collected_keeps_one::<T>(front, replace, j);
        let m = choose|m: int| 0 <= m < before.len() && before[m] == items[j];
        assert(items[items.len() - 1] == last);
        let n = if there {
            m
        } else if m < at {
            m
        } else {
            m + 1
        };
        if there && replace {
            assert(T::key_of(last) != key);
            assert(m != at);
        }
        assert(all[n] == items[j]);
        lemma_sorted_unique::<T>(all, n, key);
    }
}

/// In a sorted sequence no other item has the key of an item.
proof fn lemma_sorted_unique<T: Ordered>(s: Seq<T::V>, n: int, key: OrderKey)
    requires
        sorted::<T>(s),
        0 <= n < s.len(),
        T::key_of(s[n]) == key,
    ensures
        forall|i: int| 0 <= i < s.len() && T::key_of(#[trigger] s[i]) == key ==> s[i] == s[n],
{
    lemma_key_equal(key, key);
    assert forall|i: int| 0 <= i < s.len() && T::key_of(#[trigger] s[i]) == key implies s[i]
        == s[n] by {
        if i < n {
            assert(key_order(T::key_of(s[i]), T::key_of(s[n])) == Order::Less);
        } else if n < i {
            assert(key_order(T::key_of(s[n]), T::key_of(s[i])) == Order::Less);
        }
    }
}

/// One item that is added to a sorted sequence stands in it with all that was there before, unless
/// its key was there: then the sequence stays as long as it was, and the item stands in it in place
/// of the one with that key, or not at all.
pub proof fn inserted_adds_one<T: Ordered>(s: Seq<T::V>, item: T::V, replace: bool)
    requires
        sorted::<T>(s),
    ensures
        sorted::<T>(inserted::<T>(s, item, replace)),
        !has_key::<T>(s, T::key_of(item)) ==> {
            &&& inserted::<T>(s, item, replace).len() == s.len() + 1
            &&& inserted::<T>(s, item, replace).contains(item)
            &&& forall|i: int|
                0 <= i < s.len() ==> inserted::<T>(s, item, replace).contains(#[trigger] s[i])
        },
        has_key::<T>(s, T::key_of(item)) && !replace ==> inserted::<T>(s, item, replace) == s,
        has_key::<T>(s, T::key_of(item)) && replace ==> {
            &&& inserted::<T>(s, item, replace).len() == s.len()
            &&& forall|i: int|
                0 <= i < s.len() ==> (#[trigger] inserted::<T>(s, item, replace)[i]) == if T::key_of(
                    s[i],
                ) == T::key_of(item) {
                    item
                } else {
                    s[i]
                }
        },
{
    let key = T::key_of(item);
    let at = slot::<T>(s, key);
    let r = inserted::<T>(s, item, replace);
    lemma_slot::<T>(s, key);
    lemma_inserted_sorted::<T>(s, item, replace);
    if has_key::<T>(s, key) {
        let n = choose|n: int| 0 <= n < s.len() && #[trigger] T::key_of(s[n]) == key;
        lemma_key_equal(key, key);
        assert(at <= n) by {
            if n < at {
                assert(key_order(T::key_of(s[n]), key) == Order::Less);
            }
        }
        assert(at == n) by {
            if at < n {
                assert(key_order(T::key_of(s[at]), T::key_of(s[n])) == Order::Less);
            }
        }
        assert forall|i: int| 0 <= i < s.len() && i != at implies T::key_of(s[i]) != key by {
            if T::key_of(s[i]) == key {
                if i < at {
                    assert(key_order(T::key_of(s[i]), T::key_of(s[at])) == Order::Less);
                } else {
                    assert(key_order(T::key_of(s[at]), T::key_of(s[i])) == Order::Less);
                }
            }
        }
    } else {
        assert(at < s.len() ==> T::key_of(s[at]) != key);
        assert(r[at] == item);
        assert forall|i: int| 0 <= i < s.len() implies r.contains(#[trigger] s[i]) by {
            if i < at {
                assert(r[i] == s[i]);
            } else {
                assert(r[i + 1] == s[i]);
            }
        }
    }
}

/// Adds an item in its place, see [`inserted`].
pub fn insert_sorted<T: Ordered>(items: &mut Vec<T>, item: T, replace: bool)
    requires
        sorted::<T>(views(old(items)@)),
    ensures
        views(final(items)@) == inserted::<T>(views(old(items)@), item@, replace),
        sorted::<T>(views(final(items)@)),
{
    let ghost before = views(items@);
    let ghost key = T::key_of(item@);
    proof {
        lemma_inserted_sorted::<T>(before, item@, replace);
    }
    let mut at: usize = 0;
    while at < items.len()
        invariant
            at <= items.len(),
            before == views(items@),
            key == T::key_of(item@),
            sorted::<T>(before),
            before == views(old(items)@),
            sorted::<T>(inserted::<T>(before, item@, replace)),
            forall|i: int|
                0 <= i < at ==> key_order(#[trigger] T::key_of(before[i]), key) == Order::Less,
        decreases items.len() - at,
    {
        let o = items[at].compare(&item);
        assert(before[at as int] == items@[at as int]@);
        match o {
            Order::Less => {
                at = at + 1;
            },
            Order::Equal => {
                proof {
                    lemma_key_equal(T::key_of(before[at as int]), key);
                    lemma_slot_unique::<T>(before, key, at as int);
                }
                if replace {
                    let ghost added = item@;
                    items.set(at, item);
                    assert(views(items@) =~= before.update(at as int, added));
                }
                return ;
            },
            Order::Greater => {
                proof {
                    lemma_key_equal(T::key_of(before[at as int]), key);
                    lemma_slot_unique::<T>(before, key, at as int);
                }
                let ghost added = item@;
                items.insert(at, item);
                assert(views(items@) =~= before.insert(at as int, added));
                return ;
            },
        }
    }
    proof {
        lemma_slot_unique::<T>(before, key, at as int);
    }
    let ghost added = item@;
    items.push(item);
    assert(views(items@) =~= before.insert(at as int, added));
}

/// Adds the items one after the other to an empty sequence, see [`collected`].
pub fn collect_sorted<T: Ordered>(items: Vec<T>, replace: bool) -> (r: Vec<T>)
    ensures
        views(r@) == collected::<T>(views(items@), replace),
        sorted::<T>(views(r@)),
{
    let ghost all = views(items@);
    let mut out: Vec<T> = Vec::new();
    assert(views(out@) =~= Seq::<T::V>::empty());
    let mut rest = items;
    // Items are handed over from the back, so the order is turned round first.
    let mut back: Vec<T> = Vec::new();
    while rest.len() > 0
        invariant
            views(rest@) + views(back@).reverse() =~= all,
        decreases rest.len(),
    {
        let ghost r0 = views(rest@);
        let ghost b0 = views(back@);
        if let Some(item) = rest.pop() {
            back.push(item);
            assert(views(rest@) =~= r0.drop_last());
            assert(views(back@) =~= b0.push(item@));
            assert(views(back@).reverse() =~= seq![item@] + b0.reverse());
            assert(r0 =~= r0.drop_last().push(item@));
        }
    }
    assert(views(back@).reverse() =~= all);
    assert(all.take(0) =~= Seq::<T::V>::empty());
    while back.len() > 0
        invariant
            back.len() <= all.len(),
            views(back@).reverse() =~= all.skip(all.len() - back.len()),
            views(out@) == collected::<T>(all.take(all.len() - back.len()), replace),
            sorted::<T>(views(out@)),
        decreases back.len(),
    {
        let ghost n = all.len() - back.len();
        let ghost b0 = views(back@);
        if let Some(item) = back.pop() {
            proof {
                assert(views(back@) =~= b0.drop_last());
                assert(b0.reverse()[0] == item@);
                assert(all.skip(n)[0] == all[n]);
                assert(all.take(n + 1).drop_last() =~= all.take(n));
                assert(views(back@).reverse() =~= b0.reverse().drop_first());
                assert(all.skip(n).drop_first() =~= all.skip(n + 1));
            }
            insert_sorted(&mut out, item, replace);
        }
    }
    assert(all.take(all.len() as int) =~= all);
    out
}

} // verus!
