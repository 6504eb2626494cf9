//! A value is the same after Python code has seen it.
use vstd::prelude::*;

use crate::order::{key_order, Order, OrderKey};
use crate::python::{
    convertible, py_entries, py_view, py_views, rust_entries, rust_view, rust_views,
};
use crate::python_value as py;
use crate::sorted::{
    ascending, collected, distinct_keys, lemma_collected_from, lemma_collected_label,
    lemma_collected_through, lemma_same_ascending, sorted, Ordered,
};
use crate::value::{
    entry_keys, lemma_order_key, order_key, order_keys, pair_key, TableEntry, Value, ValueView,
};

verus! {

/// What a [`Value`] guarantees of its parts: sets and tables ascend, and no prefix is longer than
/// its address.
pub open spec fn well_formed(v: ValueView) -> bool
    decreases v,
{
    match v {
        ValueView::Subnet(x) => x.1 <= x.0.width(),
        ValueView::Vector(s) => forall|i: int| 0 <= i < s.len() ==> well_formed(#[trigger] s[i]),
        ValueView::SetOf(s) => sorted::<Value>(s) && forall|i: int|
            0 <= i < s.len() ==> well_formed(#[trigger] s[i]),
        ValueView::Table(t) => sorted::<TableEntry>(t) && forall|i: int|
            0 <= i < t.len() ==> well_formed((#[trigger] t[i]).0) && well_formed(t[i].1),
        _ => true,
    }
}

/// How deeply values are nested.
pub open spec fn depth(v: ValueView) -> nat
    decreases v,
{
    match v {
        ValueView::Vector(s) => 1 + depth_all(s),
        ValueView::SetOf(s) => 1 + depth_all(s),
        ValueView::Table(t) => 1 + depth_entries(t),
        _ => 0,
    }
}

pub open spec fn depth_all(s: Seq<ValueView>) -> nat
    decreases s,
{
    if s.len() == 0 {
        0
    } else {
        larger(depth_all(s.drop_last()), depth(s.last()))
    }
}

pub open spec fn depth_entries(t: Seq<(ValueView, ValueView)>) -> nat
    decreases t,
{
    if t.len() == 0 {
        0
    } else {
        larger(depth_entries(t.drop_last()), larger(depth(t.last().0), depth(t.last().1)))
    }
}

pub open spec fn larger(a: nat, b: nat) -> nat {
    if a < b {
        b
    } else {
        a
    }
}

proof fn lemma_depth_all(s: Seq<ValueView>, i: int)
    requires
        0 <= i < s.len(),
    ensures
        depth(s[i]) <= depth_all(s),
    decreases s.len(),
{
    if i < s.len() - 1 {
        lemma_depth_all(s.drop_last(), i);
    }
}

proof fn lemma_depth_entries(t: Seq<(ValueView, ValueView)>, i: int)
    requires
        0 <= i < t.len(),
    ensures
        depth(t[i].0) <= depth_entries(t),
        depth(t[i].1) <= depth_entries(t),
    decreases t.len(),
{
    if i < t.len() - 1 {
        lemma_depth_entries(t.drop_last(), i);
    }
}

/// Values that Python code sees as equal are equal.
#[verifier::rlimit(50)]
pub proof fn equal_in_python(a: ValueView, b: ValueView)
    requires
        well_formed(a),
        well_formed(b),
        py::order_key(py_view(a)) == py::order_key(py_view(b)),
    ensures
        order_key(a) == order_key(b),
    decreases larger(depth(a), depth(b)), 1nat,
{
    let pa = py_view(a);
    let pb = py_view(b);
    py::lemma_order_key(pa);
    py::lemma_order_key(pb);
    lemma_order_key(a);
    lemma_order_key(b);
    let ha = py::order_key(pa).head;
    let hb = py::order_key(pb).head;
    assert(ha[0] == py::kind_rank(pa));
    assert(hb[0] == py::kind_rank(pb));
    assert(ha.drop_first() =~= py::scalar_key(pa));
    assert(hb.drop_first() =~= py::scalar_key(pb));
    match (a, b) {
        (ValueView::Vector(s), ValueView::Vector(t)) => {
            let ka = py::order_keys(py_views(s));
            let kb = py::order_keys(py_views(t));
            assert(ka == kb);
            assert(ka.len() == kb.len());
            assert forall|i: int| 0 <= i < s.len() implies order_key(s[i]) == order_key(t[i]) by {
                assert(ka[i] == kb[i]);
                lemma_depth_all(s, i);
                lemma_depth_all(t, i);
                assert(well_formed(s[i]) && well_formed(t[i]));
                equal_in_python(s[i], t[i]);
            }
            assert(order_keys(s) =~= order_keys(t));
        },
        (ValueView::SetOf(s), ValueView::SetOf(t)) => {
            lemma_sets_equal(s, t);
        },
        (ValueView::Table(s), ValueView::Table(t)) => {
            lemma_tables_equal(s, t);
        },
        (ValueView::Port(x), ValueView::Port(y)) => {
            assert(py::scalar_key(pa)[0] == py::scalar_key(pb)[0]);
            assert(py::scalar_key(pa)[1] == py::scalar_key(pb)[1]);
        },
        _ => {
            assert(crate::value::kind_rank(a) == crate::value::kind_rank(b));
        },
    }
}

/// The values in a set are well-formed.
proof fn lemma_item_formed(s: Seq<ValueView>, i: int)
    requires
        well_formed(ValueView::SetOf(s)),
        0 <= i < s.len(),
    ensures
        well_formed(s[i]),
{
}

/// The values in a set ascend.
proof fn lemma_items_differ(s: Seq<ValueView>, i: int, j: int)
    requires
        well_formed(ValueView::SetOf(s)),
        0 <= i < j < s.len(),
    ensures
        order_key(s[i]) != order_key(s[j]),
{
    assert(key_order(Value::key_of(s[i]), Value::key_of(s[j])) == Order::Less);
    crate::order::lemma_key_equal(order_key(s[i]), order_key(s[j]));
}

/// In a set, Python code sees distinct values as distinct.
#[verifier::rlimit(50)]
proof fn lemma_set_distinct(s: Seq<ValueView>)
    requires
        well_formed(ValueView::SetOf(s)),
    ensures
        distinct_keys::<py::Value>(py_views(s)),
    decreases depth_all(s), 2nat,
{
    let items = py_views(s);
    assert forall|i: int, j: int| 0 <= i < j < items.len() implies py::order_key(
        #[trigger] items[i],
    ) != py::order_key(#[trigger] items[j]) by {
        lemma_items_differ(s, i, j);
        lemma_item_formed(s, i);
        lemma_item_formed(s, j);
        lemma_depth_all(s, i);
        lemma_depth_all(s, j);
        assert(items[i] == py_view(s[i]));
        assert(items[j] == py_view(s[j]));
        if py::order_key(items[i]) == py::order_key(items[j]) {
            equal_in_python(s[i], s[j]);
        }
    }
}

/// The parts of an entry of a table are well-formed.
proof fn lemma_entry_formed(t: Seq<(ValueView, ValueView)>, i: int)
    requires
        well_formed(ValueView::Table(t)),
        0 <= i < t.len(),
    ensures
        well_formed(t[i].0),
        well_formed(t[i].1),
{
}

/// The keys in a table ascend.
proof fn lemma_entries_differ(t: Seq<(ValueView, ValueView)>, i: int, j: int)
    requires
        well_formed(ValueView::Table(t)),
        0 <= i < j < t.len(),
    ensures
        order_key(t[i].0) != order_key(t[j].0),
{
    assert(key_order(TableEntry::key_of(t[i]), TableEntry::key_of(t[j])) == Order::Less);
    crate::order::lemma_key_equal(order_key(t[i].0), order_key(t[j].0));
}

/// In a table, Python code sees distinct keys as distinct.
#[verifier::rlimit(50)]
proof fn lemma_table_distinct(t: Seq<(ValueView, ValueView)>)
    requires
        well_formed(ValueView::Table(t)),
    ensures
        distinct_keys::<py::TableEntry>(py_entries(t)),
    decreases depth_entries(t), 2nat,
{
    let items = py_entries(t);
    assert forall|i: int, j: int| 0 <= i < j < items.len() implies py::TableEntry::key_of(
        #[trigger] items[i],
    ) != py::TableEntry::key_of(#[trigger] items[j]) by {
        lemma_entries_differ(t, i, j);
        lemma_entry_formed(t, i);
        lemma_entry_formed(t, j);
        lemma_depth_entries(t, i);
        lemma_depth_entries(t, j);
        assert(items[i].0 == py_view(t[i].0));
        assert(items[j].0 == py_view(t[j].0));
        if py::order_key(items[i].0) == py::order_key(items[j].0) {
            equal_in_python(t[i].0, t[j].0);
        }
    }
}

/// For each value of one set there is an equal one in the other.
#[verifier::rlimit(50)]
proof fn lemma_set_found(s: Seq<ValueView>, t: Seq<ValueView>, i: int)
    requires
        well_formed(ValueView::SetOf(s)),
        well_formed(ValueView::SetOf(t)),
        py::order_keys(collected::<py::Value>(py_views(s), true)) == py::order_keys(
            collected::<py::Value>(py_views(t), true),
        ),
        0 <= i < s.len(),
    ensures
        order_keys(t).contains(order_keys(s)[i]),
    decreases larger(depth_all(s), depth_all(t)), 3nat,
{
    let a = collected::<py::Value>(py_views(s), true);
    let b = collected::<py::Value>(py_views(t), true);
    let label = |v: py::ValueView| py::order_key(v);
    lemma_set_distinct(s);
    assert(py::order_keys(a).len() == py::order_keys(b).len());
    assert forall|k: int| 0 <= k < a.len() implies label(#[trigger] a[k]) == label(b[k]) by {
        assert(py::order_keys(a)[k] == py::order_keys(b)[k]);
    }
    let m = lemma_collected_label::<py::Value>(py_views(s), py_views(t), label, i);
    lemma_depth_all(s, i);
    lemma_depth_all(t, m);
    assert(well_formed(s[i]) && well_formed(t[m]));
    equal_in_python(s[i], t[m]);
    assert(order_keys(t)[m] == order_keys(s)[i]);
}

proof fn lemma_sets_equal(s: Seq<ValueView>, t: Seq<ValueView>)
    requires
        well_formed(ValueView::SetOf(s)),
        well_formed(ValueView::SetOf(t)),
        py::order_keys(collected::<py::Value>(py_views(s), true)) == py::order_keys(
            collected::<py::Value>(py_views(t), true),
        ),
    ensures
        order_keys(s) == order_keys(t),
    decreases larger(depth_all(s), depth_all(t)), 4nat,
{
    let key = |k: OrderKey| k;
    assert forall|i: int| 0 <= i < order_keys(s).len() implies order_keys(t).contains(
        #[trigger] order_keys(s)[i],
    ) by {
        lemma_set_found(s, t, i);
    }
    assert forall|i: int| 0 <= i < order_keys(t).len() implies order_keys(s).contains(
        #[trigger] order_keys(t)[i],
    ) by {
        lemma_set_found(t, s, i);
    }
    lemma_keys_ascend(s);
    lemma_keys_ascend(t);
    lemma_same_ascending(order_keys(s), order_keys(t), |k: OrderKey| k);
}

proof fn lemma_keys_ascend(s: Seq<ValueView>)
    requires
        sorted::<Value>(s),
    ensures
        ascending(order_keys(s), |k: OrderKey| k),
{
    let key = |k: OrderKey| k;
    let keys = order_keys(s);
    assert forall|i: int, j: int|
        #![trigger keys[i], keys[j]]
        0 <= i < j < keys.len() implies key_order(key(keys[i]), key(keys[j])) == Order::Less by {
        assert(key_order(Value::key_of(s[i]), Value::key_of(s[j])) == Order::Less);
    }
}

/// Python code sees two entries as equal.
#[verifier::opaque]
spec fn entries_look_equal(a: (ValueView, ValueView), b: (ValueView, ValueView)) -> bool {
    py::order_key(py_view(a.0)) == py::order_key(py_view(b.0)) && py::order_key(py_view(a.1))
        == py::order_key(py_view(b.1))
}

/// Python code sees two tables as equal.
#[verifier::opaque]
spec fn tables_look_equal(s: Seq<(ValueView, ValueView)>, t: Seq<(ValueView, ValueView)>) -> bool {
    py::entry_keys(collected::<py::TableEntry>(py_entries(s), true)) == py::entry_keys(
        collected::<py::TableEntry>(py_entries(t), true),
    )
}

/// For each entry of one table there is one in the other that Python code sees as equal.
proof fn lemma_table_label(
    s: Seq<(ValueView, ValueView)>,
    t: Seq<(ValueView, ValueView)>,
    i: int,
) -> (m: int)
    requires
        distinct_keys::<py::TableEntry>(py_entries(s)),
        tables_look_equal(s, t),
        0 <= i < s.len(),
    ensures
        0 <= m < t.len(),
        entries_look_equal(s[i], t[m]),
{
    reveal(tables_look_equal);
    reveal(entries_look_equal);
    let a = collected::<py::TableEntry>(py_entries(s), true);
    let b = collected::<py::TableEntry>(py_entries(t), true);
    let label = |e: (py::ValueView, py::ValueView)|
        pair_key(py::order_key(e.0), py::order_key(e.1));
    assert(py::entry_keys(a).len() == py::entry_keys(b).len());
    assert forall|k: int| 0 <= k < a.len() implies label(#[trigger] a[k]) == label(b[k]) by {
        assert(py::entry_keys(a)[k] == py::entry_keys(b)[k]);
    }
    let m = lemma_collected_label::<py::TableEntry>(py_entries(s), py_entries(t), label, i);
    let x = label(py_entries(s)[i]);
    let y = label(py_entries(t)[m]);
    assert(x.children[0] == y.children[0]);
    assert(x.children[1] == y.children[1]);
    m
}

/// For each entry of one table there is an equal one in the other.
#[verifier::rlimit(50)]
proof fn lemma_table_found(
    s: Seq<(ValueView, ValueView)>,
    t: Seq<(ValueView, ValueView)>,
    i: int,
)
    requires
        well_formed(ValueView::Table(s)),
        well_formed(ValueView::Table(t)),
        tables_look_equal(s, t),
        0 <= i < s.len(),
    ensures
        entry_keys(t).contains(entry_keys(s)[i]),
    decreases larger(depth_entries(s), depth_entries(t)), 3nat,
{
    lemma_table_distinct(s);
    let m = lemma_table_label(s, t, i);
    lemma_depth_entries(s, i);
    lemma_depth_entries(t, m);
    lemma_entry_formed(s, i);
    lemma_entry_formed(t, m);
    lemma_entry_equal(s[i], t[m]);
    lemma_entry_contained(s, t, i, m);
}

proof fn lemma_entry_contained(
    s: Seq<(ValueView, ValueView)>,
    t: Seq<(ValueView, ValueView)>,
    i: int,
    m: int,
)
    requires
        0 <= i < s.len(),
        0 <= m < t.len(),
        order_key(s[i].0) == order_key(t[m].0),
        order_key(s[i].1) == order_key(t[m].1),
    ensures
        entry_keys(t).contains(entry_keys(s)[i]),
{
    assert(entry_keys(t)[m] == entry_keys(s)[i]);
}

/// Entries that Python code sees as equal are equal.
proof fn lemma_entry_equal(a: (ValueView, ValueView), b: (ValueView, ValueView))
    requires
        well_formed(a.0),
        well_formed(a.1),
        well_formed(b.0),
        well_formed(b.1),
        entries_look_equal(a, b),
    ensures
        order_key(a.0) == order_key(b.0),
        order_key(a.1) == order_key(b.1),
    decreases
            larger(larger(depth(a.0), depth(a.1)), larger(depth(b.0), depth(b.1))),
            2nat,
{
    reveal(entries_look_equal);
    equal_in_python(a.0, b.0);
    equal_in_python(a.1, b.1);
}

proof fn lemma_tables_equal(s: Seq<(ValueView, ValueView)>, t: Seq<(ValueView, ValueView)>)
    requires
        well_formed(ValueView::Table(s)),
        well_formed(ValueView::Table(t)),
        py::entry_keys(collected::<py::TableEntry>(py_entries(s), true)) == py::entry_keys(
            collected::<py::TableEntry>(py_entries(t), true),
        ),
    ensures
        entry_keys(s) == entry_keys(t),
    decreases larger(depth_entries(s), depth_entries(t)), 4nat,
{
    assert(tables_look_equal(s, t) && tables_look_equal(t, s)) by {
        reveal(tables_look_equal);
    }
    assert forall|i: int| 0 <= i < entry_keys(s).len() implies entry_keys(t).contains(
        #[trigger] entry_keys(s)[i],
    ) by {
        lemma_table_found(s, t, i);
    }
    assert forall|i: int| 0 <= i < entry_keys(t).len() implies entry_keys(s).contains(
        #[trigger] entry_keys(t)[i],
    ) by {
        lemma_table_found(t, s, i);
    }
    lemma_entries_ascend(s);
    lemma_entries_ascend(t);
    lemma_same_ascending(entry_keys(s), entry_keys(t), |k: OrderKey| k.children[0]);
}

proof fn lemma_entries_ascend(t: Seq<(ValueView, ValueView)>)
    requires
        sorted::<TableEntry>(t),
    ensures
        ascending(entry_keys(t), |k: OrderKey| k.children[0]),
{
    let key = |k: OrderKey| k.children[0];
    let keys = entry_keys(t);
    assert forall|i: int, j: int|
        #![trigger keys[i], keys[j]]
        0 <= i < j < keys.len() implies key_order(key(keys[i]), key(keys[j])) == Order::Less by {
        assert(keys[i].children[0] == order_key(t[i].0));
        assert(keys[j].children[0] == order_key(t[j].0));
        assert(key_order(TableEntry::key_of(t[i]), TableEntry::key_of(t[j])) == Order::Less);
    }
}

/// A value that goes to Python code and comes back is the same, and nothing that goes there is
/// refused on the way back.
pub proof fn python_reads_back(v: ValueView)
    requires
        well_formed(v),
    ensures
        convertible(py_view(v)),
        rust_view(py_view(v)) == v,
    decreases depth(v), 0nat,
{
    match v {
        ValueView::Vector(s) => {
            let items = py_views(s);
            assert forall|i: int| 0 <= i < items.len() implies convertible(#[trigger] items[i])
                && rust_view(items[i]) == s[i] by {
                lemma_depth_all(s, i);
                assert(well_formed(s[i]));
                python_reads_back(s[i]);
            }
            assert(rust_views(items) =~= s);
        },
        ValueView::SetOf(s) => {
            lemma_set_reads_back(s);
        },
        ValueView::Table(t) => {
            lemma_table_reads_back(t);
        },
        ValueView::Port(x) => {
            broadcast use crate::port::Port::lemma_parts;

            assert(crate::port::Port::of(x.spec_number(), x.spec_protocol()) == x);
        },
        _ => {},
    }
}

#[verifier::rlimit(50)]
proof fn lemma_set_reads_back(s: Seq<ValueView>)
    requires
        well_formed(ValueView::SetOf(s)),
    ensures
        convertible(py_view(ValueView::SetOf(s))),
        rust_view(py_view(ValueView::SetOf(s))) == ValueView::SetOf(s),
    decreases depth_all(s), 5nat,
{
    let items = py_views(s);
    let c = collected::<py::Value>(items, true);
    let back = rust_views(c);
    lemma_set_distinct(s);
    assert forall|i: int| 0 <= i < items.len() implies convertible(#[trigger] items[i])
        && rust_view(items[i]) == s[i] by {
        lemma_depth_all(s, i);
        assert(well_formed(s[i]));
        python_reads_back(s[i]);
    }
    assert forall|k: int| 0 <= k < c.len() implies convertible(#[trigger] c[k]) by {
        lemma_collected_from::<py::Value>(items, true, k);
        let i = choose|i: int| 0 <= i < items.len() && items[i] == c[k];
        assert(convertible(items[i]));
    }
    assert forall|k: int, i: int|
        #![trigger back[k], items[i]]
        0 <= k < back.len() && 0 <= i < s.len() && c[k] == items[i] implies back[k] == s[i] by {
        assert(rust_view(items[i]) == s[i]);
    }
    lemma_collected_through::<py::Value, Value>(s, items, back);
}

#[verifier::rlimit(50)]
proof fn lemma_table_reads_back(t: Seq<(ValueView, ValueView)>)
    requires
        well_formed(ValueView::Table(t)),
    ensures
        convertible(py_view(ValueView::Table(t))),
        rust_view(py_view(ValueView::Table(t))) == ValueView::Table(t),
    decreases depth_entries(t), 5nat,
{
    let items = py_entries(t);
    let c = collected::<py::TableEntry>(items, true);
    let back = rust_entries(c);
    lemma_table_distinct(t);
    assert forall|i: int| 0 <= i < items.len() implies convertible((#[trigger] items[i]).0)
        && convertible(items[i].1) && rust_view(items[i].0) == t[i].0 && rust_view(items[i].1)
        == t[i].1 by {
        lemma_depth_entries(t, i);
        assert(well_formed(t[i].0) && well_formed(t[i].1));
        python_reads_back(t[i].0);
        python_reads_back(t[i].1);
    }
    assert forall|k: int| 0 <= k < c.len() implies convertible((#[trigger] c[k]).0) && convertible(
        c[k].1,
    ) by {
        lemma_collected_from::<py::TableEntry>(items, true, k);
        let i = choose|i: int| 0 <= i < items.len() && items[i] == c[k];
        assert(convertible(items[i].0));
    }
    assert forall|k: int, i: int|
        #![trigger back[k], items[i]]
        0 <= k < back.len() && 0 <= i < t.len() && c[k] == items[i] implies back[k] == t[i] by {
        assert(rust_view(items[i].0) == t[i].0);
        assert(rust_view(items[i].1) == t[i].1);
    }
    lemma_collected_through::<py::TableEntry, TableEntry>(t, items, back);
}

} // verus!
