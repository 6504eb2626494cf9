//! The order in which values sort, and sequences kept sorted by it.
//!
//! Every type that takes part maps its abstract value to an [`OrderKey`], a tree of integers.
//! Two values sort as their keys do, and two values whose keys agree count as equal.
use vstd::prelude::*;

verus! {

/// Outcome of comparing two values.
#[derive(Debug, Clone, Copy, PartialEq, Eq, Structural)]
pub enum Order {
    Less,
    Equal,
    Greater,
}

/// The outcome with the two sides exchanged.
pub open spec fn flipped(o: Order) -> Order {
    match o {
        Order::Less => Order::Greater,
        Order::Equal => Order::Equal,
        Order::Greater => Order::Less,
    }
}

pub open spec fn int_order(a: int, b: int) -> Order {
    if a < b {
        Order::Less
    } else if a == b {
        Order::Equal
    } else {
        Order::Greater
    }
}

/// Lexicographic order: the first difference decides, and a proper prefix sorts first.
pub open spec fn lex_order(a: Seq<int>, b: Seq<int>) -> Order
    decreases a.len(),
{
    if a.len() == 0 || b.len() == 0 {
        int_order(a.len() as int, b.len() as int)
    } else if a[0] != b[0] {
        int_order(a[0], b[0])
    } else {
        lex_order(a.drop_first(), b.drop_first())
    }
}

/// What a value sorts by: its own data first, then its parts in turn.
pub struct OrderKey {
    pub head: Seq<int>,
    pub children: Seq<OrderKey>,
}

pub open spec fn key_order(a: OrderKey, b: OrderKey) -> Order
    decreases a, 0nat,
{
    if lex_order(a.head, b.head) != Order::Equal {
        lex_order(a.head, b.head)
    } else {
        keys_order(a.children, b.children)
    }
}

pub open spec fn keys_order(a: Seq<OrderKey>, b: Seq<OrderKey>) -> Order
    decreases a, 1nat,
{
    if a.len() == 0 || b.len() == 0 {
        int_order(a.len() as int, b.len() as int)
    } else if key_order(a[0], b[0]) != Order::Equal {
        key_order(a[0], b[0])
    } else {
        keys_order(a.drop_first(), b.drop_first())
    }
}

pub proof fn lemma_lex_flip(a: Seq<int>, b: Seq<int>)
    ensures
        lex_order(b, a) == flipped(lex_order(a, b)),
    decreases a.len(),
{
    if a.len() > 0 && b.len() > 0 && a[0] == b[0] {
        lemma_lex_flip(a.drop_first(), b.drop_first());
    }
}

pub proof fn lemma_lex_equal(a: Seq<int>, b: Seq<int>)
    ensures
        lex_order(a, b) == Order::Equal <==> a == b,
    decreases a.len(),
{
    if a.len() > 0 && b.len() > 0 && a[0] == b[0] {
        lemma_lex_equal(a.drop_first(), b.drop_first());
        if a.drop_first() == b.drop_first() {
            assert(a =~= seq![a[0]] + a.drop_first());
            assert(b =~= seq![b[0]] + b.drop_first());
        }
    } else if a.len() == 0 && b.len() == 0 {
        assert(a =~= b);
    }
}

pub proof fn lemma_lex_transitive(a: Seq<int>, b: Seq<int>, c: Seq<int>)
    requires
        lex_order(a, b) == Order::Less,
        lex_order(b, c) == Order::Less,
    ensures
        lex_order(a, c) == Order::Less,
    decreases a.len(),
{
    if a.len() > 0 && b.len() > 0 && c.len() > 0 && a[0] == b[0] && b[0] == c[0] {
        lemma_lex_transitive(a.drop_first(), b.drop_first(), c.drop_first());
    }
}

/// What two sequences start with in common does not matter to their order.
pub proof fn lemma_lex_common(p: Seq<int>, a: Seq<int>, b: Seq<int>)
    ensures
        lex_order(p + a, p + b) == lex_order(a, b),
    decreases p.len(),
{
    if p.len() > 0 {
        assert((p + a).drop_first() =~= p.drop_first() + a);
        assert((p + b).drop_first() =~= p.drop_first() + b);
        lemma_lex_common(p.drop_first(), a, b);
    } else {
        assert(p + a =~= a);
        assert(p + b =~= b);
    }
}

/// What two sequences of keys start with in common does not matter to their order.
pub proof fn lemma_keys_common(p: Seq<OrderKey>, a: Seq<OrderKey>, b: Seq<OrderKey>)
    ensures
        keys_order(p + a, p + b) == keys_order(a, b),
    decreases p.len(),
{
    if p.len() > 0 {
        assert((p + a).drop_first() =~= p.drop_first() + a);
        assert((p + b).drop_first() =~= p.drop_first() + b);
        lemma_key_equal(p[0], p[0]);
        lemma_keys_common(p.drop_first(), a, b);
    } else {
        assert(p + a =~= a);
        assert(p + b =~= b);
    }
}

/// Exchanging the two sides of a comparison turns its outcome round.
pub proof fn lemma_key_flip(a: OrderKey, b: OrderKey)
    ensures
        key_order(b, a) == flipped(key_order(a, b)),
    decreases a, 0nat,
{
    lemma_lex_flip(a.head, b.head);
    lemma_keys_flip(a.children, b.children);
}

pub proof fn lemma_keys_flip(a: Seq<OrderKey>, b: Seq<OrderKey>)
    ensures
        keys_order(b, a) == flipped(keys_order(a, b)),
    decreases a, 1nat,
{
    if a.len() > 0 && b.len() > 0 {
        lemma_key_flip(a[0], b[0]);
        lemma_keys_flip(a.drop_first(), b.drop_first());
    }
}

/// Keys compare equal exactly if they are the same key.
pub proof fn lemma_key_equal(a: OrderKey, b: OrderKey)
    ensures
        key_order(a, b) == Order::Equal <==> a == b,
    decreases a, 0nat,
{
    lemma_lex_equal(a.head, b.head);
    lemma_keys_equal(a.children, b.children);
}

pub proof fn lemma_keys_equal(a: Seq<OrderKey>, b: Seq<OrderKey>)
    ensures
        keys_order(a, b) == Order::Equal <==> a == b,
    decreases a, 1nat,
{
    if a.len() > 0 && b.len() > 0 {
        lemma_key_equal(a[0], b[0]);
        lemma_keys_equal(a.drop_first(), b.drop_first());
        if a[0] == b[0] && a.drop_first() == b.drop_first() {
            assert(a =~= seq![a[0]] + a.drop_first());
            assert(b =~= seq![b[0]] + b.drop_first());
        }
    } else if a.len() == 0 && b.len() == 0 {
        assert(a =~= b);
    }
}

/// The order on keys is transitive.
pub proof fn lemma_key_transitive(a: OrderKey, b: OrderKey, c: OrderKey)
    requires
        key_order(a, b) == Order::Less,
        key_order(b, c) == Order::Less,
    ensures
        key_order(a, c) == Order::Less,
    decreases a, 0nat,
{
    lemma_lex_equal(a.head, b.head);
    lemma_lex_equal(b.head, c.head);
    if a.head == b.head && b.head == c.head {
        lemma_lex_equal(a.head, c.head);
        lemma_keys_transitive(a.children, b.children, c.children);
    } else if a.head != b.head && b.head != c.head {
        lemma_lex_transitive(a.head, b.head, c.head);
    }
}

pub proof fn lemma_keys_transitive(a: Seq<OrderKey>, b: Seq<OrderKey>, c: Seq<OrderKey>)
    requires
        keys_order(a, b) == Order::Less,
        keys_order(b, c) == Order::Less,
    ensures
        keys_order(a, c) == Order::Less,
    decreases a, 1nat,
{
    if a.len() > 0 && b.len() > 0 && c.len() > 0 {
        lemma_key_equal(a[0], b[0]);
        lemma_key_equal(b[0], c[0]);
        lemma_key_equal(a[0], c[0]);
        if a[0] == b[0] && b[0] == c[0] {
            lemma_keys_transitive(a.drop_first(), b.drop_first(), c.drop_first());
        } else if a[0] != b[0] && b[0] != c[0] {
            lemma_key_transitive(a[0], b[0], c[0]);
        }
    }
}

} // verus!
