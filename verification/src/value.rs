//! The values that Zeek's WebSocket API carries, and the order in which they sort.
use vstd::prelude::*;
use vstd::std_specs::cmp::{PartialEqSpec, PartialOrdSpec};

use crate::net::{IpAddr, IpNetwork};
use crate::order::{
    flipped, int_order, key_order, keys_order, lemma_key_equal, lemma_key_flip,
    lemma_key_transitive, lemma_keys_common, lemma_lex_common, lemma_lex_equal, lex_order, Order,
    OrderKey,
};
use crate::port::{Port, Protocol};
use crate::scalar::{Real, Timespan, Timestamp};
use crate::sorted::{collect_sorted, collected, insert_sorted, inserted, sorted, views, Ordered};
use crate::text::{code_points, compare_text, lemma_code_points_distinct};

verus! {

/// All basic types understood by Zeek's WebSocket API.
#[derive(Debug)]
pub enum Value {
    Nil,
    Boolean(bool),
    Count(u64),
    Integer(i64),
    Real(Real),
    Timespan(Timespan),
    Timestamp(Timestamp),
    String(String),
    EnumValue(String),
    Address(IpAddr),
    Subnet(IpNetwork),
    Port(Port),
    Vector(Vec<Value>),
    SetOf(ValueSet),
    Table(ValueTable),
}

/// Distinct values in ascending order.
#[derive(Debug)]
pub struct ValueSet {
    items: Vec<Value>,
}

/// Entries with distinct keys, in ascending order of the keys.
#[derive(Debug)]
pub struct ValueTable {
    entries: Vec<TableEntry>,
}

/// An entry of a table.
#[derive(Debug)]
pub struct TableEntry {
    pub key: Value,
    pub value: Value,
}

/// A value as mathematics has it.
pub enum ValueView {
    Nil,
    Boolean(bool),
    Count(u64),
    Integer(i64),
    Real(Real),
    /// Length in nanoseconds.
    Timespan(int),
    /// Nanoseconds from the start of 1970 in UTC, and seconds from UTC at which the point was
    /// given.
    Timestamp((int, int)),
    String(Seq<char>),
    EnumValue(Seq<char>),
    Address(IpAddr),
    Subnet((IpAddr, u8)),
    Port(Port),
    Vector(Seq<ValueView>),
    SetOf(Seq<ValueView>),
    Table(Seq<(ValueView, ValueView)>),
}

spec fn value_view(v: Value) -> ValueView
    decreases v,
{
    match v {
        Value::Nil => ValueView::Nil,
        Value::Boolean(x) => ValueView::Boolean(x),
        Value::Count(x) => ValueView::Count(x),
        Value::Integer(x) => ValueView::Integer(x),
        Value::Real(x) => ValueView::Real(x),
        Value::Timespan(x) => ValueView::Timespan(x@),
        Value::Timestamp(x) => ValueView::Timestamp(x@),
        Value::String(x) => ValueView::String(x@),
        Value::EnumValue(x) => ValueView::EnumValue(x@),
        Value::Address(x) => ValueView::Address(x),
        Value::Subnet(x) => ValueView::Subnet(x@),
        Value::Port(x) => ValueView::Port(x),
        Value::Vector(xs) => ValueView::Vector(
            Seq::new(
                xs@.len(),
                |i: int|
                    if 0 <= i < xs@.len() {
                        value_view(xs@[i])
                    } else {
                        ValueView::Nil
                    },
            ),
        ),
        Value::SetOf(s) => ValueView::SetOf(
            Seq::new(
                s.items@.len(),
                |i: int|
                    if 0 <= i < s.items@.len() {
                        value_view(s.items@[i])
                    } else {
                        ValueView::Nil
                    },
            ),
        ),
        Value::Table(t) => ValueView::Table(
            Seq::new(
                t.entries@.len(),
                |i: int|
                    if 0 <= i < t.entries@.len() {
                        (value_view(t.entries@[i].key), value_view(t.entries@[i].value))
                    } else {
                        (ValueView::Nil, ValueView::Nil)
                    },
            ),
        ),
    }
}

impl View for Value {
    type V = ValueView;

    closed spec fn view(&self) -> ValueView {
        value_view(*self)
    }
}

impl View for TableEntry {
    type V = (ValueView, ValueView);

    open spec fn view(&self) -> (ValueView, ValueView) {
        (self.key@, self.value@)
    }
}

impl View for ValueSet {
    type V = Seq<ValueView>;

    closed spec fn view(&self) -> Seq<ValueView> {
        views(self.items@)
    }
}

impl View for ValueTable {
    type V = Seq<(ValueView, ValueView)>;

    closed spec fn view(&self) -> Seq<(ValueView, ValueView)> {
        views(self.entries@)
    }
}

/// What each value stands for.
pub broadcast proof fn lemma_view(v: Value)
    ensures
        #[trigger] v@ == match v {
            Value::Nil => ValueView::Nil,
            Value::Boolean(x) => ValueView::Boolean(x),
            Value::Count(x) => ValueView::Count(x),
            Value::Integer(x) => ValueView::Integer(x),
            Value::Real(x) => ValueView::Real(x),
            Value::Timespan(x) => ValueView::Timespan(x@),
            Value::Timestamp(x) => ValueView::Timestamp(x@),
            Value::String(x) => ValueView::String(x@),
            Value::EnumValue(x) => ValueView::EnumValue(x@),
            Value::Address(x) => ValueView::Address(x),
            Value::Subnet(x) => ValueView::Subnet(x@),
            Value::Port(x) => ValueView::Port(x),
            Value::Vector(xs) => ValueView::Vector(views(xs@)),
            Value::SetOf(s) => ValueView::SetOf(s@),
            Value::Table(t) => ValueView::Table(t@),
        },
{
    match v {
        Value::Vector(xs) => {
            assert(v@->Vector_0 =~= views(xs@));
        },
        Value::SetOf(s) => {
            assert(v@->SetOf_0 =~= s@);
        },
        Value::Table(t) => {
            assert(v@->Table_0 =~= t@);
        },
        _ => {},
    }
}

/// Place of the kind of value among the kinds.
pub open spec fn kind_rank(v: ValueView) -> int {
    match v {
        ValueView::Nil => 0,
        ValueView::Boolean(_) => 1,
        ValueView::Count(_) => 2,
        ValueView::Integer(_) => 3,
        ValueView::Real(_) => 4,
        ValueView::Timespan(_) => 5,
        ValueView::Timestamp(_) => 6,
        ValueView::String(_) => 7,
        ValueView::EnumValue(_) => 8,
        ValueView::Address(_) => 9,
        ValueView::Subnet(_) => 10,
        ValueView::Port(_) => 11,
        ValueView::Vector(_) => 12,
        ValueView::SetOf(_) => 13,
        ValueView::Table(_) => 14,
    }
}

/// What sorts addresses: the shorter family first, then the number.
pub open spec fn addr_key(addr: IpAddr) -> Seq<int> {
    match addr {
        IpAddr::V4(x) => seq![0int, x as int],
        IpAddr::V6(x) => seq![1int, x as int],
    }
}

/// What sorts values of one kind that hold no other values.
pub open spec fn scalar_key(v: ValueView) -> Seq<int> {
    match v {
        ValueView::Boolean(x) => seq![
            if x {
                1int
            } else {
                0int
            },
        ],
        ValueView::Count(x) => seq![x as int],
        ValueView::Integer(x) => seq![x as int],
        ValueView::Real(x) => seq![x.rank()],
        ValueView::Timespan(x) => seq![x],
        ValueView::Timestamp(x) => seq![x.0],
        ValueView::String(x) => code_points(x),
        ValueView::EnumValue(x) => code_points(x),
        ValueView::Address(x) => addr_key(x),
        ValueView::Subnet(x) => addr_key(x.0) + seq![x.1 as int],
        ValueView::Port(x) => seq![x.spec_number() as int, x.spec_protocol().rank()],
        _ => Seq::empty(),
    }
}

/// What a value sorts by: its kind first, then what it holds.
pub open spec fn order_key(v: ValueView) -> OrderKey
    decreases v,
{
    OrderKey {
        head: seq![kind_rank(v)] + scalar_key(v),
        children: match v {
            ValueView::Vector(s) => Seq::new(
                s.len(),
                |i: int|
                    if 0 <= i < s.len() {
                        order_key(s[i])
                    } else {
                        nil_key()
                    },
            ),
            ValueView::SetOf(s) => Seq::new(
                s.len(),
                |i: int|
                    if 0 <= i < s.len() {
                        order_key(s[i])
                    } else {
                        nil_key()
                    },
            ),
            ValueView::Table(t) => Seq::new(
                t.len(),
                |i: int|
                    if 0 <= i < t.len() {
                        pair_key(order_key(t[i].0), order_key(t[i].1))
                    } else {
                        nil_key()
                    },
            ),
            _ => Seq::empty(),
        },
    }
}

/// What sorts before everything else.
pub open spec fn nil_key() -> OrderKey {
    OrderKey { head: Seq::empty(), children: Seq::empty() }
}

/// What a pair sorts by: its first part, then its second.
pub open spec fn pair_key(a: OrderKey, b: OrderKey) -> OrderKey {
    OrderKey { head: Seq::empty(), children: seq![a, b] }
}

/// What each of several values sorts by.
pub open spec fn order_keys(s: Seq<ValueView>) -> Seq<OrderKey> {
    Seq::new(s.len(), |i: int| order_key(s[i]))
}

/// What each of several entries sorts by.
pub open spec fn entry_keys(t: Seq<(ValueView, ValueView)>) -> Seq<OrderKey> {
    Seq::new(t.len(), |i: int| pair_key(order_key(t[i].0), order_key(t[i].1)))
}

/// Two values count as equal where they sort alike.
pub open spec fn same_value(a: ValueView, b: ValueView) -> bool {
    order_key(a) == order_key(b)
}

/// Values are in a total order: exchanging two turns the outcome round, values that sort alike
/// are those that count as equal, and what sorts before a value sorts before all that it sorts
/// before.
pub proof fn values_are_ordered(a: ValueView, b: ValueView, c: ValueView)
    ensures
        key_order(order_key(b), order_key(a)) == flipped(key_order(order_key(a), order_key(b))),
        key_order(order_key(a), order_key(b)) == Order::Equal <==> same_value(a, b),
        key_order(order_key(a), order_key(b)) == Order::Less && key_order(
            order_key(b),
            order_key(c),
        ) == Order::Less ==> key_order(order_key(a), order_key(c)) == Order::Less,
{
    lemma_key_flip(order_key(a), order_key(b));
    lemma_key_equal(order_key(a), order_key(b));
    if key_order(order_key(a), order_key(b)) == Order::Less && key_order(
        order_key(b),
        order_key(c),
    ) == Order::Less {
        lemma_key_transitive(order_key(a), order_key(b), order_key(c));
    }
}

/// What a value sorts by, by what its parts sort by.
pub proof fn lemma_order_key(v: ValueView)
    ensures
        order_key(v).head == seq![kind_rank(v)] + scalar_key(v),
        order_key(v).children == match v {
            ValueView::Vector(s) => order_keys(s),
            ValueView::SetOf(s) => order_keys(s),
            ValueView::Table(t) => entry_keys(t),
            _ => Seq::empty(),
        },
{
    match v {
        ValueView::Vector(s) => {
            assert(order_key(v).children =~= order_keys(s));
        },
        ValueView::SetOf(s) => {
            assert(order_key(v).children =~= order_keys(s));
        },
        ValueView::Table(t) => {
            assert(order_key(v).children =~= entry_keys(t));
        },
        _ => {},
    }
}

/// The order of two values of different kinds is that of the kinds.
proof fn lemma_kind_first(a: ValueView, b: ValueView)
    requires
        kind_rank(a) < kind_rank(b),
    ensures
        key_order(order_key(a), order_key(b)) == Order::Less,
{
    lemma_order_key(a);
    lemma_order_key(b);
    assert(order_key(a).head[0] == kind_rank(a));
    assert(order_key(b).head[0] == kind_rank(b));
}

/// Whatever they hold, values sort by their kinds first: nothing, booleans, counts, integers, real
/// numbers, timespans, points in time, strings, enum values, addresses, subnets, ports, vectors,
/// sets and tables, in this order.
pub proof fn kinds_in_order(
    b: bool,
    n: u64,
    i: i64,
    x: Real,
    span: int,
    point: (int, int),
    s: Seq<char>,
    e: Seq<char>,
    addr: IpAddr,
    net: (IpAddr, u8),
    port: Port,
    v: Seq<ValueView>,
    set: Seq<ValueView>,
    t: Seq<(ValueView, ValueView)>,
)
    ensures
        key_order(order_key(ValueView::Nil), order_key(ValueView::Boolean(b))) == Order::Less,
        key_order(order_key(ValueView::Boolean(b)), order_key(ValueView::Count(n))) == Order::Less,
        key_order(order_key(ValueView::Count(n)), order_key(ValueView::Integer(i))) == Order::Less,
        key_order(order_key(ValueView::Integer(i)), order_key(ValueView::Real(x))) == Order::Less,
        key_order(order_key(ValueView::Real(x)), order_key(ValueView::Timespan(span))) == Order::Less,
        key_order(order_key(ValueView::Timespan(span)), order_key(ValueView::Timestamp(point))) == Order::Less,
        key_order(order_key(ValueView::Timestamp(point)), order_key(ValueView::String(s))) == Order::Less,
        key_order(order_key(ValueView::String(s)), order_key(ValueView::EnumValue(e))) == Order::Less,
        key_order(order_key(ValueView::EnumValue(e)), order_key(ValueView::Address(addr))) == Order::Less,
        key_order(order_key(ValueView::Address(addr)), order_key(ValueView::Subnet(net))) == Order::Less,
        key_order(order_key(ValueView::Subnet(net)), order_key(ValueView::Port(port))) == Order::Less,
        key_order(order_key(ValueView::Port(port)), order_key(ValueView::Vector(v))) == Order::Less,
        key_order(order_key(ValueView::Vector(v)), order_key(ValueView::SetOf(set))) == Order::Less,
        key_order(order_key(ValueView::SetOf(set)), order_key(ValueView::Table(t))) == Order::Less,
{
    lemma_kind_first(ValueView::Nil, ValueView::Boolean(b));
    lemma_kind_first(ValueView::Boolean(b), ValueView::Count(n));
    lemma_kind_first(ValueView::Count(n), ValueView::Integer(i));
    lemma_kind_first(ValueView::Integer(i), ValueView::Real(x));
    lemma_kind_first(ValueView::Real(x), ValueView::Timespan(span));
    lemma_kind_first(ValueView::Timespan(span), ValueView::Timestamp(point));
    lemma_kind_first(ValueView::Timestamp(point), ValueView::String(s));
    lemma_kind_first(ValueView::String(s), ValueView::EnumValue(e));
    lemma_kind_first(ValueView::EnumValue(e), ValueView::Address(addr));
    lemma_kind_first(ValueView::Address(addr), ValueView::Subnet(net));
    lemma_kind_first(ValueView::Subnet(net), ValueView::Port(port));
    lemma_kind_first(ValueView::Port(port), ValueView::Vector(v));
    lemma_kind_first(ValueView::Vector(v), ValueView::SetOf(set));
    lemma_kind_first(ValueView::SetOf(set), ValueView::Table(t));
}

/// The order of two values of one kind that hold no other values.
proof fn lemma_scalar_order(a: ValueView, b: ValueView)
    requires
        kind_rank(a) == kind_rank(b),
        kind_rank(a) < 12,
    ensures
        key_order(order_key(a), order_key(b)) == lex_order(scalar_key(a), scalar_key(b)),
{
    lemma_order_key(a);
    lemma_order_key(b);
    lemma_lex_behind(kind_rank(a), scalar_key(a), scalar_key(b));
}

/// Values of one kind sort by what they hold: booleans with false in front, numbers and spans by
/// their size, and points in time by when they are, wherever they were given.
pub proof fn numbers_in_order(
    n: u64,
    m: u64,
    i: i64,
    j: i64,
    x: Real,
    y: Real,
    span: int,
    other: int,
    from: int,
    to: int,
)
    ensures
        key_order(
            order_key(ValueView::Boolean(false)),
            order_key(ValueView::Boolean(true)),
        ) == Order::Less,
        key_order(order_key(ValueView::Count(n)), order_key(ValueView::Count(m))) == Order::Less
            <==> n < m,
        key_order(order_key(ValueView::Integer(i)), order_key(ValueView::Integer(j))) == Order::Less
            <==> i < j,
        key_order(order_key(ValueView::Real(x)), order_key(ValueView::Real(y))) == Order::Less
            <==> x.rank() < y.rank(),
        key_order(order_key(ValueView::Timespan(span)), order_key(ValueView::Timespan(other)))
            == Order::Less <==> span < other,
        key_order(
            order_key(ValueView::Timestamp((span, from))),
            order_key(ValueView::Timestamp((other, to))),
        ) == Order::Less <==> span < other,
{
    lemma_scalar_order(ValueView::Boolean(false), ValueView::Boolean(true));
    lemma_scalar_order(ValueView::Count(n), ValueView::Count(m));
    lemma_scalar_order(ValueView::Integer(i), ValueView::Integer(j));
    lemma_scalar_order(ValueView::Real(x), ValueView::Real(y));
    lemma_scalar_order(ValueView::Timespan(span), ValueView::Timespan(other));
    lemma_scalar_order(ValueView::Timestamp((span, from)), ValueView::Timestamp((other, to)));
    lemma_lex_one(0, 1);
    lemma_lex_one(n as int, m as int);
    lemma_lex_one(i as int, j as int);
    lemma_lex_one(x.rank(), y.rank());
    lemma_lex_one(span, other);
}

/// Addresses sort by their family, IPv4 in front, then by their number; subnets by their address,
/// then by their prefix; ports by their number, then by their protocol: TCP, UDP, ICMP, and what
/// is unknown.
pub proof fn addresses_in_order(a: u32, b: u32, c: u128, d: u128, m: u8, n: u8, p: u16, q: u16)
    ensures
        key_order(
            order_key(ValueView::Address(IpAddr::V4(a))),
            order_key(ValueView::Address(IpAddr::V4(b))),
        ) == Order::Less <==> a < b,
        key_order(
            order_key(ValueView::Address(IpAddr::V6(c))),
            order_key(ValueView::Address(IpAddr::V6(d))),
        ) == Order::Less <==> c < d,
        key_order(
            order_key(ValueView::Address(IpAddr::V4(a))),
            order_key(ValueView::Address(IpAddr::V6(c))),
        ) == Order::Less,
        key_order(
            order_key(ValueView::Subnet((IpAddr::V4(a), m))),
            order_key(ValueView::Subnet((IpAddr::V4(b), n))),
        ) == Order::Less <==> a < b || (a == b && m < n),
        key_order(
            order_key(ValueView::Subnet((IpAddr::V6(c), m))),
            order_key(ValueView::Subnet((IpAddr::V6(d), n))),
        ) == Order::Less <==> c < d || (c == d && m < n),
        key_order(
            order_key(ValueView::Subnet((IpAddr::V4(a), m))),
            order_key(ValueView::Subnet((IpAddr::V6(c), n))),
        ) == Order::Less,
        forall|s: Protocol, t: Protocol|
            p < q ==> #[trigger] key_order(
                order_key(ValueView::Port(Port::of(p, s))),
                order_key(ValueView::Port(Port::of(q, t))),
            ) == Order::Less,
        key_order(
            order_key(ValueView::Port(Port::of(p, Protocol::TCP))),
            order_key(ValueView::Port(Port::of(p, Protocol::UDP))),
        ) == Order::Less,
        key_order(
            order_key(ValueView::Port(Port::of(p, Protocol::UDP))),
            order_key(ValueView::Port(Port::of(p, Protocol::ICMP))),
        ) == Order::Less,
        key_order(
            order_key(ValueView::Port(Port::of(p, Protocol::ICMP))),
            order_key(ValueView::Port(Port::of(p, Protocol::UNKNOWN))),
        ) == Order::Less,
{
    let (v, w) = (IpAddr::V4(a), IpAddr::V4(b));
    let (x, y) = (IpAddr::V6(c), IpAddr::V6(d));
    lemma_scalar_order(ValueView::Address(v), ValueView::Address(w));
    lemma_scalar_order(ValueView::Address(x), ValueView::Address(y));
    lemma_scalar_order(ValueView::Address(v), ValueView::Address(x));
    lemma_scalar_order(ValueView::Subnet((v, m)), ValueView::Subnet((w, n)));
    lemma_scalar_order(ValueView::Subnet((x, m)), ValueView::Subnet((y, n)));
    lemma_scalar_order(ValueView::Subnet((v, m)), ValueView::Subnet((x, n)));
    lemma_lex_two(0, a as int, 0, b as int);
    lemma_lex_two(1, c as int, 1, d as int);
    lemma_lex_two(0, a as int, 1, c as int);
    lemma_lex_three(0, a as int, m as int, 0, b as int, n as int);
    lemma_lex_three(1, c as int, m as int, 1, d as int, n as int);
    lemma_lex_three(0, a as int, m as int, 1, c as int, n as int);
    Port::ports_in_writing(p);
    Port::ports_in_writing(q);
    assert forall|s: Protocol, t: Protocol| p < q implies #[trigger] key_order(
        order_key(ValueView::Port(Port::of(p, s))),
        order_key(ValueView::Port(Port::of(q, t))),
    ) == Order::Less by {
        lemma_port_order(p, s, q, t);
    }
    lemma_port_order(p, Protocol::TCP, p, Protocol::UDP);
    lemma_port_order(p, Protocol::UDP, p, Protocol::ICMP);
    lemma_port_order(p, Protocol::ICMP, p, Protocol::UNKNOWN);
}

proof fn lemma_port_order(p: u16, s: Protocol, q: u16, t: Protocol)
    ensures
        key_order(
            order_key(ValueView::Port(Port::of(p, s))),
            order_key(ValueView::Port(Port::of(q, t))),
        ) == if p != q {
            int_order(p as int, q as int)
        } else {
            int_order(s.rank(), t.rank())
        },
{
    let a = Port::of(p, s);
    let b = Port::of(q, t);
    Port::ports_in_writing(p);
    Port::ports_in_writing(q);
    lemma_scalar_order(ValueView::Port(a), ValueView::Port(b));
    assert(a.spec_number() == p && a.spec_protocol() == s);
    assert(b.spec_number() == q && b.spec_protocol() == t);
    lemma_lex_two(p as int, s.rank(), q as int, t.rank());
}

/// Strings and enum values sort as texts do: the first characters that differ decide, and what
/// ends first is in front.
pub proof fn texts_in_order(
    common: Seq<char>,
    c: char,
    d: char,
    s: Seq<char>,
    t: Seq<char>,
)
    requires
        c < d,
    ensures
        key_order(
            order_key(ValueView::String(common.push(c) + s)),
            order_key(ValueView::String(common.push(d) + t)),
        ) == Order::Less,
        key_order(
            order_key(ValueView::String(common)),
            order_key(ValueView::String(common.push(d) + t)),
        ) == Order::Less,
        key_order(
            order_key(ValueView::EnumValue(common.push(c) + s)),
            order_key(ValueView::EnumValue(common.push(d) + t)),
        ) == Order::Less,
        key_order(
            order_key(ValueView::EnumValue(common)),
            order_key(ValueView::EnumValue(common.push(d) + t)),
        ) == Order::Less,
{
    let a = common.push(c) + s;
    let b = common.push(d) + t;
    let p = code_points(common);
    assert(code_points(a) =~= p + code_points(seq![c] + s));
    assert(code_points(b) =~= p + code_points(seq![d] + t));
    assert(p =~= p + Seq::<int>::empty());
    lemma_lex_common(p, code_points(seq![c] + s), code_points(seq![d] + t));
    lemma_lex_common(p, Seq::empty(), code_points(seq![d] + t));
    assert(code_points(seq![c] + s)[0] == c as int);
    assert(code_points(seq![d] + t)[0] == d as int);
    lemma_scalar_order(ValueView::String(a), ValueView::String(b));
    lemma_scalar_order(ValueView::String(common), ValueView::String(b));
    lemma_scalar_order(ValueView::EnumValue(a), ValueView::EnumValue(b));
    lemma_scalar_order(ValueView::EnumValue(common), ValueView::EnumValue(b));
}

/// Vectors and sets sort by their values: the first that differ decide, and what ends first is
/// in front.
pub proof fn vectors_in_order(
    common: Seq<ValueView>,
    a: ValueView,
    b: ValueView,
    s: Seq<ValueView>,
    t: Seq<ValueView>,
)
    requires
        key_order(order_key(a), order_key(b)) == Order::Less,
    ensures
        key_order(
            order_key(ValueView::Vector(common.push(a) + s)),
            order_key(ValueView::Vector(common.push(b) + t)),
        ) == Order::Less,
        key_order(
            order_key(ValueView::Vector(common)),
            order_key(ValueView::Vector(common.push(b) + t)),
        ) == Order::Less,
        key_order(
            order_key(ValueView::SetOf(common.push(a) + s)),
            order_key(ValueView::SetOf(common.push(b) + t)),
        ) == Order::Less,
        key_order(
            order_key(ValueView::SetOf(common)),
            order_key(ValueView::SetOf(common.push(b) + t)),
        ) == Order::Less,
{
    let x = common.push(a) + s;
    let y = common.push(b) + t;
    let p = order_keys(common);
    assert(order_keys(x) =~= p + order_keys(seq![a] + s));
    assert(order_keys(y) =~= p + order_keys(seq![b] + t));
    assert(p =~= p + Seq::<OrderKey>::empty());
    lemma_keys_common(p, order_keys(seq![a] + s), order_keys(seq![b] + t));
    lemma_keys_common(p, Seq::empty(), order_keys(seq![b] + t));
    assert(order_keys(seq![a] + s)[0] == order_key(a));
    assert(order_keys(seq![b] + t)[0] == order_key(b));
    lemma_order_key(ValueView::Vector(x));
    lemma_order_key(ValueView::Vector(y));
    lemma_order_key(ValueView::Vector(common));
    lemma_order_key(ValueView::SetOf(x));
    lemma_order_key(ValueView::SetOf(y));
    lemma_order_key(ValueView::SetOf(common));
    lemma_lex_equal(seq![12int] + Seq::<int>::empty(), seq![12int] + Seq::<int>::empty());
    lemma_lex_equal(seq![13int] + Seq::<int>::empty(), seq![13int] + Seq::<int>::empty());
}

/// Tables sort by their entries: the first that differ decide, by their keys and then by their
/// values, and what ends first is in front.
pub proof fn tables_in_order(
    common: Seq<(ValueView, ValueView)>,
    a: (ValueView, ValueView),
    b: (ValueView, ValueView),
    s: Seq<(ValueView, ValueView)>,
    t: Seq<(ValueView, ValueView)>,
)
    requires
        key_order(order_key(a.0), order_key(b.0)) == Order::Less || (same_value(a.0, b.0)
            && key_order(order_key(a.1), order_key(b.1)) == Order::Less),
    ensures
        key_order(
            order_key(ValueView::Table(common.push(a) + s)),
            order_key(ValueView::Table(common.push(b) + t)),
        ) == Order::Less,
        key_order(
            order_key(ValueView::Table(common)),
            order_key(ValueView::Table(common.push(b) + t)),
        ) == Order::Less,
{
    let x = common.push(a) + s;
    let y = common.push(b) + t;
    let p = entry_keys(common);
    assert(entry_keys(x) =~= p + entry_keys(seq![a] + s));
    assert(entry_keys(y) =~= p + entry_keys(seq![b] + t));
    assert(p =~= p + Seq::<OrderKey>::empty());
    lemma_keys_common(p, entry_keys(seq![a] + s), entry_keys(seq![b] + t));
    lemma_keys_common(p, Seq::empty(), entry_keys(seq![b] + t));
    lemma_pair_order(order_key(a.0), order_key(a.1), order_key(b.0), order_key(b.1));
    lemma_key_equal(order_key(a.0), order_key(b.0));
    assert(entry_keys(seq![a] + s)[0] == pair_key(order_key(a.0), order_key(a.1)));
    assert(entry_keys(seq![b] + t)[0] == pair_key(order_key(b.0), order_key(b.1)));
    lemma_order_key(ValueView::Table(x));
    lemma_order_key(ValueView::Table(y));
    lemma_order_key(ValueView::Table(common));
    lemma_lex_equal(seq![14int] + Seq::<int>::empty(), seq![14int] + Seq::<int>::empty());
}

/// Values count as equal exactly if they are of one kind and hold the same: sequences the same
/// values in the same order, real numbers numbers that sort alike, and points in time the same
/// point, wherever it was given.
pub proof fn equal_by_contents(a: ValueView, b: ValueView)
    ensures
        same_value(a, b) <==> match (a, b) {
            (ValueView::Real(x), ValueView::Real(y)) => x.rank() == y.rank(),
            (ValueView::Timestamp(x), ValueView::Timestamp(y)) => x.0 == y.0,
            (ValueView::Vector(s), ValueView::Vector(t)) => s.len() == t.len() && forall|i: int|
                0 <= i < s.len() ==> same_value(#[trigger] s[i], t[i]),
            (ValueView::SetOf(s), ValueView::SetOf(t)) => s.len() == t.len() && forall|i: int|
                0 <= i < s.len() ==> same_value(#[trigger] s[i], t[i]),
            (ValueView::Table(s), ValueView::Table(t)) => s.len() == t.len() && forall|i: int|
                0 <= i < s.len() ==> same_value((#[trigger] s[i]).0, t[i].0) && same_value(
                    s[i].1,
                    t[i].1,
                ),
            _ => a == b,
        },
{
    lemma_order_key(a);
    lemma_order_key(b);
    let ka = order_key(a);
    let kb = order_key(b);
    assert(ka.head[0] == kind_rank(a));
    assert(kb.head[0] == kind_rank(b));
    assert(ka.head.drop_first() =~= scalar_key(a));
    assert(kb.head.drop_first() =~= scalar_key(b));
    assert(same_value(a, b) <==> ka.head == kb.head && ka.children == kb.children);
    match (a, b) {
        (ValueView::Boolean(x), ValueView::Boolean(y)) => {
            assert(scalar_key(a)[0] == scalar_key(b)[0] ==> x == y);
        },
        (ValueView::Count(x), ValueView::Count(y)) => {
            assert(scalar_key(a)[0] == scalar_key(b)[0] ==> x == y);
        },
        (ValueView::Integer(x), ValueView::Integer(y)) => {
            assert(scalar_key(a)[0] == scalar_key(b)[0] ==> x == y);
        },
        (ValueView::Real(x), ValueView::Real(y)) => {
            assert(scalar_key(a)[0] == scalar_key(b)[0] ==> x.rank() == y.rank());
        },
        (ValueView::Timespan(x), ValueView::Timespan(y)) => {
            assert(scalar_key(a)[0] == scalar_key(b)[0] ==> x == y);
        },
        (ValueView::Timestamp(x), ValueView::Timestamp(y)) => {
            assert(scalar_key(a)[0] == scalar_key(b)[0] ==> x.0 == y.0);
        },
        (ValueView::String(x), ValueView::String(y)) => {
            lemma_code_points_distinct(x, y);
        },
        (ValueView::EnumValue(x), ValueView::EnumValue(y)) => {
            lemma_code_points_distinct(x, y);
        },
        (ValueView::Address(x), ValueView::Address(y)) => {
            lemma_addr_key_distinct(x, y);
        },
        (ValueView::Subnet(x), ValueView::Subnet(y)) => {
            let p = scalar_key(a);
            let q = scalar_key(b);
            assert(p[0] == addr_key(x.0)[0] && p[1] == addr_key(x.0)[1] && p[2] == x.1);
            assert(q[0] == addr_key(y.0)[0] && q[1] == addr_key(y.0)[1] && q[2] == y.1);
        },
        (ValueView::Port(x), ValueView::Port(y)) => {
            broadcast use Port::lemma_parts;

            let p = scalar_key(a);
            let q = scalar_key(b);
            assert(p[0] == x.spec_number() && p[1] == x.spec_protocol().rank());
            assert(q[0] == y.spec_number() && q[1] == y.spec_protocol().rank());
        },
        (ValueView::Vector(s), ValueView::Vector(t)) => {
            lemma_keys_by_place(s, t);
        },
        (ValueView::SetOf(s), ValueView::SetOf(t)) => {
            lemma_keys_by_place(s, t);
        },
        (ValueView::Table(s), ValueView::Table(t)) => {
            lemma_entries_by_place(s, t);
        },
        _ => {},
    }
}

proof fn lemma_addr_key_distinct(x: IpAddr, y: IpAddr)
    ensures
        addr_key(x) == addr_key(y) <==> x == y,
{
    assert(addr_key(x)[0] == addr_key(y)[0] && addr_key(x)[1] == addr_key(y)[1] ==> x == y);
}

proof fn lemma_keys_by_place(s: Seq<ValueView>, t: Seq<ValueView>)
    ensures
        order_keys(s) == order_keys(t) <==> s.len() == t.len() && forall|i: int|
            0 <= i < s.len() ==> same_value(#[trigger] s[i], t[i]),
{
    let p = order_keys(s);
    let q = order_keys(t);
    if p == q {
        assert(p.len() == q.len());
        assert forall|i: int| 0 <= i < s.len() implies same_value(#[trigger] s[i], t[i]) by {
            assert(p[i] == q[i]);
        }
    }
    if s.len() == t.len() && forall|i: int|
        0 <= i < s.len() ==> same_value(#[trigger] s[i], t[i]) {
        assert forall|i: int| 0 <= i < p.len() implies p[i] == q[i] by {
            assert(same_value(s[i], t[i]));
        }
        assert(p =~= q);
    }
}

proof fn lemma_entries_by_place(
    s: Seq<(ValueView, ValueView)>,
    t: Seq<(ValueView, ValueView)>,
)
    ensures
        entry_keys(s) == entry_keys(t) <==> s.len() == t.len() && forall|i: int|
            0 <= i < s.len() ==> same_value((#[trigger] s[i]).0, t[i].0) && same_value(
                s[i].1,
                t[i].1,
            ),
{
    let p = entry_keys(s);
    let q = entry_keys(t);
    if p == q {
        assert(p.len() == q.len());
        assert forall|i: int| 0 <= i < s.len() implies same_value((#[trigger] s[i]).0, t[i].0)
            && same_value(s[i].1, t[i].1) by {
            assert(p[i] == q[i]);
            assert(p[i].children[0] == q[i].children[0]);
            assert(p[i].children[1] == q[i].children[1]);
        }
    }
    if s.len() == t.len() && forall|i: int|
        0 <= i < s.len() ==> same_value((#[trigger] s[i]).0, t[i].0) && same_value(
            s[i].1,
            t[i].1,
        ) {
        assert forall|i: int| 0 <= i < p.len() implies p[i] == q[i] by {
            assert(same_value(s[i].0, t[i].0));
        }
        assert(p =~= q);
    }
}

/// The order of two heads of one kind is that of what follows the kind.
pub(crate) proof fn lemma_lex_behind(kind: int, a: Seq<int>, b: Seq<int>)
    ensures
        lex_order(seq![kind] + a, seq![kind] + b) == lex_order(a, b),
{
    assert((seq![kind] + a).drop_first() =~= a);
    assert((seq![kind] + b).drop_first() =~= b);
}

/// The order of two numbers, as sequences.
pub(crate) proof fn lemma_lex_one(a: int, b: int)
    ensures
        lex_order(seq![a], seq![b]) == int_order(a, b),
{
    assert(seq![a].drop_first() =~= Seq::<int>::empty());
    assert(seq![b].drop_first() =~= Seq::<int>::empty());
    reveal_with_fuel(lex_order, 2);
}

pub(crate) proof fn lemma_lex_two(a: int, b: int, c: int, d: int)
    ensures
        lex_order(seq![a, b], seq![c, d]) == if a != c {
            int_order(a, c)
        } else {
            int_order(b, d)
        },
{
    assert(seq![a, b].drop_first() =~= seq![b]);
    assert(seq![c, d].drop_first() =~= seq![d]);
    lemma_lex_one(b, d);
}

pub(crate) proof fn lemma_lex_three(a: int, b: int, c: int, d: int, e: int, f: int)
    ensures
        lex_order(seq![a, b] + seq![c], seq![d, e] + seq![f]) == if a != d {
            int_order(a, d)
        } else if b != e {
            int_order(b, e)
        } else {
            int_order(c, f)
        },
{
    assert((seq![a, b] + seq![c]).drop_first() =~= seq![b, c]);
    assert((seq![d, e] + seq![f]).drop_first() =~= seq![e, f]);
    lemma_lex_two(b, c, e, f);
}

/// Pairs sort by their first part, then by their second.
pub(crate) proof fn lemma_pair_order(a: OrderKey, b: OrderKey, c: OrderKey, d: OrderKey)
    ensures
        key_order(pair_key(a, b), pair_key(c, d)) == if key_order(a, c) != Order::Equal {
            key_order(a, c)
        } else {
            key_order(b, d)
        },
{
    assert(seq![a, b].drop_first() =~= seq![b]);
    assert(seq![c, d].drop_first() =~= seq![d]);
    assert(seq![b].drop_first() =~= Seq::<OrderKey>::empty());
    assert(seq![d].drop_first() =~= Seq::<OrderKey>::empty());
    assert(lex_order(Seq::<int>::empty(), Seq::<int>::empty()) == Order::Equal);
    assert(keys_order(Seq::<OrderKey>::empty(), Seq::<OrderKey>::empty()) == Order::Equal);
    assert(keys_order(seq![b], seq![d]) == key_order(b, d));
    assert(keys_order(seq![a, b], seq![c, d]) == if key_order(a, c) != Order::Equal {
        key_order(a, c)
    } else {
        key_order(b, d)
    });
}

pub(crate) fn compare_ints(a: i128, b: i128) -> (o: Order)
    ensures
        o == int_order(a as int, b as int),
{
    if a < b {
        Order::Less
    } else if a == b {
        Order::Equal
    } else {
        Order::Greater
    }
}

pub(crate) fn compare_addrs(a: IpAddr, b: IpAddr) -> (o: Order)
    ensures
        o == lex_order(addr_key(a), addr_key(b)),
{
    proof {
        let x = addr_key(a);
        let y = addr_key(b);
        lemma_lex_two(x[0], x[1], y[0], y[1]);
        assert(x =~= seq![x[0], x[1]]);
        assert(y =~= seq![y[0], y[1]]);
    }
    match (a, b) {
        (IpAddr::V4(x), IpAddr::V4(y)) => compare_ints(x as i128, y as i128),
        (IpAddr::V6(x), IpAddr::V6(y)) => if x < y {
            Order::Less
        } else if x == y {
            Order::Equal
        } else {
            Order::Greater
        },
        (IpAddr::V4(_), IpAddr::V6(_)) => Order::Less,
        (IpAddr::V6(_), IpAddr::V4(_)) => Order::Greater,
    }
}

fn compare_networks(a: IpNetwork, b: IpNetwork) -> (o: Order)
    ensures
        o == lex_order(addr_key(a@.0) + seq![a@.1 as int], addr_key(b@.0) + seq![b@.1 as int]),
{
    proof {
        let x = addr_key(a@.0);
        let y = addr_key(b@.0);
        lemma_lex_two(x[0], x[1], y[0], y[1]);
        lemma_lex_three(x[0], x[1], a@.1 as int, y[0], y[1], b@.1 as int);
        assert(x =~= seq![x[0], x[1]]);
        assert(y =~= seq![y[0], y[1]]);
    }
    match compare_addrs(a.ip(), b.ip()) {
        Order::Equal => compare_ints(a.prefix() as i128, b.prefix() as i128),
        o => o,
    }
}

fn compare_values(a: &Value, b: &Value) -> (o: Order)
    ensures
        o == key_order(order_key(a@), order_key(b@)),
    decreases *a,
{
    broadcast use lemma_view;

    proof {
        lemma_order_key(a@);
        lemma_order_key(b@);
        lemma_lex_behind(kind_rank(a@), scalar_key(a@), scalar_key(b@));
        if kind_rank(a@) == kind_rank(b@) {
            assert(order_key(b@).head == seq![kind_rank(a@)] + scalar_key(b@));
        }
        assert(keys_order(Seq::<OrderKey>::empty(), Seq::<OrderKey>::empty()) == Order::Equal);
        assert(lex_order(Seq::<int>::empty(), Seq::<int>::empty()) == Order::Equal);
    }
    match (a, b) {
        (Value::Nil, Value::Nil) => Order::Equal,
        (Value::Boolean(x), Value::Boolean(y)) => {
            let p: u8 = if *x {
                1
            } else {
                0
            };
            let q: u8 = if *y {
                1
            } else {
                0
            };
            proof {
                lemma_lex_one(p as int, q as int);
            }
            compare_ints(p as i128, q as i128)
        },
        (Value::Count(x), Value::Count(y)) => {
            proof {
                lemma_lex_one(*x as int, *y as int);
            }
            compare_ints(*x as i128, *y as i128)
        },
        (Value::Integer(x), Value::Integer(y)) => {
            proof {
                lemma_lex_one(*x as int, *y as int);
            }
            compare_ints(*x as i128, *y as i128)
        },
        (Value::Real(x), Value::Real(y)) => {
            proof {
                lemma_lex_one(x.rank(), y.rank());
            }
            compare_ints(x.rank_of(), y.rank_of())
        },
        (Value::Timespan(x), Value::Timespan(y)) => {
            proof {
                lemma_lex_one(x@, y@);
            }
            compare_ints(x.nanoseconds(), y.nanoseconds())
        },
        (Value::Timestamp(x), Value::Timestamp(y)) => {
            proof {
                lemma_lex_one(x@.0, y@.0);
            }
            compare_ints(x.nanoseconds(), y.nanoseconds())
        },
        (Value::String(x), Value::String(y)) => compare_text(x.as_str(), y.as_str()),
        (Value::EnumValue(x), Value::EnumValue(y)) => compare_text(x.as_str(), y.as_str()),
        (Value::Address(x), Value::Address(y)) => compare_addrs(*x, *y),
        (Value::Subnet(x), Value::Subnet(y)) => compare_networks(*x, *y),
        (Value::Port(x), Value::Port(y)) => {
            proof {
                lemma_lex_two(
                    x.spec_number() as int,
                    x.spec_protocol().rank(),
                    y.spec_number() as int,
                    y.spec_protocol().rank(),
                );
            }
            match compare_ints(x.number() as i128, y.number() as i128) {
                Order::Equal => compare_ints(
                    x.protocol().rank_of() as i128,
                    y.protocol().rank_of() as i128,
                ),
                o => o,
            }
        },
        (Value::Vector(x), Value::Vector(y)) => {
            assert(decreases_to!(*a => a->Vector_0));
            compare_all(x, y)
        },
        (Value::SetOf(x), Value::SetOf(y)) => {
            assert(decreases_to!(*a => a->SetOf_0));
            assert(decreases_to!(*x => x.items));
            compare_all(&x.items, &y.items)
        },
        (Value::Table(x), Value::Table(y)) => {
            assert(decreases_to!(*a => a->Table_0));
            assert(decreases_to!(*x => x.entries));
            compare_entries(&x.entries, &y.entries)
        },
        _ => {
            let p: u8 = kind_of(a);
            let q: u8 = kind_of(b);
            compare_ints(p as i128, q as i128)
        },
    }
}

fn kind_of(v: &Value) -> (r: u8)
    ensures
        r == kind_rank(v@),
{
    broadcast use lemma_view;

    match v {
        Value::Nil => 0,
        Value::Boolean(_) => 1,
        Value::Count(_) => 2,
        Value::Integer(_) => 3,
        Value::Real(_) => 4,
        Value::Timespan(_) => 5,
        Value::Timestamp(_) => 6,
        Value::String(_) => 7,
        Value::EnumValue(_) => 8,
        Value::Address(_) => 9,
        Value::Subnet(_) => 10,
        Value::Port(_) => 11,
        Value::Vector(_) => 12,
        Value::SetOf(_) => 13,
        Value::Table(_) => 14,
    }
}

fn compare_all(xs: &Vec<Value>, ys: &Vec<Value>) -> (o: Order)
    ensures
        o == keys_order(order_keys(views(xs@)), order_keys(views(ys@))),
    decreases *xs,
{
    let ghost a = order_keys(views(xs@));
    let ghost b = order_keys(views(ys@));
    let mut i: usize = 0;
    assert(a.skip(0) =~= a);
    assert(b.skip(0) =~= b);
    while i < xs.len() && i < ys.len()
        invariant
            i <= xs.len(),
            i <= ys.len(),
            a == order_keys(views(xs@)),
            b == order_keys(views(ys@)),
            keys_order(a, b) == keys_order(a.skip(i as int), b.skip(i as int)),
        decreases xs.len() - i,
    {
        assert(decreases_to!(*xs => xs@));
        assert(decreases_to!(xs@ => xs@[i as int]));
        assert(a.skip(i as int)[0] == order_key(xs@[i as int]@));
        assert(b.skip(i as int)[0] == order_key(ys@[i as int]@));
        assert(a.skip(i as int).drop_first() =~= a.skip(i + 1));
        assert(b.skip(i as int).drop_first() =~= b.skip(i + 1));
        match compare_values(&xs[i], &ys[i]) {
            Order::Equal => {},
            o => {
                return o;
            },
        }
        i = i + 1;
    }
    compare_ints(xs.len() as i128, ys.len() as i128)
}

fn compare_entries(xs: &Vec<TableEntry>, ys: &Vec<TableEntry>) -> (o: Order)
    ensures
        o == keys_order(entry_keys(views(xs@)), entry_keys(views(ys@))),
    decreases *xs,
{
    let ghost a = entry_keys(views(xs@));
    let ghost b = entry_keys(views(ys@));
    let mut i: usize = 0;
    assert(a.skip(0) =~= a);
    assert(b.skip(0) =~= b);
    while i < xs.len() && i < ys.len()
        invariant
            i <= xs.len(),
            i <= ys.len(),
            a == entry_keys(views(xs@)),
            b == entry_keys(views(ys@)),
            keys_order(a, b) == keys_order(a.skip(i as int), b.skip(i as int)),
        decreases xs.len() - i,
    {
        let x = &xs[i];
        let y = &ys[i];
        assert(decreases_to!(*xs => xs@));
        assert(decreases_to!(xs@ => xs@[i as int]));
        assert(decreases_to!(*x => x.key));
        assert(decreases_to!(*x => x.value));
        assert(a.skip(i as int)[0] == pair_key(order_key(x.key@), order_key(x.value@)));
        assert(b.skip(i as int)[0] == pair_key(order_key(y.key@), order_key(y.value@)));
        assert(a.skip(i as int).drop_first() =~= a.skip(i + 1));
        assert(b.skip(i as int).drop_first() =~= b.skip(i + 1));
        proof {
            lemma_pair_order(
                order_key(x.key@),
                order_key(x.value@),
                order_key(y.key@),
                order_key(y.value@),
            );
        }
        match compare_values(&x.key, &y.key) {
            Order::Equal => {},
            o => {
                return o;
            },
        }
        match compare_values(&x.value, &y.value) {
            Order::Equal => {},
            o => {
                return o;
            },
        }
        i = i + 1;
    }
    compare_ints(xs.len() as i128, ys.len() as i128)
}

/// Whether the values count as equal, one by one.
pub fn same_values(xs: &Vec<Value>, ys: &Vec<Value>) -> (r: bool)
    ensures
        r == (order_keys(views(xs@)) == order_keys(views(ys@))),
{
    proof {
        lemma_key_equal(
            OrderKey { head: Seq::empty(), children: order_keys(views(xs@)) },
            OrderKey { head: Seq::empty(), children: order_keys(views(ys@)) },
        );
        assert(lex_order(Seq::<int>::empty(), Seq::<int>::empty()) == Order::Equal);
    }
    match compare_all(xs, ys) {
        Order::Equal => true,
        _ => false,
    }
}

impl Ordered for Value {
    open spec fn key_of(v: ValueView) -> OrderKey {
        order_key(v)
    }

    fn compare(&self, other: &Value) -> (o: Order) {
        compare_values(self, other)
    }
}

/// In a set values stand in their order, and in a table entries in the order of their keys, whatever
/// they hold under these.
pub proof fn entries_by_key(k: ValueView, l: ValueView, v: ValueView, w: ValueView)
    ensures
        Value::key_of(k) == Value::key_of(l) <==> same_value(k, l),
        TableEntry::key_of((k, v)) == TableEntry::key_of((l, w)) <==> same_value(k, l),
        key_order(Value::key_of(k), Value::key_of(l)) == key_order(order_key(k), order_key(l)),
        key_order(TableEntry::key_of((k, v)), TableEntry::key_of((l, w))) == key_order(
            order_key(k),
            order_key(l),
        ),
{
}

impl Ordered for TableEntry {
    open spec fn key_of(v: (ValueView, ValueView)) -> OrderKey {
        order_key(v.0)
    }

    fn compare(&self, other: &TableEntry) -> (o: Order) {
        compare_values(&self.key, &other.key)
    }
}

impl PartialEq for Value {
    fn eq(&self, other: &Value) -> (r: bool) {
        proof {
            lemma_key_equal(order_key(self@), order_key(other@));
        }
        match compare_values(self, other) {
            Order::Equal => true,
            _ => false,
        }
    }
}

impl vstd::std_specs::cmp::PartialEqSpecImpl for Value {
    open spec fn obeys_eq_spec() -> bool {
        true
    }

    open spec fn eq_spec(&self, other: &Value) -> bool {
        same_value(self@, other@)
    }
}

impl Eq for Value {

}

/// The outcome of a comparison as the standard library has it.
pub open spec fn ordering_of(o: Order) -> std::cmp::Ordering {
    match o {
        Order::Less => std::cmp::Ordering::Less,
        Order::Equal => std::cmp::Ordering::Equal,
        Order::Greater => std::cmp::Ordering::Greater,
    }
}

impl PartialOrd for Value {
    fn partial_cmp(&self, other: &Value) -> (r: Option<std::cmp::Ordering>) {
        match compare_values(self, other) {
            Order::Less => Some(std::cmp::Ordering::Less),
            Order::Equal => Some(std::cmp::Ordering::Equal),
            Order::Greater => Some(std::cmp::Ordering::Greater),
        }
    }
}

/// The operators compare values by their order: one is less than another where it sorts in front
/// of it, and equal where they count as equal.
pub proof fn operators_compare(a: Value, b: Value)
    ensures
        a.partial_cmp_spec(&b) == Some(std::cmp::Ordering::Less) <==> key_order(
            order_key(a@),
            order_key(b@),
        ) == Order::Less,
        a.partial_cmp_spec(&b) == Some(std::cmp::Ordering::Greater) <==> key_order(
            order_key(b@),
            order_key(a@),
        ) == Order::Less,
        a.partial_cmp_spec(&b) == Some(std::cmp::Ordering::Equal) <==> same_value(a@, b@),
        a.eq_spec(&b) <==> same_value(a@, b@),
{
    lemma_key_flip(order_key(a@), order_key(b@));
    lemma_key_equal(order_key(a@), order_key(b@));
}

impl vstd::std_specs::cmp::PartialOrdSpecImpl for Value {
    open spec fn obeys_partial_cmp_spec() -> bool {
        true
    }

    open spec fn partial_cmp_spec(&self, other: &Value) -> Option<std::cmp::Ordering> {
        Some(ordering_of(key_order(order_key(self@), order_key(other@))))
    }
}

fn copy_value(v: &Value) -> (r: Value)
    ensures
        r@ == v@,
    decreases *v,
{
    broadcast use lemma_view;

    match v {
        Value::Nil => Value::Nil,
        Value::Boolean(x) => Value::Boolean(*x),
        Value::Count(x) => Value::Count(*x),
        Value::Integer(x) => Value::Integer(*x),
        Value::Real(x) => Value::Real(*x),
        Value::Timespan(x) => Value::Timespan(*x),
        Value::Timestamp(x) => Value::Timestamp(*x),
        Value::String(x) => Value::String(x.clone()),
        Value::EnumValue(x) => Value::EnumValue(x.clone()),
        Value::Address(x) => Value::Address(*x),
        Value::Subnet(x) => Value::Subnet(*x),
        Value::Port(x) => Value::Port(*x),
        Value::Vector(xs) => {
            assert(decreases_to!(*v => v->Vector_0));
            Value::Vector(copy_values(xs))
        },
        Value::SetOf(s) => {
            assert(decreases_to!(*v => v->SetOf_0));
            assert(decreases_to!(*s => s.items));
            proof {
                use_type_invariant(s);
            }
            Value::SetOf(ValueSet { items: copy_values(&s.items) })
        },
        Value::Table(t) => {
            assert(decreases_to!(*v => v->Table_0));
            assert(decreases_to!(*t => t.entries));
            proof {
                use_type_invariant(t);
            }
            Value::Table(ValueTable { entries: copy_entries(&t.entries) })
        },
    }
}

/// Copies each of the values.
pub fn copy_values(xs: &Vec<Value>) -> (r: Vec<Value>)
    ensures
        views(r@) == views(xs@),
    decreases *xs,
{
    let mut out: Vec<Value> = Vec::new();
    let mut i: usize = 0;
    while i < xs.len()
        invariant
            i <= xs.len(),
            out.len() == i,
            forall|j: int| 0 <= j < i ==> out@[j]@ == #[trigger] xs@[j]@,
        decreases xs.len() - i,
    {
        assert(decreases_to!(*xs => xs@));
        assert(decreases_to!(xs@ => xs@[i as int]));
        out.push(copy_value(&xs[i]));
        i = i + 1;
    }
    assert(views(out@) =~= views(xs@));
    out
}

fn copy_entries(xs: &Vec<TableEntry>) -> (r: Vec<TableEntry>)
    ensures
        views(r@) == views(xs@),
    decreases *xs,
{
    let mut out: Vec<TableEntry> = Vec::new();
    let mut i: usize = 0;
    while i < xs.len()
        invariant
            i <= xs.len(),
            out.len() == i,
            forall|j: int| 0 <= j < i ==> out@[j]@ == #[trigger] xs@[j]@,
        decreases xs.len() - i,
    {
        let x = &xs[i];
        assert(decreases_to!(*xs => xs@));
        assert(decreases_to!(xs@ => xs@[i as int]));
        assert(decreases_to!(*x => x.key));
        assert(decreases_to!(*x => x.value));
        out.push(TableEntry { key: copy_value(&x.key), value: copy_value(&x.value) });
        i = i + 1;
    }
    assert(views(out@) =~= views(xs@));
    out
}

impl Clone for Value {
    fn clone(&self) -> (r: Value)
        ensures
            r@ == self@,
    {
        copy_value(self)
    }
}

impl Clone for TableEntry {
    fn clone(&self) -> (r: TableEntry)
        ensures
            r@ == self@,
    {
        TableEntry { key: copy_value(&self.key), value: copy_value(&self.value) }
    }
}

impl Clone for ValueSet {
    fn clone(&self) -> (r: ValueSet)
        ensures
            r@ == self@,
    {
        proof {
            use_type_invariant(self);
        }
        ValueSet { items: copy_values(&self.items) }
    }
}

impl Clone for ValueTable {
    fn clone(&self) -> (r: ValueTable)
        ensures
            r@ == self@,
    {
        proof {
            use_type_invariant(self);
        }
        ValueTable { entries: copy_entries(&self.entries) }
    }
}

impl PartialEq for ValueSet {
    fn eq(&self, other: &ValueSet) -> (r: bool) {
        same_values(&self.items, &other.items)
    }
}

impl vstd::std_specs::cmp::PartialEqSpecImpl for ValueSet {
    open spec fn obeys_eq_spec() -> bool {
        true
    }

    open spec fn eq_spec(&self, other: &ValueSet) -> bool {
        order_keys(self@) == order_keys(other@)
    }
}

impl Eq for ValueSet {

}

impl PartialEq for ValueTable {
    fn eq(&self, other: &ValueTable) -> (r: bool) {
        proof {
            lemma_key_equal(
                OrderKey { head: Seq::empty(), children: entry_keys(self@) },
                OrderKey { head: Seq::empty(), children: entry_keys(other@) },
            );
            assert(lex_order(Seq::<int>::empty(), Seq::<int>::empty()) == Order::Equal);
        }
        match compare_entries(&self.entries, &other.entries) {
            Order::Equal => true,
            _ => false,
        }
    }
}

impl vstd::std_specs::cmp::PartialEqSpecImpl for ValueTable {
    open spec fn obeys_eq_spec() -> bool {
        true
    }

    open spec fn eq_spec(&self, other: &ValueTable) -> bool {
        entry_keys(self@) == entry_keys(other@)
    }
}

impl Eq for ValueTable {

}

impl PartialEq for TableEntry {
    fn eq(&self, other: &TableEntry) -> (r: bool) {
        self.key == other.key && self.value == other.value
    }
}

impl vstd::std_specs::cmp::PartialEqSpecImpl for TableEntry {
    open spec fn obeys_eq_spec() -> bool {
        true
    }

    open spec fn eq_spec(&self, other: &TableEntry) -> bool {
        same_value(self.key@, other.key@) && same_value(self.value@, other.value@)
    }
}

impl Eq for TableEntry {

}

/// Sets and tables count as equal where the values that hold them do, and entries where both of
/// their parts do.
pub proof fn parts_compare(
    s: ValueSet,
    t: ValueSet,
    x: ValueTable,
    y: ValueTable,
    a: TableEntry,
    b: TableEntry,
)
    ensures
        s.eq_spec(&t) <==> same_value(ValueView::SetOf(s@), ValueView::SetOf(t@)),
        x.eq_spec(&y) <==> same_value(ValueView::Table(x@), ValueView::Table(y@)),
        a.eq_spec(&b) <==> same_value(a.key@, b.key@) && same_value(a.value@, b.value@),
{
    lemma_order_key(ValueView::SetOf(s@));
    lemma_order_key(ValueView::SetOf(t@));
    lemma_order_key(ValueView::Table(x@));
    lemma_order_key(ValueView::Table(y@));
}

impl ValueSet {
    #[verifier::type_invariant]
    spec fn valid(self) -> bool {
        sorted::<Value>(views(self.items@))
    }

    pub fn new() -> (r: ValueSet)
        ensures
            r@ == Seq::<ValueView>::empty(),
    {
        let items: Vec<Value> = Vec::new();
        assert(views(items@) =~= Seq::<ValueView>::empty());
        ValueSet { items }
    }

    /// The set of the values; of values that count as equal the last is kept.
    pub fn from_values(items: Vec<Value>) -> (r: ValueSet)
        ensures
            r@ == collected::<Value>(views(items@), true),
            sorted::<Value>(r@),
    {
        ValueSet { items: collect_sorted(items, true) }
    }

    /// The set of the values; of values that count as equal the first is kept.
    pub fn from_first(items: Vec<Value>) -> (r: ValueSet)
        ensures
            r@ == collected::<Value>(views(items@), false),
            sorted::<Value>(r@),
    {
        ValueSet { items: collect_sorted(items, false) }
    }

    /// Adds a value, unless the set has one that counts as equal.
    pub fn insert(&mut self, item: Value)
        ensures
            final(self)@ == inserted::<Value>(old(self)@, item@, false),
            sorted::<Value>(final(self)@),
    {
        proof {
            use_type_invariant(&*self);
        }
        let mut items: Vec<Value> = Vec::new();
        assert(views(items@) =~= Seq::<ValueView>::empty());
        std::mem::swap(&mut self.items, &mut items);
        insert_sorted(&mut items, item, false);
        self.items = items;
    }

    /// The values in ascending order.
    pub fn items(&self) -> (r: &Vec<Value>)
        ensures
            views(r@) == self@,
            sorted::<Value>(self@),
            decreases_to!(*self => *r),
    {
        proof {
            use_type_invariant(self);
        }
        &self.items
    }

    pub fn len(&self) -> (r: usize)
        ensures
            r == self@.len(),
    {
        self.items.len()
    }
}

impl ValueTable {
    #[verifier::type_invariant]
    spec fn valid(self) -> bool {
        sorted::<TableEntry>(views(self.entries@))
    }

    pub fn new() -> (r: ValueTable)
        ensures
            r@ == Seq::<(ValueView, ValueView)>::empty(),
    {
        let entries: Vec<TableEntry> = Vec::new();
        assert(views(entries@) =~= Seq::<(ValueView, ValueView)>::empty());
        ValueTable { entries }
    }

    /// The table of the entries; of entries with keys that count as equal the last is kept.
    pub fn from_entries(entries: Vec<TableEntry>) -> (r: ValueTable)
        ensures
            r@ == collected::<TableEntry>(views(entries@), true),
            sorted::<TableEntry>(r@),
    {
        ValueTable { entries: collect_sorted(entries, true) }
    }

    /// The entries in ascending order of their keys.
    pub fn entries(&self) -> (r: &Vec<TableEntry>)
        ensures
            views(r@) == self@,
            sorted::<TableEntry>(self@),
            decreases_to!(*self => *r),
    {
        proof {
            use_type_invariant(self);
        }
        &self.entries
    }

    pub fn len(&self) -> (r: usize)
        ensures
            r == self@.len(),
    {
        self.entries.len()
    }
}

} // verus!
