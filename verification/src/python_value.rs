//! Values as Python code sees them, and the order in which they sort.
//!
//! They differ from the values of the WebSocket API in that a subnet may be malformed, and in
//! that there are records with named fields.
use vstd::prelude::*;

use crate::net::IpAddr;
use crate::order::{
    int_order, key_order, keys_order, lemma_key_equal, lemma_keys_common, lemma_lex_common,
    lemma_lex_equal, lex_order, Order, OrderKey,
};
use crate::scalar::{Real, Timespan, Timestamp};
use crate::sorted::{collect_sorted, collected, sorted, views, Ordered};
use crate::text::{code_points, compare_text, lemma_code_points_distinct};
use crate::value::{
    addr_key, compare_addrs, compare_ints, lemma_lex_behind, lemma_lex_one, lemma_lex_three,
    lemma_lex_two, lemma_pair_order, nil_key, pair_key,
};

verus! {

/// A value as Python code sees it.
#[derive(Debug)]
pub enum Value {
    Boolean(bool),
    Count(u64),
    Integer(i64),
    Real(Real),
    Timespan(Timespan),
    Timestamp(Timestamp),
    Address(IpAddr),
    Subnet(IpAddr, u8),
    Port(u16, Protocol),
    Vector(Vec<Value>),
    SetOf(ValueSet),
    Table(ValueTable),
    Record(ValueRecord),
    String(String),
    Enum(String),
    Nil,
}

/// A network protocol as Python code sees it.
#[derive(Debug, Clone, Copy, PartialEq, Eq, PartialOrd, Ord, Hash, Structural)]
pub enum Protocol {
    UNKNOWN,
    TCP,
    UDP,
    ICMP,
}

impl Protocol {
    /// Place among the protocols.
    pub open spec fn rank(self) -> int {
        match self {
            Protocol::UNKNOWN => 1,
            Protocol::TCP => 2,
            Protocol::UDP => 3,
            Protocol::ICMP => 4,
        }
    }

    pub fn rank_of(&self) -> (r: u8)
        ensures
            r == self.rank(),
    {
        match self {
            Protocol::UNKNOWN => 1,
            Protocol::TCP => 2,
            Protocol::UDP => 3,
            Protocol::ICMP => 4,
        }
    }
}

/// Distinct values in ascending order.
#[derive(Debug)]
pub struct ValueSet {
    items: Vec<Value>,
}

/// Entries with distinct keys, in ascending order of the keys.
#[derive(Debug)]
pub struct ValueTable {
    entries: Vec<TableEntry>,
}

/// Fields with distinct names, in ascending order of the names.
#[derive(Debug)]
pub struct ValueRecord {
    fields: Vec<RecordField>,
}

/// An entry of a table.
#[derive(Debug)]
pub struct TableEntry {
    pub key: Value,
    pub value: Value,
}

/// A field of a record.
#[derive(Debug)]
pub struct RecordField {
    pub name: String,
    pub value: Value,
}

/// A value as mathematics has it.
pub enum ValueView {
    Boolean(bool),
    Count(u64),
    Integer(i64),
    Real(Real),
    /// Length in nanoseconds.
    Timespan(int),
    /// Nanoseconds from the start of 1970 in UTC, and seconds from UTC at which the point was
    /// given.
    Timestamp((int, int)),
    Address(IpAddr),
    Subnet(IpAddr, u8),
    Port(u16, Protocol),
    Vector(Seq<ValueView>),
    SetOf(Seq<ValueView>),
    Table(Seq<(ValueView, ValueView)>),
    Record(Seq<(Seq<char>, ValueView)>),
    String(Seq<char>),
    Enum(Seq<char>),
    Nil,
}

spec fn value_view(v: Value) -> ValueView
    decreases v,
{
    match v {
        Value::Nil => ValueView::Nil,
        Value::Boolean(x) => ValueView::Boolean(x),
        Value::Count(x) => ValueView::Count(x),
        Value::Integer(x) => ValueView::Integer(x),
        Value::Real(x) => ValueView::Real(x),
        Value::Timespan(x) => ValueView::Timespan(x@),
        Value::Timestamp(x) => ValueView::Timestamp(x@),
        Value::String(x) => ValueView::String(x@),
        Value::Enum(x) => ValueView::Enum(x@),
        Value::Address(x) => ValueView::Address(x),
        Value::Subnet(x, n) => ValueView::Subnet(x, n),
        Value::Port(x, p) => ValueView::Port(x, p),
        Value::Vector(xs) => ValueView::Vector(
            Seq::new(
                xs@.len(),
                |i: int|
                    if 0 <= i < xs@.len() {
                        value_view(xs@[i])
                    } else {
                        ValueView::Nil
                    },
            ),
        ),
        Value::SetOf(s) => ValueView::SetOf(
            Seq::new(
                s.items@.len(),
                |i: int|
                    if 0 <= i < s.items@.len() {
                        value_view(s.items@[i])
                    } else {
                        ValueView::Nil
                    },
            ),
        ),
        Value::Table(t) => ValueView::Table(
            Seq::new(
                t.entries@.len(),
                |i: int|
                    if 0 <= i < t.entries@.len() {
                        (value_view(t.entries@[i].key), value_view(t.entries@[i].value))
                    } else {
                        (ValueView::Nil, ValueView::Nil)
                    },
            ),
        ),
        Value::Record(r) => ValueView::Record(
            Seq::new(
                r.fields@.len(),
                |i: int|
                    if 0 <= i < r.fields@.len() {
                        (r.fields@[i].name@, value_view(r.fields@[i].value))
                    } else {
                        (Seq::empty(), ValueView::Nil)
                    },
            ),
        ),
    }
}

impl View for Value {
    type V = ValueView;

    closed spec fn view(&self) -> ValueView {
        value_view(*self)
    }
}

impl View for TableEntry {
    type V = (ValueView, ValueView);

    open spec fn view(&self) -> (ValueView, ValueView) {
        (self.key@, self.value@)
    }
}

impl View for ValueSet {
    type V = Seq<ValueView>;

    closed spec fn view(&self) -> Seq<ValueView> {
        views(self.items@)
    }
}

impl View for ValueTable {
    type V = Seq<(ValueView, ValueView)>;

    closed spec fn view(&self) -> Seq<(ValueView, ValueView)> {
        views(self.entries@)
    }
}

impl View for RecordField {
    type V = (Seq<char>, ValueView);

    open spec fn view(&self) -> (Seq<char>, ValueView) {
        (self.name@, self.value@)
    }
}

impl View for ValueRecord {
    type V = Seq<(Seq<char>, ValueView)>;

    closed spec fn view(&self) -> Seq<(Seq<char>, ValueView)> {
        views(self.fields@)
    }
}

/// What each value stands for.
pub broadcast proof fn lemma_view(v: Value)
    ensures
        #[trigger] v@ == match v {
            Value::Nil => ValueView::Nil,
            Value::Boolean(x) => ValueView::Boolean(x),
            Value::Count(x) => ValueView::Count(x),
            Value::Integer(x) => ValueView::Integer(x),
            Value::Real(x) => ValueView::Real(x),
            Value::Timespan(x) => ValueView::Timespan(x@),
            Value::Timestamp(x) => ValueView::Timestamp(x@),
            Value::String(x) => ValueView::String(x@),
            Value::Enum(x) => ValueView::Enum(x@),
            Value::Address(x) => ValueView::Address(x),
            Value::Subnet(x, n) => ValueView::Subnet(x, n),
            Value::Port(x, p) => ValueView::Port(x, p),
            Value::Vector(xs) => ValueView::Vector(views(xs@)),
            Value::SetOf(s) => ValueView::SetOf(s@),
            Value::Table(t) => ValueView::Table(t@),
            Value::Record(r) => ValueView::Record(r@),
        },
{
    match v {
        Value::Vector(xs) => {
            assert(v@->Vector_0 =~= views(xs@));
        },
        Value::SetOf(s) => {
            assert(v@->SetOf_0 =~= s@);
        },
        Value::Table(t) => {
            assert(v@->Table_0 =~= t@);
        },
        Value::Record(r) => {
            assert(v@->Record_0 =~= r@);
        },
        _ => {},
    }
}

/// Place of the kind of value among the kinds.
pub open spec fn kind_rank(v: ValueView) -> int {
    match v {
        ValueView::Boolean(_) => 0,
        ValueView::Count(_) => 1,
        ValueView::Integer(_) => 2,
        ValueView::Real(_) => 3,
        ValueView::Timespan(_) => 4,
        ValueView::Timestamp(_) => 5,
        ValueView::Address(_) => 6,
        ValueView::Subnet(_, _) => 7,
        ValueView::Port(_, _) => 8,
        ValueView::Vector(_) => 9,
        ValueView::SetOf(_) => 10,
        ValueView::Table(_) => 11,
        ValueView::Record(_) => 12,
        ValueView::String(_) => 13,
        ValueView::Enum(_) => 14,
        ValueView::Nil => 15,
    }
}

/// What sorts values of one kind that hold no other values.
pub open spec fn scalar_key(v: ValueView) -> Seq<int> {
    match v {
        ValueView::Boolean(x) => seq![
            if x {
                1int
            } else {
                0int
            },
        ],
        ValueView::Count(x) => seq![x as int],
        ValueView::Integer(x) => seq![x as int],
        ValueView::Real(x) => seq![x.rank()],
        ValueView::Timespan(x) => seq![x],
        ValueView::Timestamp(x) => seq![x.0],
        ValueView::String(x) => code_points(x),
        ValueView::Enum(x) => code_points(x),
        ValueView::Address(x) => addr_key(x),
        ValueView::Subnet(x, n) => addr_key(x) + seq![n as int],
        ValueView::Port(x, p) => seq![x as int, p.rank()],
        _ => Seq::empty(),
    }
}

/// What a value sorts by: its kind first, then what it holds.
pub open spec fn order_key(v: ValueView) -> OrderKey
    decreases v,
{
    OrderKey {
        head: seq![kind_rank(v)] + scalar_key(v),
        children: match v {
            ValueView::Vector(s) => Seq::new(
                s.len(),
                |i: int|
                    if 0 <= i < s.len() {
                        order_key(s[i])
                    } else {
                        nil_key()
                    },
            ),
            ValueView::SetOf(s) => Seq::new(
                s.len(),
                |i: int|
                    if 0 <= i < s.len() {
                        order_key(s[i])
                    } else {
                        nil_key()
                    },
            ),
            ValueView::Table(t) => Seq::new(
                t.len(),
                |i: int|
                    if 0 <= i < t.len() {
                        pair_key(order_key(t[i].0), order_key(t[i].1))
                    } else {
                        nil_key()
                    },
            ),
            ValueView::Record(r) => Seq::new(
                r.len(),
                |i: int|
                    if 0 <= i < r.len() {
                        field_key(r[i].0, order_key(r[i].1))
                    } else {
                        nil_key()
                    },
            ),
            _ => Seq::empty(),
        },
    }
}

/// What a field sorts by: its name, then its value.
pub open spec fn field_key(name: Seq<char>, value: OrderKey) -> OrderKey {
    OrderKey { head: code_points(name), children: seq![value] }
}

/// What each of several values sorts by.
pub open spec fn order_keys(s: Seq<ValueView>) -> Seq<OrderKey> {
    Seq::new(s.len(), |i: int| order_key(s[i]))
}

/// What each of several entries sorts by.
pub open spec fn entry_keys(t: Seq<(ValueView, ValueView)>) -> Seq<OrderKey> {
    Seq::new(t.len(), |i: int| pair_key(order_key(t[i].0), order_key(t[i].1)))
}

/// What each of several fields sorts by.
pub open spec fn field_keys(r: Seq<(Seq<char>, ValueView)>) -> Seq<OrderKey> {
    Seq::new(r.len(), |i: int| field_key(r[i].0, order_key(r[i].1)))
}

/// Two values count as equal where they sort alike.
pub open spec fn same_value(a: ValueView, b: ValueView) -> bool {
    order_key(a) == order_key(b)
}

/// What a value sorts by, by what its parts sort by.
pub proof fn lemma_order_key(v: ValueView)
    ensures
        order_key(v).head == seq![kind_rank(v)] + scalar_key(v),
        order_key(v).children == match v {
            ValueView::Vector(s) => order_keys(s),
            ValueView::SetOf(s) => order_keys(s),
            ValueView::Table(t) => entry_keys(t),
            ValueView::Record(r) => field_keys(r),
            _ => Seq::empty(),
        },
{
    match v {
        ValueView::Vector(s) => {
            assert(order_key(v).children =~= order_keys(s));
        },
        ValueView::SetOf(s) => {
            assert(order_key(v).children =~= order_keys(s));
        },
        ValueView::Table(t) => {
            assert(order_key(v).children =~= entry_keys(t));
        },
        ValueView::Record(r) => {
            assert(order_key(v).children =~= field_keys(r));
        },
        _ => {},
    }
}

/// The order of two values of different kinds is that of the kinds.
proof fn lemma_kind_first(a: ValueView, b: ValueView)
    requires
        kind_rank(a) < kind_rank(b),
    ensures
        key_order(order_key(a), order_key(b)) == Order::Less,
{
    lemma_order_key(a);
    lemma_order_key(b);
    assert(order_key(a).head[0] == kind_rank(a));
    assert(order_key(b).head[0] == kind_rank(b));
}

/// Whatever they hold, values sort by their kinds first: booleans, counts, integers, real numbers,
/// timespans, points in time, addresses, subnets, ports, vectors, sets, tables, records, strings,
/// enum values and nothing, in this order.
pub proof fn kinds_in_order(
    b: bool,
    n: u64,
    i: i64,
    x: Real,
    span: int,
    point: (int, int),
    addr: IpAddr,
    net: (IpAddr, u8),
    port: (u16, Protocol),
    v: Seq<ValueView>,
    set: Seq<ValueView>,
    t: Seq<(ValueView, ValueView)>,
    r: Seq<(Seq<char>, ValueView)>,
    s: Seq<char>,
    e: Seq<char>,
)
    ensures
        key_order(order_key(ValueView::Boolean(b)), order_key(ValueView::Count(n))) == Order::Less,
        key_order(order_key(ValueView::Count(n)), order_key(ValueView::Integer(i))) == Order::Less,
        key_order(order_key(ValueView::Integer(i)), order_key(ValueView::Real(x))) == Order::Less,
        key_order(order_key(ValueView::Real(x)), order_key(ValueView::Timespan(span))) == Order::Less,
        key_order(order_key(ValueView::Timespan(span)), order_key(ValueView::Timestamp(point))) == Order::Less,
        key_order(order_key(ValueView::Timestamp(point)), order_key(ValueView::Address(addr))) == Order::Less,
        key_order(order_key(ValueView::Address(addr)), order_key(ValueView::Subnet(net.0, net.1))) == Order::Less,
        key_order(order_key(ValueView::Subnet(net.0, net.1)), order_key(ValueView::Port(port.0, port.1))) == Order::Less,
        key_order(order_key(ValueView::Port(port.0, port.1)), order_key(ValueView::Vector(v))) == Order::Less,
        key_order(order_key(ValueView::Vector(v)), order_key(ValueView::SetOf(set))) == Order::Less,
        key_order(order_key(ValueView::SetOf(set)), order_key(ValueView::Table(t))) == Order::Less,
        key_order(order_key(ValueView::Table(t)), order_key(ValueView::Record(r))) == Order::Less,
        key_order(order_key(ValueView::Record(r)), order_key(ValueView::String(s))) == Order::Less,
        key_order(order_key(ValueView::String(s)), order_key(ValueView::Enum(e))) == Order::Less,
        key_order(order_key(ValueView::Enum(e)), order_key(ValueView::Nil)) == Order::Less,
{
    lemma_kind_first(ValueView::Boolean(b), ValueView::Count(n));
    lemma_kind_first(ValueView::Count(n), ValueView::Integer(i));
    lemma_kind_first(ValueView::Integer(i), ValueView::Real(x));
    lemma_kind_first(ValueView::Real(x), ValueView::Timespan(span));
    lemma_kind_first(ValueView::Timespan(span), ValueView::Timestamp(point));
    lemma_kind_first(ValueView::Timestamp(point), ValueView::Address(addr));
    lemma_kind_first(ValueView::Address(addr), ValueView::Subnet(net.0, net.1));
    lemma_kind_first(ValueView::Subnet(net.0, net.1), ValueView::Port(port.0, port.1));
    lemma_kind_first(ValueView::Port(port.0, port.1), ValueView::Vector(v));
    lemma_kind_first(ValueView::Vector(v), ValueView::SetOf(set));
    lemma_kind_first(ValueView::SetOf(set), ValueView::Table(t));
    lemma_kind_first(ValueView::Table(t), ValueView::Record(r));
    lemma_kind_first(ValueView::Record(r), ValueView::String(s));
    lemma_kind_first(ValueView::String(s), ValueView::Enum(e));
    lemma_kind_first(ValueView::Enum(e), ValueView::Nil);
}

/// The order of two values of one kind that hold no other values.
proof fn lemma_scalar_order(a: ValueView, b: ValueView)
    requires
        kind_rank(a) == kind_rank(b),
        !(9 <= kind_rank(a) <= 12),
    ensures
        key_order(order_key(a), order_key(b)) == lex_order(scalar_key(a), scalar_key(b)),
{
    lemma_order_key(a);
    lemma_order_key(b);
    lemma_lex_behind(kind_rank(a), scalar_key(a), scalar_key(b));
}

/// Values of one kind sort by what they hold: booleans with false in front, numbers and spans by
/// their size, and points in time by when they are, wherever they were given.
pub proof fn numbers_in_order(
    n: u64,
    m: u64,
    i: i64,
    j: i64,
    x: Real,
    y: Real,
    span: int,
    other: int,
    from: int,
    to: int,
)
    ensures
        key_order(
            order_key(ValueView::Boolean(false)),
            order_key(ValueView::Boolean(true)),
        ) == Order::Less,
        key_order(order_key(ValueView::Count(n)), order_key(ValueView::Count(m))) == Order::Less
            <==> n < m,
        key_order(order_key(ValueView::Integer(i)), order_key(ValueView::Integer(j))) == Order::Less
            <==> i < j,
        key_order(order_key(ValueView::Real(x)), order_key(ValueView::Real(y))) == Order::Less
            <==> x.rank() < y.rank(),
        key_order(order_key(ValueView::Timespan(span)), order_key(ValueView::Timespan(other)))
            == Order::Less <==> span < other,
        key_order(
            order_key(ValueView::Timestamp((span, from))),
            order_key(ValueView::Timestamp((other, to))),
        ) == Order::Less <==> span < other,
{
    lemma_scalar_order(ValueView::Boolean(false), ValueView::Boolean(true));
    lemma_scalar_order(ValueView::Count(n), ValueView::Count(m));
    lemma_scalar_order(ValueView::Integer(i), ValueView::Integer(j));
    lemma_scalar_order(ValueView::Real(x), ValueView::Real(y));
    lemma_scalar_order(ValueView::Timespan(span), ValueView::Timespan(other));
    lemma_scalar_order(ValueView::Timestamp((span, from)), ValueView::Timestamp((other, to)));
    lemma_lex_one(0, 1);
    lemma_lex_one(n as int, m as int);
    lemma_lex_one(i as int, j as int);
    lemma_lex_one(x.rank(), y.rank());
    lemma_lex_one(span, other);
}

/// Addresses sort by their family, IPv4 in front, then by their number; subnets by their address,
/// then by their prefix; ports by their number, then by their protocol: what is unknown, TCP,
/// UDP and ICMP.
pub proof fn addresses_in_order(a: u32, b: u32, c: u128, d: u128, m: u8, n: u8, p: u16, q: u16)
    ensures
        key_order(
            order_key(ValueView::Address(IpAddr::V4(a))),
            order_key(ValueView::Address(IpAddr::V4(b))),
        ) == Order::Less <==> a < b,
        key_order(
            order_key(ValueView::Address(IpAddr::V6(c))),
            order_key(ValueView::Address(IpAddr::V6(d))),
        ) == Order::Less <==> c < d,
        key_order(
            order_key(ValueView::Address(IpAddr::V4(a))),
            order_key(ValueView::Address(IpAddr::V6(c))),
        ) == Order::Less,
        key_order(
            order_key(ValueView::Subnet(IpAddr::V4(a), m)),
            order_key(ValueView::Subnet(IpAddr::V4(b), n)),
        ) == Order::Less <==> a < b || (a == b && m < n),
        key_order(
            order_key(ValueView::Subnet(IpAddr::V6(c), m)),
            order_key(ValueView::Subnet(IpAddr::V6(d), n)),
        ) == Order::Less <==> c < d || (c == d && m < n),
        key_order(
            order_key(ValueView::Subnet(IpAddr::V4(a), m)),
            order_key(ValueView::Subnet(IpAddr::V6(c), n)),
        ) == Order::Less,
        forall|s: Protocol, t: Protocol|
            p < q ==> #[trigger] key_order(
                order_key(ValueView::Port(p, s)),
                order_key(ValueView::Port(q, t)),
            ) == Order::Less,
        key_order(
            order_key(ValueView::Port(p, Protocol::UNKNOWN)),
            order_key(ValueView::Port(p, Protocol::TCP)),
        ) == Order::Less,
        key_order(
            order_key(ValueView::Port(p, Protocol::TCP)),
            order_key(ValueView::Port(p, Protocol::UDP)),
        ) == Order::Less,
        key_order(
            order_key(ValueView::Port(p, Protocol::UDP)),
            order_key(ValueView::Port(p, Protocol::ICMP)),
        ) == Order::Less,
{
    let (v, w) = (IpAddr::V4(a), IpAddr::V4(b));
    let (x, y) = (IpAddr::V6(c), IpAddr::V6(d));
    lemma_scalar_order(ValueView::Address(v), ValueView::Address(w));
    lemma_scalar_order(ValueView::Address(x), ValueView::Address(y));
    lemma_scalar_order(ValueView::Address(v), ValueView::Address(x));
    lemma_scalar_order(ValueView::Subnet(v, m), ValueView::Subnet(w, n));
    lemma_scalar_order(ValueView::Subnet(x, m), ValueView::Subnet(y, n));
    lemma_scalar_order(ValueView::Subnet(v, m), ValueView::Subnet(x, n));
    lemma_lex_two(0, a as int, 0, b as int);
    lemma_lex_two(1, c as int, 1, d as int);
    lemma_lex_two(0, a as int, 1, c as int);
    lemma_lex_three(0, a as int, m as int, 0, b as int, n as int);
    lemma_lex_three(1, c as int, m as int, 1, d as int, n as int);
    lemma_lex_three(0, a as int, m as int, 1, c as int, n as int);
    assert forall|s: Protocol, t: Protocol| p < q implies #[trigger] key_order(
        order_key(ValueView::Port(p, s)),
        order_key(ValueView::Port(q, t)),
    ) == Order::Less by {
        lemma_port_order(p, s, q, t);
    }
    lemma_port_order(p, Protocol::UNKNOWN, p, Protocol::TCP);
    lemma_port_order(p, Protocol::TCP, p, Protocol::UDP);
    lemma_port_order(p, Protocol::UDP, p, Protocol::ICMP);
}

proof fn lemma_port_order(p: u16, s: Protocol, q: u16, t: Protocol)
    ensures
        key_order(order_key(ValueView::Port(p, s)), order_key(ValueView::Port(q, t))) == if p != q {
            int_order(p as int, q as int)
        } else {
            int_order(s.rank(), t.rank())
        },
{
    lemma_scalar_order(ValueView::Port(p, s), ValueView::Port(q, t));
    lemma_lex_two(p as int, s.rank(), q as int, t.rank());
}

/// Strings and enum values sort as texts do: the first characters that differ decide, and what
/// ends first is in front.
pub proof fn texts_in_order(
    common: Seq<char>,
    c: char,
    d: char,
    s: Seq<char>,
    t: Seq<char>,
)
    requires
        c < d,
    ensures
        key_order(
            order_key(ValueView::String(common.push(c) + s)),
            order_key(ValueView::String(common.push(d) + t)),
        ) == Order::Less,
        key_order(
            order_key(ValueView::String(common)),
            order_key(ValueView::String(common.push(d) + t)),
        ) == Order::Less,
        key_order(
            order_key(ValueView::Enum(common.push(c) + s)),
            order_key(ValueView::Enum(common.push(d) + t)),
        ) == Order::Less,
        key_order(
            order_key(ValueView::Enum(common)),
            order_key(ValueView::Enum(common.push(d) + t)),
        ) == Order::Less,
{
    let a = common.push(c) + s;
    let b = common.push(d) + t;
    let p = code_points(common);
    assert(code_points(a) =~= p + code_points(seq![c] + s));
    assert(code_points(b) =~= p + code_points(seq![d] + t));
    assert(p =~= p + Seq::<int>::empty());
    lemma_lex_common(p, code_points(seq![c] + s), code_points(seq![d] + t));
    lemma_lex_common(p, Seq::empty(), code_points(seq![d] + t));
    assert(code_points(seq![c] + s)[0] == c as int);
    assert(code_points(seq![d] + t)[0] == d as int);
    lemma_scalar_order(ValueView::String(a), ValueView::String(b));
    lemma_scalar_order(ValueView::String(common), ValueView::String(b));
    lemma_scalar_order(ValueView::Enum(a), ValueView::Enum(b));
    lemma_scalar_order(ValueView::Enum(common), ValueView::Enum(b));
}

/// Vectors and sets sort by their values: the first that differ decide, and what ends first is
/// in front.
pub proof fn vectors_in_order(
    common: Seq<ValueView>,
    a: ValueView,
    b: ValueView,
    s: Seq<ValueView>,
    t: Seq<ValueView>,
)
    requires
        key_order(order_key(a), order_key(b)) == Order::Less,
    ensures
        key_order(
            order_key(ValueView::Vector(common.push(a) + s)),
            order_key(ValueView::Vector(common.push(b) + t)),
        ) == Order::Less,
        key_order(
            order_key(ValueView::Vector(common)),
            order_key(ValueView::Vector(common.push(b) + t)),
        ) == Order::Less,
        key_order(
            order_key(ValueView::SetOf(common.push(a) + s)),
            order_key(ValueView::SetOf(common.push(b) + t)),
        ) == Order::Less,
        key_order(
            order_key(ValueView::SetOf(common)),
            order_key(ValueView::SetOf(common.push(b) + t)),
        ) == Order::Less,
{
    let x = common.push(a) + s;
    let y = common.push(b) + t;
    let p = order_keys(common);
    assert(order_keys(x) =~= p + order_keys(seq![a] + s));
    assert(order_keys(y) =~= p + order_keys(seq![b] + t));
    assert(p =~= p + Seq::<OrderKey>::empty());
    lemma_keys_common(p, order_keys(seq![a] + s), order_keys(seq![b] + t));
    lemma_keys_common(p, Seq::empty(), order_keys(seq![b] + t));
    assert(order_keys(seq![a] + s)[0] == order_key(a));
    assert(order_keys(seq![b] + t)[0] == order_key(b));
    lemma_order_key(ValueView::Vector(x));
    lemma_order_key(ValueView::Vector(y));
    lemma_order_key(ValueView::Vector(common));
    lemma_order_key(ValueView::SetOf(x));
    lemma_order_key(ValueView::SetOf(y));
    lemma_order_key(ValueView::SetOf(common));
    lemma_lex_equal(seq![9int] + Seq::<int>::empty(), seq![9int] + Seq::<int>::empty());
    lemma_lex_equal(seq![10int] + Seq::<int>::empty(), seq![10int] + Seq::<int>::empty());
}

/// Tables sort by their entries: the first that differ decide, by their keys and then by their
/// values, and what ends first is in front.
pub proof fn tables_in_order(
    common: Seq<(ValueView, ValueView)>,
    a: (ValueView, ValueView),
    b: (ValueView, ValueView),
    s: Seq<(ValueView, ValueView)>,
    t: Seq<(ValueView, ValueView)>,
)
    requires
        key_order(order_key(a.0), order_key(b.0)) == Order::Less || (same_value(a.0, b.0)
            && key_order(order_key(a.1), order_key(b.1)) == Order::Less),
    ensures
        key_order(
            order_key(ValueView::Table(common.push(a) + s)),
            order_key(ValueView::Table(common.push(b) + t)),
        ) == Order::Less,
        key_order(
            order_key(ValueView::Table(common)),
            order_key(ValueView::Table(common.push(b) + t)),
        ) == Order::Less,
{
    let x = common.push(a) + s;
    let y = common.push(b) + t;
    let p = entry_keys(common);
    assert(entry_keys(x) =~= p + entry_keys(seq![a] + s));
    assert(entry_keys(y) =~= p + entry_keys(seq![b] + t));
    assert(p =~= p + Seq::<OrderKey>::empty());
    lemma_keys_common(p, entry_keys(seq![a] + s), entry_keys(seq![b] + t));
    lemma_keys_common(p, Seq::empty(), entry_keys(seq![b] + t));
    lemma_pair_order(order_key(a.0), order_key(a.1), order_key(b.0), order_key(b.1));
    lemma_key_equal(order_key(a.0), order_key(b.0));
    assert(entry_keys(seq![a] + s)[0] == pair_key(order_key(a.0), order_key(a.1)));
    assert(entry_keys(seq![b] + t)[0] == pair_key(order_key(b.0), order_key(b.1)));
    lemma_order_key(ValueView::Table(x));
    lemma_order_key(ValueView::Table(y));
    lemma_order_key(ValueView::Table(common));
    lemma_lex_equal(seq![11int] + Seq::<int>::empty(), seq![11int] + Seq::<int>::empty());
}

/// Values count as equal exactly if they are of one kind and hold the same: sequences the same
/// values in the same order, real numbers numbers that sort alike, and points in time the same
/// point, wherever it was given.
pub proof fn equal_by_contents(a: ValueView, b: ValueView)
    ensures
        same_value(a, b) <==> match (a, b) {
            (ValueView::Real(x), ValueView::Real(y)) => x.rank() == y.rank(),
            (ValueView::Timestamp(x), ValueView::Timestamp(y)) => x.0 == y.0,
            (ValueView::Vector(s), ValueView::Vector(t)) => s.len() == t.len() && forall|i: int|
                0 <= i < s.len() ==> same_value(#[trigger] s[i], t[i]),
            (ValueView::SetOf(s), ValueView::SetOf(t)) => s.len() == t.len() && forall|i: int|
                0 <= i < s.len() ==> same_value(#[trigger] s[i], t[i]),
            (ValueView::Table(s), ValueView::Table(t)) => s.len() == t.len() && forall|i: int|
                0 <= i < s.len() ==> same_value((#[trigger] s[i]).0, t[i].0) && same_value(
                    s[i].1,
                    t[i].1,
                ),
            (ValueView::Record(s), ValueView::Record(t)) => s.len() == t.len() && forall|i: int|
                0 <= i < s.len() ==> (#[trigger] s[i]).0 == t[i].0 && same_value(s[i].1, t[i].1),
            _ => a == b,
        },
{
    lemma_order_key(a);
    lemma_order_key(b);
    let ka = order_key(a);
    let kb = order_key(b);
    assert(ka.head[0] == kind_rank(a));
    assert(kb.head[0] == kind_rank(b));
    assert(ka.head.drop_first() =~= scalar_key(a));
    assert(kb.head.drop_first() =~= scalar_key(b));
    assert(same_value(a, b) <==> ka.head == kb.head && ka.children == kb.children);
    match (a, b) {
        (ValueView::Boolean(x), ValueView::Boolean(y)) => {
            assert(scalar_key(a)[0] == scalar_key(b)[0] ==> x == y);
        },
        (ValueView::Count(x), ValueView::Count(y)) => {
            assert(scalar_key(a)[0] == scalar_key(b)[0] ==> x == y);
        },
        (ValueView::Integer(x), ValueView::Integer(y)) => {
            assert(scalar_key(a)[0] == scalar_key(b)[0] ==> x == y);
        },
        (ValueView::Real(x), ValueView::Real(y)) => {
            assert(scalar_key(a)[0] == scalar_key(b)[0] ==> x.rank() == y.rank());
        },
        (ValueView::Timespan(x), ValueView::Timespan(y)) => {
            assert(scalar_key(a)[0] == scalar_key(b)[0] ==> x == y);
        },
        (ValueView::Timestamp(x), ValueView::Timestamp(y)) => {
            assert(scalar_key(a)[0] == scalar_key(b)[0] ==> x.0 == y.0);
        },
        (ValueView::String(x), ValueView::String(y)) => {
            lemma_code_points_distinct(x, y);
        },
        (ValueView::Enum(x), ValueView::Enum(y)) => {
            lemma_code_points_distinct(x, y);
        },
        (ValueView::Address(x), ValueView::Address(y)) => {
            lemma_addr_key_distinct(x, y);
        },
        (ValueView::Subnet(x, m), ValueView::Subnet(y, n)) => {
            let p = scalar_key(a);
            let q = scalar_key(b);
            assert(p[0] == addr_key(x)[0] && p[1] == addr_key(x)[1] && p[2] == m);
            assert(q[0] == addr_key(y)[0] && q[1] == addr_key(y)[1] && q[2] == n);
        },
        (ValueView::Port(x, m), ValueView::Port(y, n)) => {
            let p = scalar_key(a);
            let q = scalar_key(b);
            assert(p[0] == x && p[1] == m.rank());
            assert(q[0] == y && q[1] == n.rank());
        },
        (ValueView::Vector(s), ValueView::Vector(t)) => {
            lemma_keys_by_place(s, t);
        },
        (ValueView::SetOf(s), ValueView::SetOf(t)) => {
            lemma_keys_by_place(s, t);
        },
        (ValueView::Table(s), ValueView::Table(t)) => {
            lemma_entries_by_place(s, t);
        },
        (ValueView::Record(s), ValueView::Record(t)) => {
            lemma_fields_by_place(s, t);
        },
        _ => {},
    }
}

proof fn lemma_addr_key_distinct(x: IpAddr, y: IpAddr)
    ensures
        addr_key(x) == addr_key(y) <==> x == y,
{
    assert(addr_key(x)[0] == addr_key(y)[0] && addr_key(x)[1] == addr_key(y)[1] ==> x == y);
}

proof fn lemma_keys_by_place(s: Seq<ValueView>, t: Seq<ValueView>)
    ensures
        order_keys(s) == order_keys(t) <==> s.len() == t.len() && forall|i: int|
            0 <= i < s.len() ==> same_value(#[trigger] s[i], t[i]),
{
    let p = order_keys(s);
    let q = order_keys(t);
    if p == q {
        assert(p.len() == q.len());
        assert forall|i: int| 0 <= i < s.len() implies same_value(#[trigger] s[i], t[i]) by {
            assert(p[i] == q[i]);
        }
    }
    if s.len() == t.len() && forall|i: int|
        0 <= i < s.len() ==> same_value(#[trigger] s[i], t[i]) {
        assert forall|i: int| 0 <= i < p.len() implies p[i] == q[i] by {
            assert(same_value(s[i], t[i]));
        }
        assert(p =~= q);
    }
}

proof fn lemma_entries_by_place(
    s: Seq<(ValueView, ValueView)>,
    t: Seq<(ValueView, ValueView)>,
)
    ensures
        entry_keys(s) == entry_keys(t) <==> s.len() == t.len() && forall|i: int|
            0 <= i < s.len() ==> same_value((#[trigger] s[i]).0, t[i].0) && same_value(
                s[i].1,
                t[i].1,
            ),
{
    let p = entry_keys(s);
    let q = entry_keys(t);
    if p == q {
        assert(p.len() == q.len());
        assert forall|i: int| 0 <= i < s.len() implies same_value((#[trigger] s[i]).0, t[i].0)
            && same_value(s[i].1, t[i].1) by {
            assert(p[i] == q[i]);
            assert(p[i].children[0] == q[i].children[0]);
            assert(p[i].children[1] == q[i].children[1]);
        }
    }
    if s.len() == t.len() && forall|i: int|
        0 <= i < s.len() ==> same_value((#[trigger] s[i]).0, t[i].0) && same_value(
            s[i].1,
            t[i].1,
        ) {
        assert forall|i: int| 0 <= i < p.len() implies p[i] == q[i] by {
            assert(same_value(s[i].0, t[i].0));
        }
        assert(p =~= q);
    }
}

proof fn lemma_fields_by_place(
    s: Seq<(Seq<char>, ValueView)>,
    t: Seq<(Seq<char>, ValueView)>,
)
    ensures
        field_keys(s) == field_keys(t) <==> s.len() == t.len() && forall|i: int|
            0 <= i < s.len() ==> (#[trigger] s[i]).0 == t[i].0 && same_value(s[i].1, t[i].1),
{
    let p = field_keys(s);
    let q = field_keys(t);
    if p == q {
        assert(p.len() == q.len());
        assert forall|i: int| 0 <= i < s.len() implies (#[trigger] s[i]).0 == t[i].0 && same_value(
            s[i].1,
            t[i].1,
        ) by {
            assert(p[i] == q[i]);
            assert(p[i].children[0] == q[i].children[0]);
            lemma_code_points_distinct(s[i].0, t[i].0);
        }
    }
    if s.len() == t.len() && forall|i: int|
        0 <= i < s.len() ==> (#[trigger] s[i]).0 == t[i].0 && same_value(s[i].1, t[i].1) {
        assert forall|i: int| 0 <= i < p.len() implies p[i] == q[i] by {
            assert(s[i].0 == t[i].0);
        }
        assert(p =~= q);
    }
}

/// The fields of a record stand in the order of their names: the first characters that differ
/// decide, and what ends first is in front. What the fields hold does not matter.
pub proof fn names_in_order(
    common: Seq<char>,
    c: char,
    d: char,
    s: Seq<char>,
    t: Seq<char>,
    v: ValueView,
    w: ValueView,
)
    requires
        c < d,
    ensures
        key_order(
            RecordField::key_of((common.push(c) + s, v)),
            RecordField::key_of((common.push(d) + t, w)),
        ) == Order::Less,
        key_order(
            RecordField::key_of((common, v)),
            RecordField::key_of((common.push(d) + t, w)),
        ) == Order::Less,
        RecordField::key_of((common, v)) == RecordField::key_of((common, w)),
{
    let a = common.push(c) + s;
    let b = common.push(d) + t;
    let p = code_points(common);
    assert(code_points(a) =~= p + code_points(seq![c] + s));
    assert(code_points(b) =~= p + code_points(seq![d] + t));
    assert(p =~= p + Seq::<int>::empty());
    lemma_lex_common(p, code_points(seq![c] + s), code_points(seq![d] + t));
    lemma_lex_common(p, Seq::empty(), code_points(seq![d] + t));
    assert(code_points(seq![c] + s)[0] == c as int);
    assert(code_points(seq![d] + t)[0] == d as int);
}

/// Fields sort by their names, then by their values.
proof fn lemma_field_order(a: Seq<char>, b: OrderKey, c: Seq<char>, d: OrderKey)
    ensures
        key_order(field_key(a, b), field_key(c, d)) == if a != c {
            lex_order(code_points(a), code_points(c))
        } else {
            key_order(b, d)
        },
        lex_order(code_points(a), code_points(c)) == Order::Equal <==> a == c,
{
    lemma_code_points_distinct(a, c);
    lemma_lex_equal(code_points(a), code_points(c));
    assert(seq![b].drop_first() =~= Seq::<OrderKey>::empty());
    assert(seq![d].drop_first() =~= Seq::<OrderKey>::empty());
    assert(keys_order(Seq::<OrderKey>::empty(), Seq::<OrderKey>::empty()) == Order::Equal);
    assert(keys_order(seq![b], seq![d]) == key_order(b, d));
}

fn compare_subnets(a: IpAddr, m: u8, b: IpAddr, n: u8) -> (o: Order)
    ensures
        o == lex_order(addr_key(a) + seq![m as int], addr_key(b) + seq![n as int]),
{
    proof {
        let x = addr_key(a);
        let y = addr_key(b);
        lemma_lex_two(x[0], x[1], y[0], y[1]);
        lemma_lex_three(x[0], x[1], m as int, y[0], y[1], n as int);
        assert(x =~= seq![x[0], x[1]]);
        assert(y =~= seq![y[0], y[1]]);
    }
    match compare_addrs(a, b) {
        Order::Equal => compare_ints(m as i128, n as i128),
        o => o,
    }
}

fn compare_values(a: &Value, b: &Value) -> (o: Order)
    ensures
        o == key_order(order_key(a@), order_key(b@)),
    decreases *a,
{
    broadcast use lemma_view;

    proof {
        lemma_order_key(a@);
        lemma_order_key(b@);
        lemma_lex_behind(kind_rank(a@), scalar_key(a@), scalar_key(b@));
        if kind_rank(a@) == kind_rank(b@) {
            assert(order_key(b@).head == seq![kind_rank(a@)] + scalar_key(b@));
        }
        assert(keys_order(Seq::<OrderKey>::empty(), Seq::<OrderKey>::empty()) == Order::Equal);
        assert(lex_order(Seq::<int>::empty(), Seq::<int>::empty()) == Order::Equal);
    }
    match (a, b) {
        (Value::Nil, Value::Nil) => Order::Equal,
        (Value::Boolean(x), Value::Boolean(y)) => {
            let p: u8 = if *x {
                1
            } else {
                0
            };
            let q: u8 = if *y {
                1
            } else {
                0
            };
            proof {
                lemma_lex_one(p as int, q as int);
            }
            compare_ints(p as i128, q as i128)
        },
        (Value::Count(x), Value::Count(y)) => {
            proof {
                lemma_lex_one(*x as int, *y as int);
            }
            compare_ints(*x as i128, *y as i128)
        },
        (Value::Integer(x), Value::Integer(y)) => {
            proof {
                lemma_lex_one(*x as int, *y as int);
            }
            compare_ints(*x as i128, *y as i128)
        },
        (Value::Real(x), Value::Real(y)) => {
            proof {
                lemma_lex_one(x.rank(), y.rank());
            }
            compare_ints(x.rank_of(), y.rank_of())
        },
        (Value::Timespan(x), Value::Timespan(y)) => {
            proof {
                lemma_lex_one(x@, y@);
            }
            compare_ints(x.nanoseconds(), y.nanoseconds())
        },
        (Value::Timestamp(x), Value::Timestamp(y)) => {
            proof {
                lemma_lex_one(x@.0, y@.0);
            }
            compare_ints(x.nanoseconds(), y.nanoseconds())
        },
        (Value::String(x), Value::String(y)) => compare_text(x.as_str(), y.as_str()),
        (Value::Enum(x), Value::Enum(y)) => compare_text(x.as_str(), y.as_str()),
        (Value::Address(x), Value::Address(y)) => compare_addrs(*x, *y),
        (Value::Subnet(x, m), Value::Subnet(y, n)) => compare_subnets(*x, *m, *y, *n),
        (Value::Port(x, p), Value::Port(y, q)) => {
            proof {
                lemma_lex_two(*x as int, p.rank(), *y as int, q.rank());
            }
            match compare_ints(*x as i128, *y as i128) {
                Order::Equal => compare_ints(p.rank_of() as i128, q.rank_of() as i128),
                o => o,
            }
        },
        (Value::Vector(x), Value::Vector(y)) => {
            assert(decreases_to!(*a => a->Vector_0));
            compare_all(x, y)
        },
        (Value::SetOf(x), Value::SetOf(y)) => {
            assert(decreases_to!(*a => a->SetOf_0));
            assert(decreases_to!(*x => x.items));
            compare_all(&x.items, &y.items)
        },
        (Value::Table(x), Value::Table(y)) => {
            assert(decreases_to!(*a => a->Table_0));
            assert(decreases_to!(*x => x.entries));
            compare_entries(&x.entries, &y.entries)
        },
        (Value::Record(x), Value::Record(y)) => {
            assert(decreases_to!(*a => a->Record_0));
            assert(decreases_to!(*x => x.fields));
            compare_fields(&x.fields, &y.fields)
        },
        _ => {
            let p: u8 = kind_of(a);
            let q: u8 = kind_of(b);
            compare_ints(p as i128, q as i128)
        },
    }
}

fn kind_of(v: &Value) -> (r: u8)
    ensures
        r == kind_rank(v@),
{
    broadcast use lemma_view;

    match v {
        Value::Boolean(_) => 0,
        Value::Count(_) => 1,
        Value::Integer(_) => 2,
        Value::Real(_) => 3,
        Value::Timespan(_) => 4,
        Value::Timestamp(_) => 5,
        Value::Address(_) => 6,
        Value::Subnet(_, _) => 7,
        Value::Port(_, _) => 8,
        Value::Vector(_) => 9,
        Value::SetOf(_) => 10,
        Value::Table(_) => 11,
        Value::Record(_) => 12,
        Value::String(_) => 13,
        Value::Enum(_) => 14,
        Value::Nil => 15,
    }
}

fn compare_all(xs: &Vec<Value>, ys: &Vec<Value>) -> (o: Order)
    ensures
        o == keys_order(order_keys(views(xs@)), order_keys(views(ys@))),
    decreases *xs,
{
    let ghost a = order_keys(views(xs@));
    let ghost b = order_keys(views(ys@));
    let mut i: usize = 0;
    assert(a.skip(0) =~= a);
    assert(b.skip(0) =~= b);
    while i < xs.len() && i < ys.len()
        invariant
            i <= xs.len(),
            i <= ys.len(),
            a == order_keys(views(xs@)),
            b == order_keys(views(ys@)),
            keys_order(a, b) == keys_order(a.skip(i as int), b.skip(i as int)),
        decreases xs.len() - i,
    {
        assert(decreases_to!(*xs => xs@));
        assert(decreases_to!(xs@ => xs@[i as int]));
        assert(a.skip(i as int)[0] == order_key(xs@[i as int]@));
        assert(b.skip(i as int)[0] == order_key(ys@[i as int]@));
        assert(a.skip(i as int).drop_first() =~= a.skip(i + 1));
        assert(b.skip(i as int).drop_first() =~= b.skip(i + 1));
        match compare_values(&xs[i], &ys[i]) {
            Order::Equal => {},
            o => {
                return o;
            },
        }
        i = i + 1;
    }
    compare_ints(xs.len() as i128, ys.len() as i128)
}

fn compare_entries(xs: &Vec<TableEntry>, ys: &Vec<TableEntry>) -> (o: Order)
    ensures
        o == keys_order(entry_keys(views(xs@)), entry_keys(views(ys@))),
    decreases *xs,
{
    let ghost a = entry_keys(views(xs@));
    let ghost b = entry_keys(views(ys@));
    let mut i: usize = 0;
    assert(a.skip(0) =~= a);
    assert(b.skip(0) =~= b);
    while i < xs.len() && i < ys.len()
        invariant
            i <= xs.len(),
            i <= ys.len(),
            a == entry_keys(views(xs@)),
            b == entry_keys(views(ys@)),
            keys_order(a, b) == keys_order(a.skip(i as int), b.skip(i as int)),
        decreases xs.len() - i,
    {
        let x = &xs[i];
        let y = &ys[i];
        assert(decreases_to!(*xs => xs@));
        assert(decreases_to!(xs@ => xs@[i as int]));
        assert(decreases_to!(*x => x.key));
        assert(decreases_to!(*x => x.value));
        assert(a.skip(i as int)[0] == pair_key(order_key(x.key@), order_key(x.value@)));
        assert(b.skip(i as int)[0] == pair_key(order_key(y.key@), order_key(y.value@)));
        assert(a.skip(i as int).drop_first() =~= a.skip(i + 1));
        assert(b.skip(i as int).drop_first() =~= b.skip(i + 1));
        proof {
            lemma_pair_order(
                order_key(x.key@),
                order_key(x.value@),
                order_key(y.key@),
                order_key(y.value@),
            );
        }
        match compare_values(&x.key, &y.key) {
            Order::Equal => {},
            o => {
                return o;
            },
        }
        match compare_values(&x.value, &y.value) {
            Order::Equal => {},
            o => {
                return o;
            },
        }
        i = i + 1;
    }
    compare_ints(xs.len() as i128, ys.len() as i128)
}

fn compare_fields(xs: &Vec<RecordField>, ys: &Vec<RecordField>) -> (o: Order)
    ensures
        o == keys_order(field_keys(views(xs@)), field_keys(views(ys@))),
    decreases *xs,
{
    let ghost a = field_keys(views(xs@));
    let ghost b = field_keys(views(ys@));
    let mut i: usize = 0;
    assert(a.skip(0) =~= a);
    assert(b.skip(0) =~= b);
    while i < xs.len() && i < ys.len()
        invariant
            i <= xs.len(),
            i <= ys.len(),
            a == field_keys(views(xs@)),
            b == field_keys(views(ys@)),
            keys_order(a, b) == keys_order(a.skip(i as int), b.skip(i as int)),
        decreases xs.len() - i,
    {
        let x = &xs[i];
        let y = &ys[i];
        assert(decreases_to!(*xs => xs@));
        assert(decreases_to!(xs@ => xs@[i as int]));
        assert(decreases_to!(*x => x.value));
        assert(a.skip(i as int)[0] == field_key(x.name@, order_key(x.value@)));
        assert(b.skip(i as int)[0] == field_key(y.name@, order_key(y.value@)));
        assert(a.skip(i as int).drop_first() =~= a.skip(i + 1));
        assert(b.skip(i as int).drop_first() =~= b.skip(i + 1));
        proof {
            lemma_field_order(x.name@, order_key(x.value@), y.name@, order_key(y.value@));
        }
        match compare_text(x.name.as_str(), y.name.as_str()) {
            Order::Equal => {},
            o => {
                return o;
            },
        }
        match compare_values(&x.value, &y.value) {
            Order::Equal => {},
            o => {
                return o;
            },
        }
        i = i + 1;
    }
    compare_ints(xs.len() as i128, ys.len() as i128)
}

impl Ordered for Value {
    open spec fn key_of(v: ValueView) -> OrderKey {
        order_key(v)
    }

    fn compare(&self, other: &Value) -> (o: Order) {
        compare_values(self, other)
    }
}

/// In a set values stand in their order, and in a table entries in the order of their keys, whatever
/// they hold under these.
pub proof fn entries_by_key(k: ValueView, l: ValueView, v: ValueView, w: ValueView)
    ensures
        Value::key_of(k) == Value::key_of(l) <==> same_value(k, l),
        TableEntry::key_of((k, v)) == TableEntry::key_of((l, w)) <==> same_value(k, l),
        key_order(Value::key_of(k), Value::key_of(l)) == key_order(order_key(k), order_key(l)),
        key_order(TableEntry::key_of((k, v)), TableEntry::key_of((l, w))) == key_order(
            order_key(k),
            order_key(l),
        ),
{
}

impl Ordered for TableEntry {
    open spec fn key_of(v: (ValueView, ValueView)) -> OrderKey {
        order_key(v.0)
    }

    fn compare(&self, other: &TableEntry) -> (o: Order) {
        compare_values(&self.key, &other.key)
    }
}

impl Ordered for RecordField {
    open spec fn key_of(v: (Seq<char>, ValueView)) -> OrderKey {
        OrderKey { head: code_points(v.0), children: Seq::empty() }
    }

    fn compare(&self, other: &RecordField) -> (o: Order) {
        proof {
            assert(keys_order(Seq::<OrderKey>::empty(), Seq::<OrderKey>::empty()) == Order::Equal);
        }
        compare_text(self.name.as_str(), other.name.as_str())
    }
}

impl PartialEq for Value {
    fn eq(&self, other: &Value) -> (r: bool) {
        proof {
            lemma_key_equal(order_key(self@), order_key(other@));
        }
        match compare_values(self, other) {
            Order::Equal => true,
            _ => false,
        }
    }
}

impl vstd::std_specs::cmp::PartialEqSpecImpl for Value {
    open spec fn obeys_eq_spec() -> bool {
        true
    }

    open spec fn eq_spec(&self, other: &Value) -> bool {
        same_value(self@, other@)
    }
}

impl Eq for Value {

}

fn copy_value(v: &Value) -> (r: Value)
    ensures
        r@ == v@,
    decreases *v,
{
    broadcast use lemma_view;

    match v {
        Value::Nil => Value::Nil,
        Value::Boolean(x) => Value::Boolean(*x),
        Value::Count(x) => Value::Count(*x),
        Value::Integer(x) => Value::Integer(*x),
        Value::Real(x) => Value::Real(*x),
        Value::Timespan(x) => Value::Timespan(*x),
        Value::Timestamp(x) => Value::Timestamp(*x),
        Value::String(x) => Value::String(x.clone()),
        Value::Enum(x) => Value::Enum(x.clone()),
        Value::Address(x) => Value::Address(*x),
        Value::Subnet(x, n) => Value::Subnet(*x, *n),
        Value::Port(x, p) => Value::Port(*x, *p),
        Value::Vector(xs) => {
            assert(decreases_to!(*v => v->Vector_0));
            Value::Vector(copy_values(xs))
        },
        Value::SetOf(s) => {
            assert(decreases_to!(*v => v->SetOf_0));
            assert(decreases_to!(*s => s.items));
            proof {
                use_type_invariant(s);
            }
            Value::SetOf(ValueSet { items: copy_values(&s.items) })
        },
        Value::Table(t) => {
            assert(decreases_to!(*v => v->Table_0));
            assert(decreases_to!(*t => t.entries));
            proof {
                use_type_invariant(t);
            }
            Value::Table(ValueTable { entries: copy_entries(&t.entries) })
        },
        Value::Record(t) => {
            assert(decreases_to!(*v => v->Record_0));
            assert(decreases_to!(*t => t.fields));
            proof {
                use_type_invariant(t);
            }
            Value::Record(ValueRecord { fields: copy_fields(&t.fields) })
        },
    }
}

/// Copies each of the values.
fn copy_values(xs: &Vec<Value>) -> (r: Vec<Value>)
    ensures
        views(r@) == views(xs@),
    decreases *xs,
{
    let mut out: Vec<Value> = Vec::new();
    let mut i: usize = 0;
    while i < xs.len()
        invariant
            i <= xs.len(),
            out.len() == i,
            forall|j: int| 0 <= j < i ==> out@[j]@ == #[trigger] xs@[j]@,
        decreases xs.len() - i,
    {
        assert(decreases_to!(*xs => xs@));
        assert(decreases_to!(xs@ => xs@[i as int]));
        out.push(copy_value(&xs[i]));
        i = i + 1;
    }
    assert(views(out@) =~= views(xs@));
    out
}

fn copy_entries(xs: &Vec<TableEntry>) -> (r: Vec<TableEntry>)
    ensures
        views(r@) == views(xs@),
    decreases *xs,
{
    let mut out: Vec<TableEntry> = Vec::new();
    let mut i: usize = 0;
    while i < xs.len()
        invariant
            i <= xs.len(),
            out.len() == i,
            forall|j: int| 0 <= j < i ==> out@[j]@ == #[trigger] xs@[j]@,
        decreases xs.len() - i,
    {
        let x = &xs[i];
        assert(decreases_to!(*xs => xs@));
        assert(decreases_to!(xs@ => xs@[i as int]));
        assert(decreases_to!(*x => x.key));
        assert(decreases_to!(*x => x.value));
        out.push(TableEntry { key: copy_value(&x.key), value: copy_value(&x.value) });
        i = i + 1;
    }
    assert(views(out@) =~= views(xs@));
    out
}

fn copy_fields(xs: &Vec<RecordField>) -> (r: Vec<RecordField>)
    ensures
        views(r@) == views(xs@),
    decreases *xs,
{
    let mut out: Vec<RecordField> = Vec::new();
    let mut i: usize = 0;
    while i < xs.len()
        invariant
            i <= xs.len(),
            out.len() == i,
            forall|j: int| 0 <= j < i ==> out@[j]@ == #[trigger] xs@[j]@,
        decreases xs.len() - i,
    {
        let x = &xs[i];
        assert(decreases_to!(*xs => xs@));
        assert(decreases_to!(xs@ => xs@[i as int]));
        assert(decreases_to!(*x => x.value));
        out.push(RecordField { name: x.name.clone(), value: copy_value(&x.value) });
        i = i + 1;
    }
    assert(views(out@) =~= views(xs@));
    out
}

impl Clone for Value {
    fn clone(&self) -> (r: Value)
        ensures
            r@ == self@,
    {
        copy_value(self)
    }
}

impl ValueSet {
    #[verifier::type_invariant]
    spec fn valid(self) -> bool {
        sorted::<Value>(views(self.items@))
    }

    /// The set of the values; of values that count as equal the last is kept.
    pub fn from_values(items: Vec<Value>) -> (r: ValueSet)
        ensures
            r@ == collected::<Value>(views(items@), true),
            sorted::<Value>(r@),
    {
        ValueSet { items: collect_sorted(items, true) }
    }

    /// The values in ascending order.
    pub fn items(&self) -> (r: &Vec<Value>)
        ensures
            views(r@) == self@,
            sorted::<Value>(self@),
            decreases_to!(*self => *r),
    {
        proof {
            use_type_invariant(self);
        }
        &self.items
    }

    pub fn len(&self) -> (r: usize)
        ensures
            r == self@.len(),
    {
        self.items.len()
    }
}

impl ValueTable {
    #[verifier::type_invariant]
    spec fn valid(self) -> bool {
        sorted::<TableEntry>(views(self.entries@))
    }

    /// The table of the entries; of entries with keys that count as equal the last is kept.
    pub fn from_entries(entries: Vec<TableEntry>) -> (r: ValueTable)
        ensures
            r@ == collected::<TableEntry>(views(entries@), true),
            sorted::<TableEntry>(r@),
    {
        ValueTable { entries: collect_sorted(entries, true) }
    }

    /// The entries in ascending order of their keys.
    pub fn entries(&self) -> (r: &Vec<TableEntry>)
        ensures
            views(r@) == self@,
            sorted::<TableEntry>(self@),
            decreases_to!(*self => *r),
    {
        proof {
            use_type_invariant(self);
        }
        &self.entries
    }

    pub fn len(&self) -> (r: usize)
        ensures
            r == self@.len(),
    {
        self.entries.len()
    }
}

impl ValueRecord {
    #[verifier::type_invariant]
    spec fn valid(self) -> bool {
        sorted::<RecordField>(views(self.fields@))
    }

    /// The record of the fields; of fields that share a name the last is kept.
    pub fn from_fields(fields: Vec<RecordField>) -> (r: ValueRecord)
        ensures
            r@ == collected::<RecordField>(views(fields@), true),
            sorted::<RecordField>(r@),
    {
        ValueRecord { fields: collect_sorted(fields, true) }
    }

    /// The fields in ascending order of their names.
    pub fn fields(&self) -> (r: &Vec<RecordField>)
        ensures
            views(r@) == self@,
            sorted::<RecordField>(self@),
            decreases_to!(*self => *r),
    {
        proof {
            use_type_invariant(self);
        }
        &self.fields
    }

    pub fn len(&self) -> (r: usize)
        ensures
            r == self@.len(),
    {
        self.fields.len()
    }
}

} // verus!
