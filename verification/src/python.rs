//! What the Python interface does, on plain values.
use vstd::prelude::*;
use vstd::std_specs::convert::{FromSpec, FromSpecImpl, TryFromSpecImpl};
use vstd::utf8::encode_utf8;

use serde_json::Value as JsonValue;

use crate::frame::FrameView;
use crate::json::{
    depth_within, json_parse, json_parsed, json_print, json_printed, json_skip, json_skipped,
    json_tree, max_depth, JsonView,
};
use crate::read::{check_value_text, message_read, printed_value_repeats_nothing, value_repeat};
use crate::message::{event_in, Data, EventView, Message, MessageView};
use crate::net::{InvalidPrefix, IpAddr, IpNetwork};
use crate::protocol::{
    delivery, enqueued_now, event_message, outcome, Binding, BindingView, ProtocolError,
    ProtocolErrorView,
};
use crate::python_laws::{python_reads_back, well_formed};
use crate::python_value::{
    lemma_view as lemma_py_view, Protocol, RecordField, TableEntry, Value, ValueRecord, ValueSet,
    ValueTable, ValueView,
};
use crate::scalar::{offset_view, Real, Timespan, Timestamp, UtcOffset};
use crate::sorted::{collected, views};
use crate::subscriptions::{texts, topics_encoded, Subscriptions};
use crate::text::{integer_text, joined, same_text};
use crate::value::{
    lemma_view, Value as RustValue, ValueSet as RustSet, ValueTable as RustTable,
    ValueView as RustView,
};
use crate::wire::{
    all_finite, decoded, encoded, localized, DecodeError, DecodeErrorView, EncodeError,
    EncodeErrorView,
};
use crate::prune::{prune, pruned};

verus! {

impl Protocol {
    /// The protocol that it stands for.
    pub open spec fn inner(self) -> crate::port::Protocol {
        match self {
            Protocol::UNKNOWN => crate::port::Protocol::UNKNOWN,
            Protocol::TCP => crate::port::Protocol::TCP,
            Protocol::UDP => crate::port::Protocol::UDP,
            Protocol::ICMP => crate::port::Protocol::ICMP,
        }
    }

    /// What stands for a protocol.
    pub open spec fn of(p: crate::port::Protocol) -> Protocol {
        match p {
            crate::port::Protocol::UNKNOWN => Protocol::UNKNOWN,
            crate::port::Protocol::TCP => Protocol::TCP,
            crate::port::Protocol::UDP => Protocol::UDP,
            crate::port::Protocol::ICMP => Protocol::ICMP,
        }
    }
}

impl From<Protocol> for crate::port::Protocol {
    fn from(value: Protocol) -> (r: crate::port::Protocol) {
        match value {
            Protocol::UNKNOWN => crate::port::Protocol::UNKNOWN,
            Protocol::TCP => crate::port::Protocol::TCP,
            Protocol::UDP => crate::port::Protocol::UDP,
            Protocol::ICMP => crate::port::Protocol::ICMP,
        }
    }
}

impl FromSpecImpl<Protocol> for crate::port::Protocol {
    open spec fn obeys_from_spec() -> bool {
        true
    }

    open spec fn from_spec(value: Protocol) -> crate::port::Protocol {
        value.inner()
    }
}

/// Every subnet in the value has a prefix no longer than its address.
pub open spec fn convertible(v: ValueView) -> bool
    decreases v,
{
    match v {
        ValueView::Subnet(addr, prefix) => prefix <= addr.width(),
        ValueView::Vector(s) => forall|i: int| 0 <= i < s.len() ==> convertible(#[trigger] s[i]),
        ValueView::SetOf(s) => forall|i: int| 0 <= i < s.len() ==> convertible(#[trigger] s[i]),
        ValueView::Table(t) => forall|i: int|
            0 <= i < t.len() ==> convertible((#[trigger] t[i]).0) && convertible(t[i].1),
        ValueView::Record(r) => forall|i: int|
            0 <= i < r.len() ==> convertible((#[trigger] r[i]).1),
        _ => true,
    }
}

/// The value of the WebSocket API that a value stands for. A record stands for the vector of its
/// values, in the order of their names.
pub open spec fn rust_view(v: ValueView) -> RustView
    decreases v,
{
    match v {
        ValueView::Boolean(x) => RustView::Boolean(x),
        ValueView::Count(x) => RustView::Count(x),
        ValueView::Integer(x) => RustView::Integer(x),
        ValueView::Real(x) => RustView::Real(x),
        ValueView::Timespan(x) => RustView::Timespan(x),
        ValueView::Timestamp(x) => RustView::Timestamp(x),
        ValueView::Address(x) => RustView::Address(x),
        ValueView::Subnet(x, n) => RustView::Subnet((x, n)),
        ValueView::Port(x, p) => RustView::Port(crate::port::Port::of(x, p.inner())),
        ValueView::Vector(s) => RustView::Vector(rust_views(s)),
        ValueView::SetOf(s) => RustView::SetOf(collected::<RustValue>(rust_views(s), true)),
        ValueView::Table(t) => RustView::Table(
            collected::<crate::value::TableEntry>(rust_entries(t), true),
        ),
        ValueView::Record(r) => RustView::Vector(rust_fields(r)),
        ValueView::String(x) => RustView::String(x),
        ValueView::Enum(x) => RustView::EnumValue(x),
        ValueView::Nil => RustView::Nil,
    }
}

/// What several values stand for.
pub open spec fn rust_views(s: Seq<ValueView>) -> Seq<RustView>
    decreases s,
{
    Seq::new(
        s.len(),
        |i: int|
            if 0 <= i < s.len() {
                rust_view(s[i])
            } else {
                RustView::Nil
            },
    )
}

/// What several entries stand for.
pub open spec fn rust_entries(t: Seq<(ValueView, ValueView)>) -> Seq<(RustView, RustView)>
    decreases t,
{
    Seq::new(
        t.len(),
        |i: int|
            if 0 <= i < t.len() {
                (rust_view(t[i].0), rust_view(t[i].1))
            } else {
                (RustView::Nil, RustView::Nil)
            },
    )
}

/// What the values of several fields stand for.
pub open spec fn rust_fields(r: Seq<(Seq<char>, ValueView)>) -> Seq<RustView>
    decreases r,
{
    Seq::new(
        r.len(),
        |i: int|
            if 0 <= i < r.len() {
                rust_view(r[i].1)
            } else {
                RustView::Nil
            },
    )
}

/// How Python code sees a value of the WebSocket API.
pub open spec fn py_view(v: RustView) -> ValueView
    decreases v,
{
    match v {
        RustView::Nil => ValueView::Nil,
        RustView::Boolean(x) => ValueView::Boolean(x),
        RustView::Count(x) => ValueView::Count(x),
        RustView::Integer(x) => ValueView::Integer(x),
        RustView::Real(x) => ValueView::Real(x),
        RustView::Timespan(x) => ValueView::Timespan(x),
        RustView::Timestamp(x) => ValueView::Timestamp(x),
        RustView::String(x) => ValueView::String(x),
        RustView::EnumValue(x) => ValueView::Enum(x),
        RustView::Address(x) => ValueView::Address(x),
        RustView::Subnet(x) => ValueView::Subnet(x.0, x.1),
        RustView::Port(x) => ValueView::Port(x.spec_number(), Protocol::of(x.spec_protocol())),
        RustView::Vector(s) => ValueView::Vector(py_views(s)),
        RustView::SetOf(s) => ValueView::SetOf(collected::<Value>(py_views(s), true)),
        RustView::Table(t) => ValueView::Table(collected::<TableEntry>(py_entries(t), true)),
    }
}

/// How Python code sees several values.
pub open spec fn py_views(s: Seq<RustView>) -> Seq<ValueView>
    decreases s,
{
    Seq::new(
        s.len(),
        |i: int|
            if 0 <= i < s.len() {
                py_view(s[i])
            } else {
                ValueView::Nil
            },
    )
}

/// How Python code sees several entries.
pub open spec fn py_entries(t: Seq<(RustView, RustView)>) -> Seq<(ValueView, ValueView)>
    decreases t,
{
    Seq::new(
        t.len(),
        |i: int|
            if 0 <= i < t.len() {
                (py_view(t[i].0), py_view(t[i].1))
            } else {
                (ValueView::Nil, ValueView::Nil)
            },
    )
}

/// A port of Python code is written with its number and the name of its protocol, and a port that is
/// written so is seen by Python code with that number and that protocol.
pub proof fn ports_in_writing(n: u16, p: crate::port::Port)
    ensures
        rust_view(ValueView::Port(n, Protocol::TCP)) matches RustView::Port(x) && x.text()
            == integer_text(n as int) + "/tcp"@,
        rust_view(ValueView::Port(n, Protocol::UDP)) matches RustView::Port(x) && x.text()
            == integer_text(n as int) + "/udp"@,
        rust_view(ValueView::Port(n, Protocol::ICMP)) matches RustView::Port(x) && x.text()
            == integer_text(n as int) + "/icmp"@,
        rust_view(ValueView::Port(n, Protocol::UNKNOWN)) matches RustView::Port(x) && x.text()
            == integer_text(n as int) + "/?"@,
        p.text() == integer_text(n as int) + "/tcp"@ ==> py_view(RustView::Port(p))
            == ValueView::Port(n, Protocol::TCP),
        p.text() == integer_text(n as int) + "/udp"@ ==> py_view(RustView::Port(p))
            == ValueView::Port(n, Protocol::UDP),
        p.text() == integer_text(n as int) + "/icmp"@ ==> py_view(RustView::Port(p))
            == ValueView::Port(n, Protocol::ICMP),
        p.text() == integer_text(n as int) + "/?"@ ==> py_view(RustView::Port(p))
            == ValueView::Port(n, Protocol::UNKNOWN),
{
    crate::port::Port::ports_in_writing(n);
    p.text_reads_back();
}

/// The protocols of Python code have the names that protocols are written with.
pub proof fn protocols_in_writing()
    ensures
        <crate::port::Protocol as FromSpec<Protocol>>::from_spec(Protocol::TCP).text() == "tcp"@,
        <crate::port::Protocol as FromSpec<Protocol>>::from_spec(Protocol::UDP).text() == "udp"@,
        <crate::port::Protocol as FromSpec<Protocol>>::from_spec(Protocol::ICMP).text() == "icmp"@,
        <crate::port::Protocol as FromSpec<Protocol>>::from_spec(Protocol::UNKNOWN).text() == "?"@,
{
}

/// Every other value without parts stands for the value of the same kind that holds the same, and
/// is seen as such.
pub proof fn scalars_are_kept(
    b: bool,
    n: u64,
    i: i64,
    x: Real,
    span: int,
    point: (int, int),
    addr: IpAddr,
    prefix: u8,
    s: Seq<char>,
)
    ensures
        rust_view(ValueView::Boolean(b)) == RustView::Boolean(b),
        rust_view(ValueView::Count(n)) == RustView::Count(n),
        rust_view(ValueView::Integer(i)) == RustView::Integer(i),
        rust_view(ValueView::Real(x)) == RustView::Real(x),
        rust_view(ValueView::Timespan(span)) == RustView::Timespan(span),
        rust_view(ValueView::Timestamp(point)) == RustView::Timestamp(point),
        rust_view(ValueView::Address(addr)) == RustView::Address(addr),
        rust_view(ValueView::Subnet(addr, prefix)) == RustView::Subnet((addr, prefix)),
        rust_view(ValueView::String(s)) == RustView::String(s),
        rust_view(ValueView::Enum(s)) == RustView::EnumValue(s),
        rust_view(ValueView::Nil) == RustView::Nil,
        py_view(RustView::Boolean(b)) == ValueView::Boolean(b),
        py_view(RustView::Count(n)) == ValueView::Count(n),
        py_view(RustView::Integer(i)) == ValueView::Integer(i),
        py_view(RustView::Real(x)) == ValueView::Real(x),
        py_view(RustView::Timespan(span)) == ValueView::Timespan(span),
        py_view(RustView::Timestamp(point)) == ValueView::Timestamp(point),
        py_view(RustView::Address(addr)) == ValueView::Address(addr),
        py_view(RustView::Subnet((addr, prefix))) == ValueView::Subnet(addr, prefix),
        py_view(RustView::String(s)) == ValueView::String(s),
        py_view(RustView::EnumValue(s)) == ValueView::Enum(s),
        py_view(RustView::Nil) == ValueView::Nil,
{
}

/// A vector stands for the vector of what its values stand for, in their order; a record for the
/// vector of what the values of its fields stand for, in the order of the fields.
pub proof fn vectors_are_kept(
    s: Seq<ValueView>,
    r: Seq<(Seq<char>, ValueView)>,
    t: Seq<RustView>,
    i: int,
)
    ensures
        rust_view(ValueView::Vector(s)) matches RustView::Vector(x) && x.len() == s.len() && (0 <= i
            < s.len() ==> x[i] == rust_view(s[i])),
        rust_view(ValueView::Record(r)) matches RustView::Vector(x) && x.len() == r.len() && (0 <= i
            < r.len() ==> x[i] == rust_view(r[i].1)),
        py_view(RustView::Vector(t)) matches ValueView::Vector(x) && x.len() == t.len() && (0 <= i
            < t.len() ==> x[i] == py_view(t[i])),
{
}

/// A set stands for the set of what its values stand for, and a table for the table of what its keys
/// and values stand for. Python code sees sets and tables in the same way.
pub proof fn sets_and_tables_are_kept(
    s: Seq<ValueView>,
    s_made: Seq<RustView>,
    t: Seq<(ValueView, ValueView)>,
    t_made: Seq<(RustView, RustView)>,
)
    ensures
        s.len() == s_made.len() && (forall|i: int|
            0 <= i < s.len() ==> #[trigger] s_made[i] == rust_view(s[i])) ==> rust_view(
            ValueView::SetOf(s),
        ) == RustView::SetOf(collected::<RustValue>(s_made, true)),
        t.len() == t_made.len() && (forall|i: int|
            0 <= i < t.len() ==> #[trigger] t_made[i] == (rust_view(t[i].0), rust_view(t[i].1)))
            ==> rust_view(ValueView::Table(t)) == RustView::Table(
            collected::<crate::value::TableEntry>(t_made, true),
        ),
        s.len() == s_made.len() && (forall|i: int|
            0 <= i < s.len() ==> #[trigger] s[i] == py_view(s_made[i])) ==> py_view(
            RustView::SetOf(s_made),
        ) == ValueView::SetOf(collected::<Value>(s, true)),
        t.len() == t_made.len() && (forall|i: int|
            0 <= i < t.len() ==> #[trigger] t[i] == (py_view(t_made[i].0), py_view(t_made[i].1)))
            ==> py_view(RustView::Table(t_made)) == ValueView::Table(
            collected::<TableEntry>(t, true),
        ),
{
    if s.len() == s_made.len() {
        if forall|i: int| 0 <= i < s.len() ==> #[trigger] s_made[i] == rust_view(s[i]) {
            assert(rust_views(s) =~= s_made);
        }
        if forall|i: int| 0 <= i < s.len() ==> #[trigger] s[i] == py_view(s_made[i]) {
            assert(py_views(s_made) =~= s);
        }
    }
    if t.len() == t_made.len() {
        if forall|i: int|
            0 <= i < t.len() ==> #[trigger] t_made[i] == (rust_view(t[i].0), rust_view(t[i].1)) {
            assert(rust_entries(t) =~= t_made);
        }
        if forall|i: int|
            0 <= i < t.len() ==> #[trigger] t[i] == (py_view(t_made[i].0), py_view(t_made[i].1)) {
            assert(py_entries(t_made) =~= t);
        }
    }
}

/// Only a subnet can be in the way of a conversion: one of an IPv4 address with more than 32 bits of
/// prefix, or of an IPv6 address with more than 128. A value with parts can be converted where all
/// of its parts can.
pub proof fn prefixes_are_checked(
    v: ValueView,
    a4: u32,
    a6: u128,
    prefix: u8,
    s: Seq<ValueView>,
    t: Seq<(ValueView, ValueView)>,
    r: Seq<(Seq<char>, ValueView)>,
)
    ensures
        convertible(ValueView::Subnet(IpAddr::V4(a4), prefix)) <==> prefix <= 32,
        convertible(ValueView::Subnet(IpAddr::V6(a6), prefix)) <==> prefix <= 128,
        convertible(ValueView::Vector(s)) <==> forall|i: int|
            0 <= i < s.len() ==> convertible(#[trigger] s[i]),
        convertible(ValueView::SetOf(s)) <==> forall|i: int|
            0 <= i < s.len() ==> convertible(#[trigger] s[i]),
        all_convertible(s) <==> forall|i: int| 0 <= i < s.len() ==> convertible(#[trigger] s[i]),
        convertible(ValueView::Table(t)) <==> forall|i: int|
            0 <= i < t.len() ==> convertible((#[trigger] t[i]).0) && convertible(t[i].1),
        convertible(ValueView::Record(r)) <==> forall|i: int|
            0 <= i < r.len() ==> convertible((#[trigger] r[i]).1),
        !(v is Subnet) && !(v is Vector) && !(v is SetOf) && !(v is Table) && !(v is Record)
            ==> convertible(v),
{
    let a = ValueView::Vector(s);
    assert(convertible(a) == forall|i: int|
        0 <= i < a->Vector_0.len() ==> convertible(#[trigger] a->Vector_0[i]));
    let b = ValueView::SetOf(s);
    assert(convertible(b) == forall|i: int|
        0 <= i < b->SetOf_0.len() ==> convertible(#[trigger] b->SetOf_0[i]));
    let c = ValueView::Table(t);
    assert(convertible(c) == forall|i: int|
        0 <= i < c->Table_0.len() ==> convertible((#[trigger] c->Table_0[i]).0) && convertible(
            c->Table_0[i].1,
        ));
    let d = ValueView::Record(r);
    assert(convertible(d) == forall|i: int|
        0 <= i < d->Record_0.len() ==> convertible((#[trigger] d->Record_0[i]).1));
}

fn to_rust(v: &Value) -> (r: Result<RustValue, InvalidPrefix>)
    ensures
        match r {
            Ok(x) => convertible(v@) && x@ == rust_view(v@),
            Err(_) => !convertible(v@),
        },
    decreases *v,
{
    broadcast use lemma_py_view, lemma_view;

    match v {
        Value::Boolean(x) => Ok(RustValue::Boolean(*x)),
        Value::Count(x) => Ok(RustValue::Count(*x)),
        Value::Integer(x) => Ok(RustValue::Integer(*x)),
        Value::Real(x) => Ok(RustValue::Real(*x)),
        Value::Timespan(x) => Ok(RustValue::Timespan(*x)),
        Value::Timestamp(x) => Ok(RustValue::Timestamp(*x)),
        Value::String(x) => Ok(RustValue::String(x.clone())),
        Value::Vector(xs) => {
            assert(decreases_to!(*v => v->Vector_0));
            match to_rust_all(xs) {
                Ok(xs) => Ok(RustValue::Vector(xs)),
                Err(e) => Err(e),
            }
        },
        Value::SetOf(s) => {
            assert(decreases_to!(*v => v->SetOf_0));
            match to_rust_all(s.items()) {
                Ok(xs) => Ok(RustValue::SetOf(RustSet::from_values(xs))),
                Err(e) => Err(e),
            }
        },
        Value::Table(t) => {
            assert(decreases_to!(*v => v->Table_0));
            match to_rust_entries(t.entries()) {
                Ok(xs) => Ok(RustValue::Table(RustTable::from_entries(xs))),
                Err(e) => Err(e),
            }
        },
        Value::Record(r) => {
            assert(decreases_to!(*v => v->Record_0));
            match to_rust_fields(r.fields()) {
                Ok(xs) => Ok(RustValue::Vector(xs)),
                Err(e) => Err(e),
            }
        },
        Value::Address(x) => Ok(RustValue::Address(*x)),
        Value::Port(n, p) => Ok(
            RustValue::Port(crate::port::Port::new(*n, crate::port::Protocol::from(*p))),
        ),
        Value::Subnet(addr, prefix) => match IpNetwork::new(*addr, *prefix) {
            Ok(n) => Ok(RustValue::Subnet(n)),
            Err(e) => Err(e),
        },
        Value::Enum(x) => Ok(RustValue::EnumValue(x.clone())),
        Value::Nil => Ok(RustValue::Nil),
    }
}

/// Every value can be converted.
pub open spec fn all_convertible(s: Seq<ValueView>) -> bool {
    forall|i: int| 0 <= i < s.len() ==> convertible(#[trigger] s[i])
}

fn to_rust_all(xs: &Vec<Value>) -> (r: Result<Vec<RustValue>, InvalidPrefix>)
    ensures
        match r {
            Ok(ys) => all_convertible(views(xs@)) && views(ys@) == rust_views(views(xs@)),
            Err(_) => !all_convertible(views(xs@)),
        },
    decreases *xs,
{
    let ghost all = views(xs@);
    let mut out: Vec<RustValue> = Vec::new();
    let mut i: usize = 0;
    while i < xs.len()
        invariant
            i <= xs.len(),
            all == views(xs@),
            out.len() == i,
            forall|j: int|
                0 <= j < i ==> convertible(#[trigger] all[j]) && out@[j]@ == rust_view(all[j]),
        decreases xs.len() - i,
    {
        assert(decreases_to!(*xs => xs@));
        assert(decreases_to!(xs@ => xs@[i as int]));
        assert(all[i as int] == xs@[i as int]@);
        match to_rust(&xs[i]) {
            Ok(v) => {
                out.push(v);
            },
            Err(e) => {
                return Err(e);
            },
        }
        i = i + 1;
    }
    assert(views(out@) =~= rust_views(all));
    Ok(out)
}

fn to_rust_entries(xs: &Vec<TableEntry>) -> (r: Result<
    Vec<crate::value::TableEntry>,
    InvalidPrefix,
>)
    ensures
        match r {
            Ok(ys) => (forall|i: int|
                0 <= i < xs.len() ==> convertible((#[trigger] views(xs@)[i]).0) && convertible(
                    views(xs@)[i].1,
                )) && views(ys@) == rust_entries(views(xs@)),
            Err(_) => !(forall|i: int|
                0 <= i < xs.len() ==> convertible((#[trigger] views(xs@)[i]).0) && convertible(
                    views(xs@)[i].1,
                )),
        },
    decreases *xs,
{
    let ghost all = views(xs@);
    let mut out: Vec<crate::value::TableEntry> = Vec::new();
    let mut i: usize = 0;
    while i < xs.len()
        invariant
            i <= xs.len(),
            all == views(xs@),
            out.len() == i,
            forall|j: int|
                0 <= j < i ==> convertible((#[trigger] all[j]).0) && convertible(all[j].1)
                    && out@[j]@ == (rust_view(all[j].0), rust_view(all[j].1)),
        decreases xs.len() - i,
    {
        let x = &xs[i];
        assert(decreases_to!(*xs => xs@));
        assert(decreases_to!(xs@ => xs@[i as int]));
        assert(decreases_to!(*x => x.key));
        assert(decreases_to!(*x => x.value));
        assert(all[i as int] == x@);
        let key = match to_rust(&x.key) {
            Ok(v) => v,
            Err(e) => {
                return Err(e);
            },
        };
        let value = match to_rust(&x.value) {
            Ok(v) => v,
            Err(e) => {
                return Err(e);
            },
        };
        out.push(crate::value::TableEntry { key, value });
        i = i + 1;
    }
    assert(views(out@) =~= rust_entries(all));
    Ok(out)
}

fn to_rust_fields(xs: &Vec<RecordField>) -> (r: Result<Vec<RustValue>, InvalidPrefix>)
    ensures
        match r {
            Ok(ys) => (forall|i: int|
                0 <= i < xs.len() ==> convertible((#[trigger] views(xs@)[i]).1)) && views(ys@)
                == rust_fields(views(xs@)),
            Err(_) => !(forall|i: int|
                0 <= i < xs.len() ==> convertible((#[trigger] views(xs@)[i]).1)),
        },
    decreases *xs,
{
    let ghost all = views(xs@);
    let mut out: Vec<RustValue> = Vec::new();
    let mut i: usize = 0;
    while i < xs.len()
        invariant
            i <= xs.len(),
            all == views(xs@),
            out.len() == i,
            forall|j: int|
                0 <= j < i ==> convertible((#[trigger] all[j]).1) && out@[j]@ == rust_view(
                    all[j].1,
                ),
        decreases xs.len() - i,
    {
        let x = &xs[i];
        assert(decreases_to!(*xs => xs@));
        assert(decreases_to!(xs@ => xs@[i as int]));
        assert(decreases_to!(*x => x.value));
        assert(all[i as int] == x@);
        match to_rust(&x.value) {
            Ok(v) => {
                out.push(v);
            },
            Err(e) => {
                return Err(e);
            },
        }
        i = i + 1;
    }
    assert(views(out@) =~= rust_fields(all));
    Ok(out)
}

fn to_python(v: &RustValue) -> (r: Value)
    ensures
        r@ == py_view(v@),
        well_formed(v@),
    decreases *v,
{
    broadcast use lemma_py_view, lemma_view;

    match v {
        RustValue::Boolean(x) => Value::Boolean(*x),
        RustValue::Count(x) => Value::Count(*x),
        RustValue::Integer(x) => Value::Integer(*x),
        RustValue::Real(x) => Value::Real(*x),
        RustValue::String(x) => Value::String(x.clone()),
        RustValue::EnumValue(x) => Value::Enum(x.clone()),
        RustValue::Timespan(x) => Value::Timespan(*x),
        RustValue::Timestamp(x) => Value::Timestamp(*x),
        RustValue::Address(x) => Value::Address(*x),
        RustValue::Subnet(x) => Value::Subnet(x.ip(), x.prefix()),
        RustValue::Port(x) => Value::Port(
            x.number(),
            match x.protocol() {
                crate::port::Protocol::TCP => Protocol::TCP,
                crate::port::Protocol::UDP => Protocol::UDP,
                crate::port::Protocol::ICMP => Protocol::ICMP,
                crate::port::Protocol::UNKNOWN => Protocol::UNKNOWN,
            },
        ),
        RustValue::Vector(xs) => {
            assert(decreases_to!(*v => v->Vector_0));
            Value::Vector(to_python_all(xs))
        },
        RustValue::SetOf(s) => {
            assert(decreases_to!(*v => v->SetOf_0));
            Value::SetOf(ValueSet::from_values(to_python_all(s.items())))
        },
        RustValue::Table(t) => {
            assert(decreases_to!(*v => v->Table_0));
            Value::Table(ValueTable::from_entries(to_python_entries(t.entries())))
        },
        RustValue::Nil => Value::Nil,
    }
}

fn to_python_all(xs: &Vec<RustValue>) -> (r: Vec<Value>)
    ensures
        views(r@) == py_views(views(xs@)),
        forall|i: int| 0 <= i < xs.len() ==> well_formed(#[trigger] views(xs@)[i]),
    decreases *xs,
{
    let mut out: Vec<Value> = Vec::new();
    let mut i: usize = 0;
    while i < xs.len()
        invariant
            i <= xs.len(),
            out.len() == i,
            forall|j: int|
                0 <= j < i ==> out@[j]@ == py_view((#[trigger] xs@[j])@) && well_formed(xs@[j]@),
        decreases xs.len() - i,
    {
        assert(decreases_to!(*xs => xs@));
        assert(decreases_to!(xs@ => xs@[i as int]));
        out.push(to_python(&xs[i]));
        i = i + 1;
    }
    assert(views(out@) =~= py_views(views(xs@)));
    out
}

fn to_python_entries(xs: &Vec<crate::value::TableEntry>) -> (r: Vec<TableEntry>)
    ensures
        views(r@) == py_entries(views(xs@)),
        forall|i: int|
            0 <= i < xs.len() ==> well_formed((#[trigger] views(xs@)[i]).0) && well_formed(
                views(xs@)[i].1,
            ),
    decreases *xs,
{
    let mut out: Vec<TableEntry> = Vec::new();
    let mut i: usize = 0;
    while i < xs.len()
        invariant
            i <= xs.len(),
            out.len() == i,
            forall|j: int|
                0 <= j < i ==> out@[j]@ == (
                    py_view((#[trigger] xs@[j]).key@),
                    py_view(xs@[j].value@),
                ) && well_formed(xs@[j].key@) && well_formed(xs@[j].value@),
        decreases xs.len() - i,
    {
        let x = &xs[i];
        assert(decreases_to!(*xs => xs@));
        assert(decreases_to!(xs@ => xs@[i as int]));
        assert(decreases_to!(*x => x.key));
        assert(decreases_to!(*x => x.value));
        out.push(TableEntry { key: to_python(&x.key), value: to_python(&x.value) });
        i = i + 1;
    }
    assert(views(out@) =~= py_entries(views(xs@)));
    out
}

impl TryFrom<Value> for RustValue {
    type Error = InvalidPrefix;

    fn try_from(value: Value) -> (r: Result<RustValue, InvalidPrefix>)
        ensures
            match r {
                Ok(x) => convertible(value@) && x@ == rust_view(value@),
                Err(_) => !convertible(value@),
            },
    {
        to_rust(&value)
    }
}

impl TryFromSpecImpl<Value> for RustValue {
    open spec fn obeys_try_from_spec() -> bool {
        false
    }

    open spec fn try_from_spec(value: Value) -> Result<RustValue, InvalidPrefix> {
        arbitrary()
    }
}

impl From<RustValue> for Value {
    /// How Python code sees the value. It comes back as it was.
    fn from(value: RustValue) -> (r: Value)
        ensures
            r@ == py_view(value@),
            convertible(r@),
            rust_view(r@) == value@,
    {
        let r = to_python(&value);
        proof {
            python_reads_back(value@);
        }
        r
    }
}

impl FromSpecImpl<RustValue> for Value {
    open spec fn obeys_from_spec() -> bool {
        false
    }

    open spec fn from_spec(value: RustValue) -> Value {
        arbitrary()
    }
}

/// What a Python object can be tried as.
#[derive(Debug, Clone, Copy, PartialEq, Eq, Structural)]
pub enum Probe {
    /// Already a value.
    Wrapped,
    Boolean,
    Real,
    Timespan,
    Timestamp,
    Address,
    Subnet,
    Port,
    Vector,
    SetOf,
    Table,
    String,
    Nothing,
    /// A member of an enum class.
    EnumMember,
    /// An object with a dictionary of attributes.
    Attributes,
}

impl Probe {
    /// Place in the order in which a Python object is tried. Texts come behind addresses, so
    /// that what can be either is an address.
    pub open spec fn place(self) -> int {
        match self {
            Probe::Wrapped => 0,
            Probe::Boolean => 1,
            Probe::Real => 2,
            Probe::Timespan => 3,
            Probe::Timestamp => 4,
            Probe::Address => 5,
            Probe::Subnet => 6,
            Probe::Port => 7,
            Probe::Vector => 8,
            Probe::SetOf => 9,
            Probe::Table => 10,
            Probe::String => 11,
            Probe::Nothing => 12,
            Probe::EnumMember => 13,
            Probe::Attributes => 14,
        }
    }

    /// What is tried first.
    pub fn first() -> (r: Probe)
        ensures
            r.place() == 0,
    {
        Probe::Wrapped
    }

    /// What is tried next; `None` where nothing is left.
    pub fn next(self) -> (r: Option<Probe>)
        ensures
            match r {
                Some(p) => p.place() == self.place() + 1,
                None => self.place() == 14,
            },
    {
        match self {
            Probe::Wrapped => Some(Probe::Boolean),
            Probe::Boolean => Some(Probe::Real),
            Probe::Real => Some(Probe::Timespan),
            Probe::Timespan => Some(Probe::Timestamp),
            Probe::Timestamp => Some(Probe::Address),
            Probe::Address => Some(Probe::Subnet),
            Probe::Subnet => Some(Probe::Port),
            Probe::Port => Some(Probe::Vector),
            Probe::Vector => Some(Probe::SetOf),
            Probe::SetOf => Some(Probe::Table),
            Probe::Table => Some(Probe::String),
            Probe::String => Some(Probe::Nothing),
            Probe::Nothing => Some(Probe::EnumMember),
            Probe::EnumMember => Some(Probe::Attributes),
            Probe::Attributes => None,
        }
    }
}

impl Probe {
    /// A Python object is tried as each of these, in this order.
    pub proof fn tried_in_order(i: int)
        ensures
            ({
                let order = seq![
                    Probe::Wrapped,
                    Probe::Boolean,
                    Probe::Real,
                    Probe::Timespan,
                    Probe::Timestamp,
                    Probe::Address,
                    Probe::Subnet,
                    Probe::Port,
                    Probe::Vector,
                    Probe::SetOf,
                    Probe::Table,
                    Probe::String,
                    Probe::Nothing,
                    Probe::EnumMember,
                    Probe::Attributes,
                ];
                0 <= i < order.len() ==> order[i].place() == i
            }),
            forall|p: Probe, q: Probe| #[trigger] p.place() == #[trigger] q.place() ==> p == q,
    {
    }
}

/// What a Python object turned out to be.
#[derive(Debug)]
pub enum Answer {
    Wrapped(Value),
    Boolean(bool),
    Real(Real),
    Timespan(Timespan),
    Timestamp(Timestamp),
    Address(IpAddr),
    Subnet(IpAddr, u8),
    Port(u16, Protocol),
    Vector(Vec<Value>),
    /// The members of a set, in whatever order.
    SetOf(Vec<Value>),
    /// The entries of a dictionary, in its order.
    Table(Vec<TableEntry>),
    String(String),
    Nothing,
    /// The name of a member of an enum class.
    EnumMember(String),
    /// The attributes of an object, in their order.
    Attributes(Vec<RecordField>),
}

impl Answer {
    /// The value that the Python object becomes.
    pub open spec fn value(self) -> ValueView {
        match self {
            Answer::Wrapped(v) => v@,
            Answer::Boolean(x) => ValueView::Boolean(x),
            Answer::Real(x) => ValueView::Real(x),
            Answer::Timespan(x) => ValueView::Timespan(x@),
            Answer::Timestamp(x) => ValueView::Timestamp(x@),
            Answer::Address(x) => ValueView::Address(x),
            Answer::Subnet(x, n) => ValueView::Subnet(x, n),
            Answer::Port(x, p) => ValueView::Port(x, p),
            Answer::Vector(xs) => ValueView::Vector(views(xs@)),
            Answer::SetOf(xs) => ValueView::SetOf(collected::<Value>(views(xs@), true)),
            Answer::Table(xs) => ValueView::Table(collected::<TableEntry>(views(xs@), true)),
            Answer::String(x) => ValueView::String(x@),
            Answer::Nothing => ValueView::Nil,
            Answer::EnumMember(x) => ValueView::Enum(x@),
            Answer::Attributes(xs) => ValueView::Record(
                collected::<RecordField>(views(xs@), true),
            ),
        }
    }

    /// The value that the Python object becomes.
    pub fn into_value(self) -> (r: Value)
        ensures
            r@ == self.value(),
    {
        broadcast use lemma_py_view;

        match self {
            Answer::Wrapped(v) => v,
            Answer::Boolean(x) => Value::Boolean(x),
            Answer::Real(x) => Value::Real(x),
            Answer::Timespan(x) => Value::Timespan(x),
            Answer::Timestamp(x) => Value::Timestamp(x),
            Answer::Address(x) => Value::Address(x),
            Answer::Subnet(x, n) => Value::Subnet(x, n),
            Answer::Port(x, p) => Value::Port(x, p),
            Answer::Vector(xs) => Value::Vector(xs),
            Answer::SetOf(xs) => Value::SetOf(ValueSet::from_values(xs)),
            Answer::Table(xs) => Value::Table(ValueTable::from_entries(xs)),
            Answer::String(x) => Value::String(x),
            Answer::Nothing => Value::Nil,
            Answer::EnumMember(x) => Value::Enum(x),
            Answer::Attributes(xs) => Value::Record(ValueRecord::from_fields(xs)),
        }
    }
}

impl Answer {
    /// A value is of a kind where the object was found to be of that kind, or was already a value of
    /// that kind. So text makes strings, and only members of enum classes make enum values. No object
    /// is found to be a count or an integer.
    pub proof fn kinds_are_kept(a: Answer)
        ensures
            a.value() is Boolean <==> a is Boolean || (a matches Answer::Wrapped(v) && v@ is Boolean),
            a.value() is Real <==> a is Real || (a matches Answer::Wrapped(v) && v@ is Real),
            a.value() is Timespan <==> a is Timespan || (a matches Answer::Wrapped(v) && v@ is Timespan),
            a.value() is Timestamp <==> a is Timestamp || (a matches Answer::Wrapped(v) && v@ is Timestamp),
            a.value() is Address <==> a is Address || (a matches Answer::Wrapped(v) && v@ is Address),
            a.value() is Subnet <==> a is Subnet || (a matches Answer::Wrapped(v) && v@ is Subnet),
            a.value() is Port <==> a is Port || (a matches Answer::Wrapped(v) && v@ is Port),
            a.value() is Vector <==> a is Vector || (a matches Answer::Wrapped(v) && v@ is Vector),
            a.value() is SetOf <==> a is SetOf || (a matches Answer::Wrapped(v) && v@ is SetOf),
            a.value() is Table <==> a is Table || (a matches Answer::Wrapped(v) && v@ is Table),
            a.value() is String <==> a is String || (a matches Answer::Wrapped(v) && v@ is String),
            a.value() is Nil <==> a is Nothing || (a matches Answer::Wrapped(v) && v@ is Nil),
            a.value() is Enum <==> a is EnumMember || (a matches Answer::Wrapped(v) && v@ is Enum),
            a.value() is Record <==> a is Attributes || (a matches Answer::Wrapped(v) && v@ is Record),
            a.value() is Count || a.value() is Integer ==> a is Wrapped,
    {
    }

    /// The value holds what the object was found to hold.
    pub proof fn contents_are_kept(a: Answer)
        ensures
            a matches Answer::Wrapped(v) ==> a.value() == v@,
            a matches Answer::Boolean(x) ==> a.value() == ValueView::Boolean(x),
            a matches Answer::Real(x) ==> a.value() == ValueView::Real(x),
            a matches Answer::Timespan(x) ==> a.value() == ValueView::Timespan(x@),
            a matches Answer::Timestamp(x) ==> a.value() == ValueView::Timestamp(x@),
            a matches Answer::Address(x) ==> a.value() == ValueView::Address(x),
            a matches Answer::Subnet(x, n) ==> a.value() == ValueView::Subnet(x, n),
            a matches Answer::Port(x, p) ==> a.value() == ValueView::Port(x, p),
            a matches Answer::Vector(xs) ==> a.value() == ValueView::Vector(views(xs@)),
            a matches Answer::SetOf(xs) ==> a.value() == ValueView::SetOf(
                collected::<Value>(views(xs@), true),
            ),
            a matches Answer::Table(xs) ==> a.value() == ValueView::Table(
                collected::<TableEntry>(views(xs@), true),
            ),
            a matches Answer::String(x) ==> a.value() == ValueView::String(x@),
            a matches Answer::EnumMember(x) ==> a.value() == ValueView::Enum(x@),
            a matches Answer::Attributes(xs) ==> a.value() == ValueView::Record(
                collected::<RecordField>(views(xs@), true),
            ),
    {
    }
}

/// What a Python object is as a member of an enum class: its name, where it is one and has one.
pub fn enum_answer(is_member: bool, name: Option<String>) -> (r: Option<Answer>)
    ensures
        match name {
            Some(n) => if is_member {
                r matches Some(Answer::EnumMember(x)) && x@ == n@
            } else {
                r is None
            },
            None => r is None,
        },
{
    match name {
        Some(n) => if is_member {
            Some(Answer::EnumMember(n))
        } else {
            None
        },
        None => None,
    }
}

/// How the conversion of a Python object goes on.
#[derive(Debug)]
pub enum Step {
    /// Try the object as this.
    Ask(Probe),
    /// The object is converted.
    Done(Value),
    /// The object cannot be converted.
    Unsupported,
}

/// Goes on with the conversion of a Python object that was tried: the first success decides, and
/// without one the object is tried as the next in the order.
pub fn extract(tried: Probe, answer: Option<Answer>) -> (r: Step)
    ensures
        match answer {
            Some(a) => r matches Step::Done(v) && v@ == a.value(),
            None => if tried.place() < 14 {
                r matches Step::Ask(p) && p.place() == tried.place() + 1
            } else {
                r is Unsupported
            },
        },
{
    match answer {
        Some(a) => Step::Done(a.into_value()),
        None => match tried.next() {
            Some(p) => Step::Ask(p),
            None => Step::Unsupported,
        },
    }
}

/// What a field of a dataclass wants its value to be.
#[derive(Debug, Clone, Copy, PartialEq, Eq, Structural)]
pub enum FieldHint {
    /// A value as it is.
    ValueType,
    /// A dataclass itself.
    Dataclass,
    /// A member of an enum class.
    Enum,
    /// Some other class, which is called with the plain value.
    Coerce,
    /// Anything.
    Plain,
}

/// What a field wants, given what the class in its annotation is.
pub fn classify_type(is_value: bool, is_enum: bool, is_dataclass: bool) -> (r: FieldHint)
    ensures
        r == if is_value {
            FieldHint::ValueType
        } else if is_enum {
            FieldHint::Enum
        } else if is_dataclass {
            FieldHint::Dataclass
        } else {
            FieldHint::Coerce
        },
{
    if is_value {
        FieldHint::ValueType
    } else if is_enum {
        FieldHint::Enum
    } else if is_dataclass {
        FieldHint::Dataclass
    } else {
        FieldHint::Coerce
    }
}

/// What a record holds under a name.
pub open spec fn field_named(r: Seq<(Seq<char>, ValueView)>, name: Seq<char>) -> Option<ValueView>
    decreases r.len(),
{
    if r.len() == 0 {
        None
    } else if r[0].0 == name {
        Some(r[0].1)
    } else {
        field_named(r.drop_first(), name)
    }
}

/// The fields that a record has a value for, by their places, with their values.
pub open spec fn fields_found(
    r: Seq<(Seq<char>, ValueView)>,
    names: Seq<Seq<char>>,
) -> Seq<(int, ValueView)>
    decreases names.len(),
{
    if names.len() == 0 {
        Seq::empty()
    } else {
        let front = fields_found(r, names.drop_last());
        match field_named(r, names.last()) {
            Some(v) => front.push((names.len() - 1, v)),
            None => front,
        }
    }
}

/// The fields of a dataclass that a value gives values for, by their places: a vector gives its
/// values in order, and a record by name. `None` for other values.
pub open spec fn typed(v: ValueView, names: Seq<Seq<char>>) -> Option<Seq<(int, ValueView)>> {
    match v {
        ValueView::Vector(s) => Some(
            Seq::new(
                if s.len() < names.len() {
                    s.len()
                } else {
                    names.len()
                },
                |i: int| (i, s[i]),
            ),
        ),
        ValueView::Record(r) => Some(fields_found(r, names)),
        _ => None,
    }
}

/// Places and values, as mathematics has them.
pub open spec fn placed(s: Seq<(usize, Value)>) -> Seq<(int, ValueView)> {
    Seq::new(s.len(), |i: int| (s[i].0 as int, s[i].1@))
}

/// A record gives the first value with a name, and none where no field has it.
pub proof fn first_fields_are_found(r: Seq<(Seq<char>, ValueView)>, name: Seq<char>, n: int)
    requires
        forall|i: int| 0 <= i < n && i < r.len() ==> (#[trigger] r[i]).0 != name,
    ensures
        0 <= n < r.len() && r[n].0 == name ==> field_named(r, name) == Some(r[n].1),
        n >= r.len() ==> field_named(r, name) == None::<ValueView>,
    decreases r.len(),
{
    if r.len() > 0 && n > 0 {
        let rest = r.drop_first();
        assert(r[0].0 != name);
        assert forall|i: int| 0 <= i < n - 1 && i < rest.len() implies (#[trigger] rest[i]).0
            != name by {
            assert(rest[i] == r[i + 1]);
        }
        first_fields_are_found(rest, name, n - 1);
    }
}

/// What a record gives for names is what it holds under these names, in their order, and it gives
/// something for every name that it holds something under.
pub proof fn fields_by_name(r: Seq<(Seq<char>, ValueView)>, names: Seq<Seq<char>>)
    ensures
        forall|k: int|
            0 <= k < fields_found(r, names).len() ==> {
                let f = #[trigger] fields_found(r, names)[k];
                0 <= f.0 < names.len() && field_named(r, names[f.0]) == Some(f.1)
            },
        forall|j: int, k: int|
            0 <= j < k < fields_found(r, names).len() ==> (#[trigger] fields_found(r, names)[j]).0
                < (#[trigger] fields_found(r, names)[k]).0,
        forall|i: int|
            0 <= i < names.len() ==> (field_named(r, #[trigger] names[i]) matches Some(v)
                ==> fields_found(r, names).contains((i, v))),
    decreases names.len(),
{
    if names.len() > 0 {
        let front = names.drop_last();
        let found = fields_found(r, front);
        let all = fields_found(r, names);
        fields_by_name(r, front);
        assert(forall|i: int| 0 <= i < front.len() ==> #[trigger] front[i] == names[i]);
        let last = names.len() - 1;
        assert forall|k: int| 0 <= k < all.len() implies ({
            let f = #[trigger] all[k];
            0 <= f.0 < names.len() && field_named(r, names[f.0]) == Some(f.1)
        }) by {
            if k < found.len() {
                assert(all[k] == found[k]);
            }
        }
        assert forall|j: int, k: int| 0 <= j < k < all.len() implies (#[trigger] all[j]).0 < (
        #[trigger] all[k]).0 by {
            assert(all[j] == found[j]);
            if k < found.len() {
                assert(all[k] == found[k]);
            }
        }
        assert forall|i: int| 0 <= i < names.len() implies (field_named(r, #[trigger] names[i])
            matches Some(v) ==> all.contains((i, v))) by {
            if let Some(v) = field_named(r, names[i]) {
                if i < last {
                    assert(front[i] == names[i]);
                    let k = choose|k: int| 0 <= k < found.len() && found[k] == (i, v);
                    assert(found.contains((i, v)));
                    assert(all[k] == (i, v));
                } else {
                    assert(all.last() == (i, v));
                }
            }
        }
    }
}

/// A vector gives values by place, as many as there are both values and names, and other values
/// than vectors and records give none.
pub proof fn values_by_place(v: ValueView, s: Seq<ValueView>, names: Seq<Seq<char>>, i: int)
    ensures
        typed(ValueView::Vector(s), names) matches Some(t) && t.len() <= s.len() && t.len()
            <= names.len() && (t.len() == s.len() || t.len() == names.len()) && (0 <= i < t.len()
            ==> t[i] == (i, s[i])),
        v matches ValueView::Record(r) ==> typed(v, names) == Some(fields_found(r, names)),
        typed(v, names) is Some <==> v is Vector || v is Record,
{
}

/// Places and values are kept as they are.
pub proof fn places_are_kept(s: Seq<(usize, Value)>, i: int)
    ensures
        placed(s).len() == s.len(),
        0 <= i < s.len() ==> placed(s)[i].0 == s[i].0 && placed(s)[i].1 == s[i].1@,
{
}

fn find_field<'a>(fields: &'a Vec<RecordField>, name: &str) -> (r: Option<&'a Value>)
    ensures
        match r {
            Some(v) => field_named(views(fields@), name@) == Some(v@),
            None => field_named(views(fields@), name@) == None::<ValueView>,
        },
{
    let ghost all = views(fields@);
    let mut i: usize = 0;
    assert(all.skip(0) =~= all);
    while i < fields.len()
        invariant
            i <= fields.len(),
            all == views(fields@),
            field_named(all, name@) == field_named(all.skip(i as int), name@),
        decreases fields.len() - i,
    {
        assert(all.skip(i as int)[0] == fields@[i as int]@);
        assert(all.skip(i as int).drop_first() =~= all.skip(i + 1));
        if same_text(fields[i].name.as_str(), name) {
            return Some(&fields[i].value);
        }
        i = i + 1;
    }
    None
}

/// A value cannot be written as JSON.
#[derive(Debug)]
pub enum SerializeError {
    Prefix(InvalidPrefix),
    Encode(EncodeError),
}

/// A text cannot be read as a value.
#[derive(Debug)]
pub enum ReadError {
    /// Not JSON, and why.
    Json(String),
    /// JSON, but not a value.
    Decode(DecodeError),
}

/// A [`ReadError`] as mathematics has it.
pub enum ReadErrorView {
    Json(Seq<char>),
    Decode(DecodeErrorView),
}

impl View for ReadError {
    type V = ReadErrorView;

    open spec fn view(&self) -> ReadErrorView {
        match self {
            ReadError::Json(s) => ReadErrorView::Json(s@),
            ReadError::Decode(e) => ReadErrorView::Decode(e@),
        }
    }
}

impl ReadErrorView {
    pub open spec fn text(self) -> Seq<char> {
        match self {
            ReadErrorView::Json(s) => s,
            ReadErrorView::Decode(e) => e.text(),
        }
    }
}

impl ReadError {
    /// Describes the error.
    pub fn to_string(&self) -> (r: String)
        ensures
            r@ == self@.text(),
    {
        match self {
            ReadError::Json(s) => s.clone(),
            ReadError::Decode(e) => e.to_string(),
        }
    }
}

/// The value that a tree is read as, where its text repeats no field.
pub open spec fn value_checked(t: JsonView, x: Seq<u8>, offset: Option<int>) -> Result<
    RustView,
    ReadErrorView,
> {
    match decoded(t, false, offset) {
        Err(e) => Err(ReadErrorView::Decode(e)),
        Ok(v) => match value_repeat(t, false, x, encode_utf8(json_printed(t))) {
            Some(e) => Err(ReadErrorView::Decode(e)),
            None => Ok(v),
        },
    }
}

/// The value that bytes hold. What `serde_json` refuses only for parts that are not read from is
/// read without these.
pub open spec fn value_in(x: Seq<u8>, offset: Option<int>) -> Result<RustView, ReadErrorView> {
    match json_parsed(x) {
        Ok(t) => value_checked(t, x, offset),
        Err(e) => if !json_skipped(x) {
            Err(ReadErrorView::Json(e))
        } else {
            match json_parsed(pruned(x)) {
                Ok(t) => value_checked(t, pruned(x), offset),
                Err(_) => Err(ReadErrorView::Json(e)),
            }
        },
    }
}

/// The value that a text holds.
pub open spec fn value_read(s: Seq<char>, offset: Option<int>) -> Result<RustView, ReadErrorView> {
    value_in(encode_utf8(s), offset)
}

/// What is read of bytes is what their tree decodes to, and a tree that does not decode is refused
/// for the same reason. Bytes that are not JSON are refused as such.
pub proof fn values_come_from_trees(x: Seq<u8>, s: Seq<char>, offset: Option<int>)
    ensures
        match json_parsed(x) {
            Ok(t) => {
                &&& value_in(x, offset) matches Ok(v) ==> decoded(t, false, offset) == Ok::<
                    RustView,
                    DecodeErrorView,
                >(v)
                &&& decoded(t, false, offset) matches Err(e) ==> value_in(x, offset) == Err::<
                    RustView,
                    ReadErrorView,
                >(ReadErrorView::Decode(e))
                &&& decoded(t, false, offset) matches Ok(v) ==> match value_repeat(
                    t,
                    false,
                    x,
                    encode_utf8(json_printed(t)),
                ) {
                    None => value_in(x, offset) == Ok::<RustView, ReadErrorView>(v),
                    Some(e) => value_in(x, offset) == Err::<RustView, ReadErrorView>(
                        ReadErrorView::Decode(e),
                    ),
                }
            },
            Err(e) => {
                &&& !json_skipped(x) ==> value_in(x, offset) == Err::<RustView, ReadErrorView>(
                    ReadErrorView::Json(e),
                )
                &&& json_skipped(x) ==> match json_parsed(pruned(x)) {
                    Ok(_) => value_in(x, offset) == value_in(pruned(x), offset),
                    Err(_) => value_in(x, offset) == Err::<RustView, ReadErrorView>(
                        ReadErrorView::Json(e),
                    ),
                }
            },
        },
        value_read(s, offset) == value_in(encode_utf8(s), offset),
{
}

/// What a reader is told of texts that cannot be read, and of data that is refused.
pub proof fn errors_are_described(s: Seq<char>, e: DecodeErrorView, p: ProtocolErrorView)
    ensures
        ReadErrorView::Json(s).text() == s,
        ReadErrorView::Decode(e).text() == e.text(),
        BindingErrorView::Payload(s).text() == "data payload not understood: "@ + s,
        BindingErrorView::Protocol(p).text() == "failed to handle message: "@ + p.text(),
{
    reveal_strlit("");
    assert("data payload not understood: "@ + s + ""@ =~= "data payload not understood: "@ + s);
    assert("failed to handle message: "@ + p.text() + ""@ =~= "failed to handle message: "@
        + p.text());
}

fn check_value(j: &JsonValue, x: &Vec<u8>, offset: Option<UtcOffset>) -> (r: Result<
    RustValue,
    ReadError,
>)
    ensures
        match r {
            Ok(v) => value_checked(json_tree(*j), x@, offset_view(offset)) == Ok::<
                RustView,
                ReadErrorView,
            >(v@),
            Err(e) => value_checked(json_tree(*j), x@, offset_view(offset)) == Err::<
                RustView,
                ReadErrorView,
            >(e@),
        },
{
    match RustValue::from_json(j, offset) {
        Err(e) => Err(ReadError::Decode(e)),
        Ok(v) => match check_value_text(j, x) {
            Some(e) => Err(ReadError::Decode(e)),
            None => Ok(v),
        },
    }
}

fn read_value(s: &str, offset: Option<UtcOffset>) -> (r: Result<RustValue, ReadError>)
    ensures
        match r {
            Ok(v) => value_read(s@, offset_view(offset)) == Ok::<RustView, ReadErrorView>(v@),
            Err(e) => value_read(s@, offset_view(offset)) == Err::<RustView, ReadErrorView>(e@),
        },
{
    let x = s.as_bytes_vec();
    match json_parse(x.as_slice()) {
        Ok(j) => check_value(&j, &x, offset),
        Err(e) => {
            if !json_skip(x.as_slice()) {
                return Err(ReadError::Json(e));
            }
            let y = prune(&x);
            match json_parse(y.as_slice()) {
                Ok(j) => check_value(&j, &y, offset),
                Err(_) => Err(ReadError::Json(e)),
            }
        },
    }
}

/// The text that a value is written as, or why it is not.
pub open spec fn value_written(v: RustView, offset: Option<int>) -> Result<
    Seq<char>,
    EncodeErrorView,
> {
    match encoded(v, offset) {
        Ok(t) => Ok(json_printed(t)),
        Err(e) => Err(e),
    }
}

fn write_value(v: &RustValue, offset: Option<UtcOffset>) -> (r: Result<String, EncodeError>)
    ensures
        match r {
            Ok(s) => value_written(v@, offset_view(offset)) == Ok::<Seq<char>, EncodeErrorView>(
                s@,
            ),
            Err(e) => value_written(v@, offset_view(offset)) == Err::<Seq<char>, EncodeErrorView>(
                e@,
            ),
        },
        r matches Ok(s) ==> writes_back(v@, offset_view(offset)) ==> value_read(
            s@,
            offset_view(offset),
        ) == Ok::<RustView, ReadErrorView>(localized(v@, offset_view(offset))),
{
    match v.to_json(offset) {
        Ok(j) => {
            let text = json_print(&j);
            proof {
                if writes_back(v@, offset_view(offset)) {
                    printed_value_repeats_nothing(
                        json_tree(j),
                        false,
                        encode_utf8(json_printed(json_tree(j))),
                    );
                }
            }
            Ok(text)
        },
        Err(e) => Err(e),
    }
}

/// A value that is written in full: its numbers are finite, and it is not nested too deeply.
pub open spec fn writes_back(v: RustView, offset: Option<int>) -> bool {
    all_finite(v) && (encoded(v, offset) matches Ok(t) ==> depth_within(t, max_depth()))
}

/// A value is written as the text of the tree that it is encoded as, and is not written where it
/// cannot be encoded. It is written in full where its numbers are finite and its tree has at most
/// 127 levels.
pub proof fn values_in_writing(v: RustView, t: JsonView, e: EncodeErrorView, offset: Option<int>)
    ensures
        encoded(v, offset) == Ok::<JsonView, EncodeErrorView>(t) ==> {
            &&& value_written(v, offset) == Ok::<Seq<char>, EncodeErrorView>(json_printed(t))
            &&& writes_back(v, offset) <==> all_finite(v) && depth_within(t, 127)
        },
        encoded(v, offset) == Err::<JsonView, EncodeErrorView>(e) ==> value_written(v, offset)
            == Err::<Seq<char>, EncodeErrorView>(e),
{
}

impl Value {
    /// The fields of a dataclass that the value gives values for, by their places in the list of
    /// names, with the values.
    pub fn as_record(&self, names: &Vec<String>) -> (r: Option<Vec<(usize, Value)>>)
        ensures
            match r {
                Some(s) => typed(self@, texts(names@)) == Some(placed(s@)),
                None => typed(self@, texts(names@)) is None,
            },
    {
        broadcast use lemma_py_view;

        let ghost all = texts(names@);
        let mut out: Vec<(usize, Value)> = Vec::new();
        let mut i: usize = 0;
        match self {
            Value::Vector(values) => {
                while i < values.len() && i < names.len()
                    invariant
                        i <= values.len(),
                        i <= names.len(),
                        out.len() == i,
                        forall|j: int|
                            0 <= j < i ==> (#[trigger] out@[j]).0 == j && out@[j].1@
                                == values@[j]@,
                    decreases values.len() - i,
                {
                    let v = &values[i];
                    let copy = v.clone();
                    assert(copy@ == values@[i as int]@);
                    out.push((i, copy));
                    i = i + 1;
                }
                assert(typed(self@, all)->Some_0 =~= placed(out@));
                Some(out)
            },
            Value::Record(record) => {
                let fields = record.fields();
                assert(placed(out@) =~= Seq::empty());
                while i < names.len()
                    invariant
                        i <= names.len(),
                        all == texts(names@),
                        placed(out@) == fields_found(views(fields@), all.take(i as int)),
                    decreases names.len() - i,
                {
                    assert(all.take(i + 1).drop_last() =~= all.take(i as int));
                    assert(all.take(i + 1).last() == names@[i as int]@);
                    let ghost before = placed(out@);
                    match find_field(fields, names[i].as_str()) {
                        Some(v) => {
                            let copy = v.clone();
                            out.push((i, copy));
                            assert(placed(out@) =~= before.push((i as int, v@)));
                        },
                        None => {},
                    }
                    i = i + 1;
                }
                assert(all.take(i as int) =~= all);
                Some(out)
            },
            _ => None,
        }
    }

    /// The name of an enum member, if the value is one.
    pub fn as_enum(&self) -> (r: Option<&str>)
        ensures
            match self@ {
                ValueView::Enum(name) => r matches Some(s) && s@ == name,
                _ => r is None,
            },
    {
        broadcast use lemma_py_view;

        match self {
            Value::Enum(name) => Some(name.as_str()),
            _ => None,
        }
    }

    /// Writes the value as JSON text, with points in time in local time.
    pub fn serialize_json(&self, offset: Option<UtcOffset>) -> (r: Result<String, SerializeError>)
        ensures
            if !convertible(self@) {
                r matches Err(SerializeError::Prefix(_))
            } else {
                match value_written(rust_view(self@), offset_view(offset)) {
                    Ok(text) => r matches Ok(s) && s@ == text,
                    Err(e) => r matches Err(SerializeError::Encode(x)) && x@ == e,
                }
            },
            r matches Ok(s) ==> writes_back(rust_view(self@), offset_view(offset)) ==> value_read(
                s@,
                offset_view(offset),
            ) == Ok::<RustView, ReadErrorView>(
                localized(rust_view(self@), offset_view(offset)),
            ),
    {
        match to_rust(self) {
            Err(e) => Err(SerializeError::Prefix(e)),
            Ok(v) => match write_value(&v, offset) {
                Ok(s) => Ok(s),
                Err(e) => Err(SerializeError::Encode(e)),
            },
        }
    }

    /// Reads a value from JSON text, with points in time in local time.
    pub fn deserialize_json(data: &str, offset: Option<UtcOffset>) -> (r: Result<Value, ReadError>)
        ensures
            match value_read(data@, offset_view(offset)) {
                Ok(v) => r matches Ok(x) && x@ == py_view(v),
                Err(e) => r matches Err(x) && x@ == e,
            },
    {
        match read_value(data, offset) {
            Ok(v) => Ok(to_python(&v)),
            Err(e) => Err(e),
        }
    }
}

/// A Zeek event as Python code sees it.
#[derive(Debug)]
pub struct Event(pub crate::message::Event);

/// A text cannot be read as an event.
#[derive(Debug)]
pub enum EventError {
    /// Not a value.
    Read(ReadError),
    /// A value that carries no event.
    NotAnEvent(RustValue),
}

impl Event {
    pub fn new(name: String, args: Vec<Value>, metadata: Vec<Value>) -> (r: Result<
        Event,
        InvalidPrefix,
    >)
        ensures
            match r {
                Ok(e) => all_convertible(views(args@)) && all_convertible(views(metadata@))
                    && e.0@ == (EventView {
                    name: name@,
                    args: rust_views(views(args@)),
                    metadata: rust_views(views(metadata@)),
                }),
                Err(_) => !all_convertible(views(args@)) || !all_convertible(views(metadata@)),
            },
    {
        match to_rust_all(&args) {
            Err(e) => Err(e),
            Ok(args) => match to_rust_all(&metadata) {
                Err(e) => Err(e),
                Ok(metadata) => Ok(Event(crate::message::Event { name, args, metadata })),
            },
        }
    }

    pub fn name(&self) -> (r: &str)
        ensures
            r@ == self.0@.name,
    {
        self.0.name.as_str()
    }

    pub fn args(&self) -> (r: Vec<Value>)
        ensures
            views(r@) == py_views(self.0@.args),
    {
        to_python_all(&self.0.args)
    }

    pub fn metadata(&self) -> (r: Vec<Value>)
        ensures
            views(r@) == py_views(self.0@.metadata),
    {
        to_python_all(&self.0.metadata)
    }

    /// Writes the event as JSON text, with points in time in local time.
    pub fn serialize_json(&self, offset: Option<UtcOffset>) -> (r: Result<String, EncodeError>)
        ensures
            match value_written(self.0@.value(), offset_view(offset)) {
                Ok(text) => r matches Ok(s) && s@ == text,
                Err(e) => r matches Err(x) && x@ == e,
            },
            r matches Ok(s) ==> writes_back(self.0@.value(), offset_view(offset)) ==> value_read(
                s@,
                offset_view(offset),
            ) == Ok::<RustView, ReadErrorView>(
                localized(self.0@.value(), offset_view(offset)),
            ),
    {
        let value = RustValue::from(Data::Event(self.0.clone()));
        write_value(&value, offset)
    }

    /// Reads an event from JSON text, with points in time in local time.
    pub fn deserialize_json(data: &str, offset: Option<UtcOffset>) -> (r: Result<
        Event,
        EventError,
    >)
        ensures
            match value_read(data@, offset_view(offset)) {
                Err(e) => r matches Err(EventError::Read(x)) && x@ == e,
                Ok(v) => match event_in(v) {
                    Some(e) => r matches Ok(x) && x.0@ == e,
                    None => r matches Err(EventError::NotAnEvent(x)) && x@ == v,
                },
            },
    {
        match read_value(data, offset) {
            Err(e) => Err(EventError::Read(e)),
            Ok(v) => match Data::from(v) {
                Data::Event(e) => Ok(Event(e)),
                Data::Other(v) => Err(EventError::NotAnEvent(v)),
            },
        }
    }
}

/// Why incoming data is refused.
#[derive(Debug)]
pub enum BindingError {
    /// The data is not a message, and why.
    Payload(String),
    /// The message is refused.
    Protocol(ProtocolError),
}

/// A [`BindingError`] as mathematics has it.
pub enum BindingErrorView {
    Payload(Seq<char>),
    Protocol(ProtocolErrorView),
}

impl View for BindingError {
    type V = BindingErrorView;

    open spec fn view(&self) -> BindingErrorView {
        match self {
            BindingError::Payload(e) => BindingErrorView::Payload(e@),
            BindingError::Protocol(e) => BindingErrorView::Protocol(e@),
        }
    }
}

impl BindingErrorView {
    pub open spec fn text(self) -> Seq<char> {
        match self {
            BindingErrorView::Payload(e) => "data payload not understood: "@ + e + ""@,
            BindingErrorView::Protocol(e) => "failed to handle message: "@ + e.text() + ""@,
        }
    }
}

impl BindingError {
    /// Describes the error.
    pub fn to_string(&self) -> (r: String)
        ensures
            r@ == self@.text(),
    {
        match self {
            BindingError::Payload(e) => joined("data payload not understood: ", e.as_str(), ""),
            BindingError::Protocol(e) => joined(
                "failed to handle message: ",
                e.to_string().as_str(),
                "",
            ),
        }
    }
}

/// A [`Binding`] as Python code sees it.
#[derive(Debug)]
pub struct ProtocolBinding(Binding);

impl View for ProtocolBinding {
    type V = BindingView;

    closed spec fn view(&self) -> BindingView {
        self.0@
    }
}

impl ProtocolBinding {
    /// A binding that is about to subscribe to these topics.
    pub fn new(subscriptions: Vec<String>) -> (r: ProtocolBinding)
        ensures
            !r@.subscribed,
            r@.inbox == Seq::<MessageView>::empty(),
            r@.outbox == seq![FrameView::Text(json_printed(topics_encoded(texts(subscriptions@))))],
    {
        ProtocolBinding(Binding::subscribing(&Subscriptions(subscriptions)))
    }

    /// Handles data received from Zeek.
    pub fn handle_incoming(&mut self, data: &Vec<u8>, offset: Option<UtcOffset>) -> (r: Result<
        (),
        BindingError,
    >)
        ensures
            match message_read(data@, offset_view(offset)) {
                Err(e) => final(self)@ == old(self)@ && (r matches Err(x) && x@
                    == BindingErrorView::Payload(e)),
                Ok(m) => final(self)@ == old(self)@.after(m) && match old(self)@.refusal(m) {
                    None => r is Ok,
                    Some(e) => r matches Err(x) && x@ == BindingErrorView::Protocol(e),
                },
            },
    {
        let message = match Message::from_text(data, offset) {
            Err(e) => {
                return Err(BindingError::Payload(e));
            },
            Ok(m) => m,
        };
        match self.0.handle_incoming(message) {
            Ok(()) => Ok(()),
            Err(e) => Err(BindingError::Protocol(e)),
        }
    }

    /// Takes out the next data to be sent.
    pub fn outgoing(&mut self) -> (r: Option<Vec<u8>>)
        ensures
            match r {
                Some(data) => old(self)@.outbox.len() > 0 && data@ == old(self)@.outbox[0].data()
                    && final(self)@ == (BindingView {
                    outbox: old(self)@.outbox.drop_first(),
                    ..old(self)@
                }),
                None => old(self)@.outbox.len() == 0 && final(self)@ == old(self)@,
            },
    {
        self.0.outgoing()
    }

    /// Stores an event for sending, with points in time in the system's local time.
    pub fn publish_event(&mut self, topic: &str, event: Event) -> (r: Result<(), EncodeError>)
        ensures
            final(self)@ == (BindingView { outbox: final(self)@.outbox, ..old(self)@ }),
            enqueued_now(
                old(self)@.outbox,
                event_message(topic@, event.0@),
                final(self)@.outbox,
                outcome(r),
            ),
    {
        self.0.publish_event(topic, event.0)
    }

    /// Takes out the next event, or the next error that Zeek reported.
    pub fn receive_event(&mut self) -> (r: Result<Option<(String, Event)>, ProtocolError>)
        ensures
            if old(self)@.inbox.len() == 0 {
                r matches Ok(None) && final(self)@ == old(self)@
            } else {
                final(self)@ == (BindingView {
                    inbox: old(self)@.inbox.drop_first(),
                    ..old(self)@
                }) && match delivery(old(self)@.inbox[0]) {
                    Ok(Some((topic, event))) => r matches Ok(Some(x)) && x.0@ == topic && x.1.0@
                        == event,
                    Ok(None) => false,
                    Err(e) => r matches Err(x) && x@ == e,
                }
            },
    {
        match self.0.receive_event() {
            Ok(Some((topic, event))) => Ok(Some((topic, Event(event)))),
            Ok(None) => Ok(None),
            Err(e) => Err(e),
        }
    }
}

} // verus!
