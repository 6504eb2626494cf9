//! What the C interface does, on values instead of pointers.
//!
//! The functions keep the names that C code calls them by. Strings come in as the bytes that a
//! pointer leads to, and go out as text.
use vstd::prelude::*;
use vstd::std_specs::convert::{FromSpec, FromSpecImpl};

use crate::client::{Error, ErrorView, ServiceConfig};
use crate::net::{IpAddr, IpNetwork};
use crate::order::{key_order, lemma_key_equal, Order};
use crate::protocol::{ProtocolError, ProtocolErrorView};
use crate::scalar::{Real, Timespan, Timestamp};
use crate::sorted::{collected, sorted, views, Ordered};
use crate::text::{
    chars_of, find_char, first_index, integer_text, joined, string_of, utf8_decoded, utf8_text,
};
use crate::value::{lemma_view, same_value, ValueSet, ValueTable, ValueView};

verus! {

/// A Zeek value.
#[derive(Debug)]
pub struct Value(pub crate::value::Value);

impl View for Value {
    type V = ValueView;

    open spec fn view(&self) -> ValueView {
        self.0@
    }
}

impl Clone for Value {
    fn clone(&self) -> (r: Value)
        ensures
            r@ == self@,
    {
        Value(self.0.clone())
    }
}

impl PartialEq for Value {
    fn eq(&self, other: &Value) -> (r: bool) {
        self.0 == other.0
    }
}

impl vstd::std_specs::cmp::PartialEqSpecImpl for Value {
    open spec fn obeys_eq_spec() -> bool {
        true
    }

    open spec fn eq_spec(&self, other: &Value) -> bool {
        same_value(self@, other@)
    }
}

/// An entry of a table.
#[derive(Debug)]
pub struct TableEntry {
    pub key: Value,
    pub value: Value,
}

impl View for TableEntry {
    type V = (ValueView, ValueView);

    open spec fn view(&self) -> (ValueView, ValueView) {
        (self.key@, self.value@)
    }
}

impl From<TableEntry> for crate::value::TableEntry {
    fn from(value: TableEntry) -> (r: crate::value::TableEntry) {
        crate::value::TableEntry { key: value.key.0, value: value.value.0 }
    }
}

impl FromSpecImpl<TableEntry> for crate::value::TableEntry {
    open spec fn obeys_from_spec() -> bool {
        true
    }

    open spec fn from_spec(value: TableEntry) -> crate::value::TableEntry {
        crate::value::TableEntry { key: value.key.0, value: value.value.0 }
    }
}

/// The kind of a value.
#[derive(Debug, Clone, Copy, PartialEq, Eq, Structural)]
pub enum ValueType {
    Nil,
    Boolean,
    Count,
    Integer,
    Real,
    Timespan,
    Timestamp,
    String,
    EnumValue,
    Address,
    Subnet,
    Port,
    Vector,
    SetOf,
    Table,
}

impl ValueType {
    pub open spec fn of(v: ValueView) -> ValueType {
        match v {
            ValueView::Nil => ValueType::Nil,
            ValueView::Boolean(_) => ValueType::Boolean,
            ValueView::Count(_) => ValueType::Count,
            ValueView::Integer(_) => ValueType::Integer,
            ValueView::Real(_) => ValueType::Real,
            ValueView::Timespan(_) => ValueType::Timespan,
            ValueView::Timestamp(_) => ValueType::Timestamp,
            ValueView::String(_) => ValueType::String,
            ValueView::EnumValue(_) => ValueType::EnumValue,
            ValueView::Address(_) => ValueType::Address,
            ValueView::Subnet(_) => ValueType::Subnet,
            ValueView::Port(_) => ValueType::Port,
            ValueView::Vector(_) => ValueType::Vector,
            ValueView::SetOf(_) => ValueType::SetOf,
            ValueView::Table(_) => ValueType::Table,
        }
    }

    /// The kind that is reported of a value is the one whose accessor gives the value out, and the
    /// one that it was made as.
    pub proof fn kinds_are_reported(v: ValueView)
        ensures
            (ValueType::of(v) == ValueType::Nil) == (v is Nil),
            (ValueType::of(v) == ValueType::Boolean) == (v is Boolean),
            (ValueType::of(v) == ValueType::Count) == (v is Count),
            (ValueType::of(v) == ValueType::Integer) == (v is Integer),
            (ValueType::of(v) == ValueType::Real) == (v is Real),
            (ValueType::of(v) == ValueType::Timespan) == (v is Timespan),
            (ValueType::of(v) == ValueType::Timestamp) == (v is Timestamp),
            (ValueType::of(v) == ValueType::String) == (v is String),
            (ValueType::of(v) == ValueType::EnumValue) == (v is EnumValue),
            (ValueType::of(v) == ValueType::Address) == (v is Address),
            (ValueType::of(v) == ValueType::Subnet) == (v is Subnet),
            (ValueType::of(v) == ValueType::Port) == (v is Port),
            (ValueType::of(v) == ValueType::Vector) == (v is Vector),
            (ValueType::of(v) == ValueType::SetOf) == (v is SetOf),
            (ValueType::of(v) == ValueType::Table) == (v is Table),
    {
    }

    /// Bytes of text make a string that is reported as a string, and an enum value that is reported
    /// as an enum value, both of that text. Other bytes make neither.
    pub proof fn texts_are_reported(s: Seq<char>, bytes: Seq<u8>)
        ensures
            text_value(vstd::utf8::encode_utf8(s), false) == Some(ValueView::String(s)),
            text_value(vstd::utf8::encode_utf8(s), true) == Some(ValueView::EnumValue(s)),
            ValueType::of(ValueView::String(s)) == ValueType::String,
            ValueType::of(ValueView::EnumValue(s)) == ValueType::EnumValue,
            text_value(bytes, false) is None <==> !vstd::utf8::valid_utf8(bytes),
            text_value(bytes, true) is None <==> !vstd::utf8::valid_utf8(bytes),
    {
        broadcast use {
            vstd::utf8::encode_utf8_decode_utf8,
            vstd::utf8::encode_utf8_valid_utf8,
        };

    }
}

/// The inner values of several values.
fn unwrap_all(values: &Vec<Value>) -> (r: Vec<crate::value::Value>)
    ensures
        views(r@) == views(values@),
{
    let mut out: Vec<crate::value::Value> = Vec::new();
    let mut i: usize = 0;
    while i < values.len()
        invariant
            i <= values.len(),
            out.len() == i,
            forall|j: int| 0 <= j < i ==> out@[j]@ == (#[trigger] values@[j])@,
        decreases values.len() - i,
    {
        out.push(values[i].0.clone());
        i = i + 1;
    }
    assert(views(out@) =~= views(values@));
    out
}

fn wrap_all(values: &Vec<crate::value::Value>) -> (r: Vec<Value>)
    ensures
        views(r@) == views(values@),
{
    let mut out: Vec<Value> = Vec::new();
    let mut i: usize = 0;
    while i < values.len()
        invariant
            i <= values.len(),
            out.len() == i,
            forall|j: int| 0 <= j < i ==> out@[j]@ == (#[trigger] values@[j])@,
        decreases values.len() - i,
    {
        out.push(Value(values[i].clone()));
        i = i + 1;
    }
    assert(views(out@) =~= views(values@));
    out
}

/// The bytes that text was made from are the bytes of the text.
pub proof fn text_keeps_bytes(bytes: Seq<u8>)
    requires
        utf8_decoded(bytes) is Some,
    ensures
        vstd::utf8::encode_utf8(utf8_decoded(bytes)->Some_0) == bytes,
{
    broadcast use vstd::utf8::decode_utf8_encode_utf8;

}

/// Text that the bytes encode, as a value that is made from text.
pub open spec fn text_value(bytes: Seq<u8>, enum_value: bool) -> Option<ValueView> {
    match utf8_decoded(bytes) {
        None => None,
        Some(s) => Some(
            if enum_value {
                ValueView::EnumValue(s)
            } else {
                ValueView::String(s)
            },
        ),
    }
}

/// A value, where there is one.
pub open spec fn value_option(v: Option<Value>) -> Option<ValueView> {
    match v {
        Some(v) => Some(v@),
        None => None,
    }
}

impl Value {
    /// Nothing.
    pub fn zws_value_new_none() -> (r: Value)
        ensures
            r@ == ValueView::Nil,
    {
        broadcast use lemma_view;

        Value(crate::value::Value::Nil)
    }

    /// A boolean.
    pub fn zws_value_new_boolean(data: bool) -> (r: Value)
        ensures
            r@ == ValueView::Boolean(data),
    {
        broadcast use lemma_view;

        Value(crate::value::Value::Boolean(data))
    }

    /// A count.
    pub fn zws_value_new_count(data: u64) -> (r: Value)
        ensures
            r@ == ValueView::Count(data),
    {
        broadcast use lemma_view;

        Value(crate::value::Value::Count(data))
    }

    /// An integer.
    pub fn zws_value_new_integer(data: i64) -> (r: Value)
        ensures
            r@ == ValueView::Integer(data),
    {
        broadcast use lemma_view;

        Value(crate::value::Value::Integer(data))
    }

    /// A real number.
    pub fn zws_value_new_real(data: Real) -> (r: Value)
        ensures
            r@ == ValueView::Real(data),
    {
        broadcast use lemma_view;

        Value(crate::value::Value::Real(data))
    }

    /// A span of so many nanoseconds.
    pub fn zws_value_new_timespan(nanos: i64) -> (r: Value)
        ensures
            r@ == ValueView::Timespan(nanos as int),
    {
        broadcast use lemma_view;

        Value(crate::value::Value::Timespan(Timespan::from_nanoseconds(nanos)))
    }

    /// The point in time so many nanoseconds from the start of 1970 in UTC. Every such point can
    /// be represented.
    pub fn zws_value_new_timestamp(nanos_utc: i64) -> (r: Option<Value>)
        ensures
            value_option(r) == Some(ValueView::Timestamp((nanos_utc as int, 0int))),
    {
        broadcast use lemma_view;

        match Timestamp::new(nanos_utc as i128) {
            Some(t) => Some(Value(crate::value::Value::Timestamp(t))),
            None => None,
        }
    }

    /// A string, where the bytes are UTF-8.
    pub fn zws_value_new_string(data: &[u8]) -> (r: Option<Value>)
        ensures
            value_option(r) == text_value(data@, false),
    {
        broadcast use lemma_view;

        match utf8_text(data) {
            Some(s) => Some(Value(crate::value::Value::String(s))),
            None => None,
        }
    }

    /// An enum value, where the bytes are UTF-8.
    pub fn zws_value_new_enum(data: &[u8]) -> (r: Option<Value>)
        ensures
            value_option(r) == text_value(data@, true),
    {
        broadcast use lemma_view;

        match utf8_text(data) {
            Some(s) => Some(Value(crate::value::Value::EnumValue(s))),
            None => None,
        }
    }

    /// An address.
    pub fn zws_value_new_address(data: Address) -> (r: Value)
        ensures
            r@ == ValueView::Address(data.0),
    {
        broadcast use lemma_view;

        Value(crate::value::Value::Address(data.0))
    }

    /// A subnet, where the prefix is no longer than the address.
    pub fn zws_value_new_subnet(addr: Address, prefix: u8) -> (r: Option<Value>)
        ensures
            value_option(r) == if prefix <= addr.0.width() {
                Some(ValueView::Subnet((addr.0, prefix)))
            } else {
                None
            },
    {
        broadcast use lemma_view;

        match IpNetwork::new(addr.0, prefix) {
            Ok(n) => Some(Value(crate::value::Value::Subnet(n))),
            Err(_) => None,
        }
    }

    /// A port.
    pub fn zws_value_new_port(port: Port) -> (r: Value)
        ensures
            r@ == ValueView::Port(port.inner()),
    {
        broadcast use lemma_view;

        Value(crate::value::Value::Port(crate::port::Port::from(port)))
    }

    /// A vector of copies of the values.
    pub fn zws_value_new_vector(values: &Vec<Value>) -> (r: Value)
        ensures
            r@ == ValueView::Vector(views(values@)),
    {
        broadcast use lemma_view;

        Value(crate::value::Value::Vector(unwrap_all(values)))
    }

    /// A set of copies of the values.
    pub fn zws_value_new_set(values: &Vec<Value>) -> (r: Value)
        ensures
            r@ == ValueView::SetOf(collected::<crate::value::Value>(views(values@), true)),
    {
        broadcast use lemma_view;

        Value(crate::value::Value::SetOf(ValueSet::from_values(unwrap_all(values))))
    }

    /// A table of copies of the entries.
    pub fn zws_value_new_table(values: &Vec<TableEntry>) -> (r: Value)
        ensures
            r@ == ValueView::Table(collected::<crate::value::TableEntry>(views(values@), true)),
    {
        broadcast use lemma_view;

        let mut entries: Vec<crate::value::TableEntry> = Vec::new();
        let mut i: usize = 0;
        while i < values.len()
            invariant
                i <= values.len(),
                entries.len() == i,
                forall|j: int| 0 <= j < i ==> entries@[j]@ == (#[trigger] values@[j])@,
            decreases values.len() - i,
        {
            let entry = TableEntry { key: values[i].key.clone(), value: values[i].value.clone() };
            entries.push(crate::value::TableEntry::from(entry));
            i = i + 1;
        }
        assert(views(entries@) =~= views(values@));
        Value(crate::value::Value::Table(ValueTable::from_entries(entries)))
    }

    /// The kind of the value.
    pub fn zws_value_type(&self) -> (r: ValueType)
        ensures
            r == ValueType::of(self@),
    {
        broadcast use lemma_view;

        match self.0 {
            crate::value::Value::Nil => ValueType::Nil,
            crate::value::Value::Boolean(_) => ValueType::Boolean,
            crate::value::Value::Count(_) => ValueType::Count,
            crate::value::Value::Integer(_) => ValueType::Integer,
            crate::value::Value::Real(_) => ValueType::Real,
            crate::value::Value::Timespan(_) => ValueType::Timespan,
            crate::value::Value::Timestamp(_) => ValueType::Timestamp,
            crate::value::Value::String(_) => ValueType::String,
            crate::value::Value::EnumValue(_) => ValueType::EnumValue,
            crate::value::Value::Address(_) => ValueType::Address,
            crate::value::Value::Subnet(_) => ValueType::Subnet,
            crate::value::Value::Port(_) => ValueType::Port,
            crate::value::Value::Vector(_) => ValueType::Vector,
            crate::value::Value::SetOf(_) => ValueType::SetOf,
            crate::value::Value::Table(_) => ValueType::Table,
        }
    }

    /// Gives the boolean out, if the value is one.
    pub fn zws_value_as_bool(&self, result: &mut bool) -> (r: bool)
        ensures
            match self@ {
                ValueView::Boolean(x) => r && *final(result) == x,
                _ => !r && *final(result) == *old(result),
            },
    {
        broadcast use lemma_view;

        match &self.0 {
            crate::value::Value::Boolean(x) => {
                *result = *x;
                true
            },
            _ => false,
        }
    }

    /// Gives the count out, if the value is one.
    pub fn zws_value_as_count(&self, result: &mut u64) -> (r: bool)
        ensures
            match self@ {
                ValueView::Count(x) => r && *final(result) == x,
                _ => !r && *final(result) == *old(result),
            },
    {
        broadcast use lemma_view;

        match &self.0 {
            crate::value::Value::Count(x) => {
                *result = *x;
                true
            },
            _ => false,
        }
    }

    /// Gives the integer out, if the value is one.
    pub fn zws_value_as_integer(&self, result: &mut i64) -> (r: bool)
        ensures
            match self@ {
                ValueView::Integer(x) => r && *final(result) == x,
                _ => !r && *final(result) == *old(result),
            },
    {
        broadcast use lemma_view;

        match &self.0 {
            crate::value::Value::Integer(x) => {
                *result = *x;
                true
            },
            _ => false,
        }
    }

    /// Gives the real number out, if the value is one.
    pub fn zws_value_as_real(&self, result: &mut Real) -> (r: bool)
        ensures
            match self@ {
                ValueView::Real(x) => r && *final(result) == x,
                _ => !r && *final(result) == *old(result),
            },
    {
        broadcast use lemma_view;

        match &self.0 {
            crate::value::Value::Real(x) => {
                *result = *x;
                true
            },
            _ => false,
        }
    }

    /// Gives the nanoseconds of a timespan out, if the value is one and they fit.
    pub fn zws_value_as_timespan(&self, result: &mut i64) -> (r: bool)
        ensures
            match self@ {
                ValueView::Timespan(x) => if i64::MIN <= x <= i64::MAX {
                    r && *final(result) == x
                } else {
                    !r && *final(result) == *old(result)
                },
                _ => !r && *final(result) == *old(result),
            },
    {
        broadcast use lemma_view;

        match &self.0 {
            crate::value::Value::Timespan(x) => {
                let nanos: i128 = x.nanoseconds();
                if (i64::MIN as i128) <= nanos && nanos <= (i64::MAX as i128) {
                    *result = nanos as i64;
                    true
                } else {
                    false
                }
            },
            _ => false,
        }
    }

    /// Gives the nanoseconds from the start of 1970 in UTC out, if the value is a point in time and
    /// they fit.
    pub fn zws_value_as_timestamp(&self, result: &mut i64) -> (r: bool)
        ensures
            match self@ {
                ValueView::Timestamp(x) => if i64::MIN <= x.0 <= i64::MAX {
                    r && *final(result) == x.0
                } else {
                    !r && *final(result) == *old(result)
                },
                _ => !r && *final(result) == *old(result),
            },
    {
        broadcast use lemma_view;

        match &self.0 {
            crate::value::Value::Timestamp(x) => {
                let nanos: i128 = x.nanoseconds();
                if (i64::MIN as i128) <= nanos && nanos <= (i64::MAX as i128) {
                    *result = nanos as i64;
                    true
                } else {
                    false
                }
            },
            _ => false,
        }
    }

    /// The text of a string, if the value is one.
    pub fn zws_value_as_string(&self) -> (r: Option<&str>)
        ensures
            match self@ {
                ValueView::String(x) => r matches Some(s) && s@ == x,
                _ => r is None,
            },
    {
        broadcast use lemma_view;

        match &self.0 {
            crate::value::Value::String(x) => Some(x.as_str()),
            _ => None,
        }
    }

    /// The text of an enum value, if the value is one.
    pub fn zws_value_as_enumvalue(&self) -> (r: Option<&str>)
        ensures
            match self@ {
                ValueView::EnumValue(x) => r matches Some(s) && s@ == x,
                _ => r is None,
            },
    {
        broadcast use lemma_view;

        match &self.0 {
            crate::value::Value::EnumValue(x) => Some(x.as_str()),
            _ => None,
        }
    }

    /// Gives the address out, if the value is one.
    pub fn zws_value_as_address(&self, result: &mut Address) -> (r: bool)
        ensures
            match self@ {
                ValueView::Address(x) => r && *final(result) == Address(x),
                _ => !r && *final(result) == *old(result),
            },
    {
        broadcast use lemma_view;

        match &self.0 {
            crate::value::Value::Address(x) => {
                *result = Address(*x);
                true
            },
            _ => false,
        }
    }

    /// Gives the subnet out, if the value is one.
    pub fn zws_value_as_subnet(&self, result: &mut Subnet) -> (r: bool)
        ensures
            match self@ {
                ValueView::Subnet(x) => r && *final(result) == (Subnet {
                    addr: Address(x.0),
                    prefix: x.1,
                }),
                _ => !r && *final(result) == *old(result),
            },
    {
        broadcast use lemma_view;

        match &self.0 {
            crate::value::Value::Subnet(x) => {
                *result = Subnet { addr: Address(x.ip()), prefix: x.prefix() };
                true
            },
            _ => false,
        }
    }

    /// Gives the port out, if the value is one.
    pub fn zws_value_as_port(&self, result: &mut Port) -> (r: bool)
        ensures
            match self@ {
                ValueView::Port(x) => r && final(result).inner() == x,
                _ => !r && *final(result) == *old(result),
            },
    {
        broadcast use lemma_view;

        match &self.0 {
            crate::value::Value::Port(x) => {
                *result = Port::from(*x);
                true
            },
            _ => false,
        }
    }

    /// Gives the values of a vector out, if the value is one.
    pub fn zws_value_as_vector(self, result: &mut List) -> (r: bool)
        ensures
            match self@ {
                ValueView::Vector(xs) => r && final(result)@ == xs,
                _ => !r && *final(result) == *old(result),
            },
    {
        broadcast use lemma_view;

        match &self.0 {
            crate::value::Value::Vector(x) => {
                result.0 = wrap_all(x);
                true
            },
            _ => false,
        }
    }

    /// Gives the values of a set out, if the value is one.
    pub fn zws_value_as_set(self, result: &mut List) -> (r: bool)
        ensures
            match self@ {
                ValueView::SetOf(xs) => r && final(result)@ == xs,
                _ => !r && *final(result) == *old(result),
            },
    {
        broadcast use lemma_view;

        match &self.0 {
            crate::value::Value::SetOf(x) => {
                result.0 = wrap_all(x.items());
                true
            },
            _ => false,
        }
    }

    /// Gives the entries of a table out, if the value is one.
    pub fn zws_value_as_table(self, result: &mut Table) -> (r: bool)
        ensures
            match self@ {
                ValueView::Table(xs) => r && final(result)@ == xs,
                _ => !r && *final(result) == *old(result),
            },
    {
        broadcast use lemma_view;

        match &self.0 {
            crate::value::Value::Table(x) => {
                let entries = x.entries();
                let mut out: Vec<(Value, Value)> = Vec::new();
                let mut i: usize = 0;
                while i < entries.len()
                    invariant
                        i <= entries.len(),
                        out.len() == i,
                        forall|j: int|
                            0 <= j < i ==> (out@[j].0@, out@[j].1@) == (#[trigger] entries@[j])@,
                    decreases entries.len() - i,
                {
                    out.push((Value(entries[i].key.clone()), Value(entries[i].value.clone())));
                    i = i + 1;
                }
                result.0 = out;
                assert(result@ =~= views(entries@));
                true
            },
            _ => false,
        }
    }
}

/// Several values.
#[derive(Debug)]
pub struct List(pub Vec<Value>);

impl View for List {
    type V = Seq<ValueView>;

    open spec fn view(&self) -> Seq<ValueView> {
        views(self.0@)
    }
}

impl List {
    pub fn zws_list_new(values: Vec<Value>) -> (r: List)
        ensures
            r@ == views(values@),
    {
        List(values)
    }

    pub fn zws_list_size(&self) -> (r: usize)
        ensures
            r == self@.len(),
    {
        self.0.len()
    }

    /// The value at a place, where there is one.
    pub fn zws_list_entry(&self, n: usize) -> (r: Option<&Value>)
        ensures
            match r {
                Some(v) => n < self@.len() && v@ == self@[n as int],
                None => n >= self@.len(),
            },
    {
        if n < self.0.len() {
            Some(&self.0[n])
        } else {
            None
        }
    }
}

/// Entries of a table.
#[derive(Debug)]
pub struct Table(pub Vec<(Value, Value)>);

impl View for Table {
    type V = Seq<(ValueView, ValueView)>;

    open spec fn view(&self) -> Seq<(ValueView, ValueView)> {
        Seq::new(self.0@.len(), |i: int| (self.0@[i].0@, self.0@[i].1@))
    }
}

/// What the first entry holds whose key counts as equal to this one.
pub open spec fn looked_up(t: Seq<(ValueView, ValueView)>, key: ValueView) -> Option<ValueView>
    decreases t.len(),
{
    if t.len() == 0 {
        None
    } else if same_value(t[0].0, key) {
        Some(t[0].1)
    } else {
        looked_up(t.drop_first(), key)
    }
}

/// The first entry with an equal key is found, and none where no key is equal.
pub proof fn first_entries_are_found(t: Seq<(ValueView, ValueView)>, key: ValueView, n: int)
    requires
        forall|i: int| 0 <= i < n && i < t.len() ==> !same_value((#[trigger] t[i]).0, key),
    ensures
        0 <= n < t.len() && same_value(t[n].0, key) ==> looked_up(t, key) == Some(t[n].1),
        n >= t.len() ==> looked_up(t, key) == None::<ValueView>,
    decreases t.len(),
{
    if t.len() > 0 && n > 0 {
        let rest = t.drop_first();
        assert(!same_value(t[0].0, key));
        assert forall|i: int| 0 <= i < n - 1 && i < rest.len() implies !same_value(
            (#[trigger] rest[i]).0,
            key,
        ) by {
            assert(rest[i] == t[i + 1]);
        }
        first_entries_are_found(rest, key, n - 1);
    }
}

/// Every entry of a table is found by its key.
pub proof fn entries_are_found(t: Seq<(ValueView, ValueView)>, i: int)
    requires
        sorted::<crate::value::TableEntry>(t),
        0 <= i < t.len(),
    ensures
        looked_up(t, t[i].0) == Some(t[i].1),
    decreases t.len(),
{
    if i > 0 {
        let rest = t.drop_first();
        let first = crate::value::TableEntry::key_of(t[0]);
        let wanted = crate::value::TableEntry::key_of(t[i]);
        assert(key_order(first, wanted) == Order::Less);
        lemma_key_equal(first, wanted);
        assert forall|a: int, b: int|
            #![trigger rest[a], rest[b]]
            0 <= a < b < rest.len() implies key_order(
            crate::value::TableEntry::key_of(rest[a]),
            crate::value::TableEntry::key_of(rest[b]),
        ) == Order::Less by {
            assert(rest[a] == t[a + 1] && rest[b] == t[b + 1]);
        }
        assert(rest[i - 1] == t[i]);
        entries_are_found(rest, i - 1);
    }
}

impl Table {
    /// The keys.
    pub fn zws_table_keys(&self) -> (r: List)
        ensures
            r@ == self@.map_values(|e: (ValueView, ValueView)| e.0),
    {
        let mut out: Vec<Value> = Vec::new();
        let mut i: usize = 0;
        while i < self.0.len()
            invariant
                i <= self.0.len(),
                out.len() == i,
                forall|j: int| 0 <= j < i ==> out@[j]@ == (#[trigger] self.0@[j]).0@,
            decreases self.0.len() - i,
        {
            out.push(self.0[i].0.clone());
            i = i + 1;
        }
        let r = List(out);
        assert(r@ =~= self@.map_values(|e: (ValueView, ValueView)| e.0));
        r
    }

    /// What the table holds under a key.
    pub fn zws_table_get(&self, key: &Value) -> (r: Option<&Value>)
        ensures
            match r {
                Some(v) => looked_up(self@, key@) == Some(v@),
                None => looked_up(self@, key@) == None::<ValueView>,
            },
    {
        let mut i: usize = 0;
        assert(self@.skip(0) =~= self@);
        while i < self.0.len()
            invariant
                i <= self.0.len(),
                looked_up(self@, key@) == looked_up(self@.skip(i as int), key@),
            decreases self.0.len() - i,
        {
            assert(self@.skip(i as int)[0] == (self.0@[i as int].0@, self.0@[i as int].1@));
            assert(self@.skip(i as int).drop_first() =~= self@.skip(i + 1));
            if self.0[i].0 == *key {
                return Some(&self.0[i].1);
            }
            i = i + 1;
        }
        None
    }
}

/// The number that bytes stand for, most significant first.
pub open spec fn big_endian(bytes: Seq<u8>) -> nat
    decreases bytes.len(),
{
    if bytes.len() == 0 {
        0
    } else {
        big_endian(bytes.drop_last()) * 256 + bytes.last() as nat
    }
}

/// How many numbers so many bytes can stand for.
pub open spec fn byte_range(n: nat) -> nat
    decreases n,
{
    if n == 0 {
        1
    } else {
        256 * byte_range((n - 1) as nat)
    }
}

proof fn lemma_big_endian_range(bytes: Seq<u8>)
    ensures
        big_endian(bytes) < byte_range(bytes.len()),
    decreases bytes.len(),
{
    if bytes.len() > 0 {
        lemma_big_endian_range(bytes.drop_last());
    }
}

/// Numbers of different bytes differ.
proof fn lemma_big_endian_distinct(a: Seq<u8>, b: Seq<u8>)
    requires
        a.len() == b.len(),
        big_endian(a) == big_endian(b),
    ensures
        a == b,
    decreases a.len(),
{
    if a.len() > 0 {
        lemma_big_endian_distinct(a.drop_last(), b.drop_last());
        assert(a =~= a.drop_last().push(a.last()));
        assert(b =~= b.drop_last().push(b.last()));
    } else {
        assert(a =~= b);
    }
}

/// The bytes in front count for more: what four bytes stand for, and what bytes stand for with four
/// more behind them.
pub proof fn bytes_in_network_order(a: u8, b: u8, c: u8, d: u8, front: Seq<u8>)
    ensures
        big_endian(seq![a, b, c, d]) == a * 0x100_0000 + b * 0x1_0000 + c * 0x100 + d,
        big_endian(front + seq![a, b, c, d]) == big_endian(front) * 0x1_0000_0000 + big_endian(
            seq![a, b, c, d],
        ),
{
    let s = Seq::<u8>::empty();
    lemma_four_bytes(s, a, b, c, d);
    lemma_four_bytes(front, a, b, c, d);
    assert(s + seq![a, b, c, d] =~= seq![a, b, c, d]);
}

proof fn lemma_four_bytes(front: Seq<u8>, a: u8, b: u8, c: u8, d: u8)
    ensures
        big_endian(front + seq![a, b, c, d]) == big_endian(front) * 0x1_0000_0000 + a * 0x100_0000
            + b * 0x1_0000 + c * 0x100 + d,
{
    let s = front + seq![a, b, c, d];
    let s3 = s.drop_last();
    let s2 = s3.drop_last();
    let s1 = s2.drop_last();
    assert(s.last() == d && s3.last() == c && s2.last() == b && s1.last() == a);
    assert(s1.drop_last() =~= front);
    assert(big_endian(s1) == big_endian(front) * 256 + a);
    assert(big_endian(s2) == big_endian(s1) * 256 + b);
    assert(big_endian(s3) == big_endian(s2) * 256 + c);
    assert(big_endian(s) == big_endian(s3) * 256 + d);
}

proof fn lemma_byte_ranges()
    ensures
        byte_range(4) == 0x1_0000_0000,
        byte_range(16) == 0x1_0000_0000_0000_0000_0000_0000_0000_0000,
{
    reveal_with_fuel(byte_range, 17);
}

proof fn lemma_byte_range_grows(m: nat, n: nat)
    requires
        m <= n,
    ensures
        byte_range(m) <= byte_range(n),
        byte_range(m) > 0,
    decreases n,
{
    if m < n {
        lemma_byte_range_grows(m, (n - 1) as nat);
    } else if m > 0 {
        lemma_byte_range_grows((m - 1) as nat, (m - 1) as nat);
    }
}

fn from_bytes(bytes: &[u8]) -> (r: u128)
    requires
        bytes@.len() <= 16,
    ensures
        r == big_endian(bytes@),
        r < byte_range(bytes@.len()),
{
    let mut r: u128 = 0;
    let mut i: usize = 0;
    while i < bytes.len()
        invariant
            i <= bytes@.len() <= 16,
            r == big_endian(bytes@.take(i as int)),
        decreases bytes.len() - i,
    {
        assert(bytes@.take(i + 1).drop_last() =~= bytes@.take(i as int));
        proof {
            lemma_big_endian_range(bytes@.take(i + 1));
            lemma_byte_range_grows((i + 1) as nat, 16);
            lemma_byte_ranges();
        }
        r = r * 256 + bytes[i] as u128;
        i = i + 1;
    }
    assert(bytes@.take(i as int) =~= bytes@);
    proof {
        lemma_big_endian_range(bytes@);
    }
    r
}

/// So many bytes that stand for a number.
fn to_bytes(n: u128, len: usize) -> (r: Vec<u8>)
    requires
        n < byte_range(len as nat),
    ensures
        r.len() == len,
        big_endian(r@) == n,
    decreases len,
{
    if len == 0 {
        Vec::new()
    } else {
        assert(n / 256 < byte_range((len - 1) as nat)) by {
            assert(n < 256 * byte_range((len - 1) as nat));
        }
        let mut out = to_bytes(n / 256, len - 1);
        let ghost front = out@;
        out.push((n % 256) as u8);
        assert(out@.drop_last() =~= front);
        out
    }
}

/// An internet address.
#[derive(Debug, Clone, Copy, PartialEq, Eq, Structural)]
pub struct Address(pub IpAddr);

impl Address {
    /// The IPv4 address of four bytes in network order.
    pub fn zws_address_new_v4(data: &[u8; 4]) -> (r: Address)
        ensures
            r.0 matches IpAddr::V4(x) && x == big_endian(data@),
    {
        proof {
            lemma_byte_ranges();
        }
        Address(IpAddr::V4(from_bytes(data.as_slice()) as u32))
    }

    /// The IPv6 address of sixteen bytes in network order.
    pub fn zws_address_new_v6(data: &[u8; 16]) -> (r: Address)
        ensures
            r.0 matches IpAddr::V6(x) && x == big_endian(data@),
    {
        Address(IpAddr::V6(from_bytes(data.as_slice())))
    }

    pub fn zws_address_is_v6(&self) -> (r: bool)
        ensures
            r == (self.0 is V6),
    {
        match self.0 {
            IpAddr::V4(_) => false,
            IpAddr::V6(_) => true,
        }
    }

    /// Gives the four bytes of an IPv4 address out in network order, if the address is one.
    pub fn zws_address_as_v4(&self, result: &mut [u8; 4]) -> (r: bool)
        ensures
            match self.0 {
                IpAddr::V4(x) => r && big_endian(final(result)@) == x,
                IpAddr::V6(_) => !r && *final(result) == *old(result),
            },
    {
        match self.0 {
            IpAddr::V4(x) => {
                proof {
                    lemma_byte_ranges();
                }
                let bytes = to_bytes(x as u128, 4);
                *result = [bytes[0], bytes[1], bytes[2], bytes[3]];
                assert(result@ =~= bytes@);
                true
            },
            IpAddr::V6(_) => false,
        }
    }

    /// Gives the sixteen bytes of an IPv6 address out in network order, if the address is one.
    pub fn zws_address_as_v6(&self, result: &mut [u8; 16]) -> (r: bool)
        ensures
            match self.0 {
                IpAddr::V6(x) => r && big_endian(final(result)@) == x,
                IpAddr::V4(_) => !r && *final(result) == *old(result),
            },
    {
        match self.0 {
            IpAddr::V6(x) => {
                proof {
                    lemma_byte_ranges();
                }
                let b = to_bytes(x, 16);
                *result = [
                    b[0],
                    b[1],
                    b[2],
                    b[3],
                    b[4],
                    b[5],
                    b[6],
                    b[7],
                    b[8],
                    b[9],
                    b[10],
                    b[11],
                    b[12],
                    b[13],
                    b[14],
                    b[15],
                ];
                assert(result@ =~= b@);
                true
            },
            IpAddr::V4(_) => false,
        }
    }

    /// The bytes that an address gives out are those that it was made from.
    pub proof fn bytes_read_back(given: Seq<u8>, out: Seq<u8>)
        requires
            given.len() == out.len(),
            big_endian(out) == big_endian(given),
        ensures
            out == given,
    {
        lemma_big_endian_distinct(out, given);
    }
}

/// An address and the length of its prefix.
#[derive(Debug, Clone, Copy, PartialEq, Eq, Structural)]
pub struct Subnet {
    pub addr: Address,
    pub prefix: u8,
}

/// A network protocol.
#[derive(Debug, Clone, Copy, PartialEq, Eq, Structural)]
pub enum Protocol {
    TCP,
    UDP,
    ICMP,
    UNKNOWN,
}

impl Protocol {
    /// The protocol that it stands for.
    pub open spec fn inner(self) -> crate::port::Protocol {
        match self {
            Protocol::TCP => crate::port::Protocol::TCP,
            Protocol::UDP => crate::port::Protocol::UDP,
            Protocol::ICMP => crate::port::Protocol::ICMP,
            Protocol::UNKNOWN => crate::port::Protocol::UNKNOWN,
        }
    }
}

impl From<Protocol> for crate::port::Protocol {
    fn from(value: Protocol) -> (r: crate::port::Protocol) {
        match value {
            Protocol::TCP => crate::port::Protocol::TCP,
            Protocol::UDP => crate::port::Protocol::UDP,
            Protocol::ICMP => crate::port::Protocol::ICMP,
            Protocol::UNKNOWN => crate::port::Protocol::UNKNOWN,
        }
    }
}

impl FromSpecImpl<Protocol> for crate::port::Protocol {
    open spec fn obeys_from_spec() -> bool {
        true
    }

    open spec fn from_spec(value: Protocol) -> crate::port::Protocol {
        value.inner()
    }
}

impl From<crate::port::Protocol> for Protocol {
    fn from(value: crate::port::Protocol) -> (r: Protocol) {
        match value {
            crate::port::Protocol::TCP => Protocol::TCP,
            crate::port::Protocol::UDP => Protocol::UDP,
            crate::port::Protocol::ICMP => Protocol::ICMP,
            crate::port::Protocol::UNKNOWN => Protocol::UNKNOWN,
        }
    }
}

impl FromSpecImpl<crate::port::Protocol> for Protocol {
    open spec fn obeys_from_spec() -> bool {
        true
    }

    open spec fn from_spec(value: crate::port::Protocol) -> Protocol {
        match value {
            crate::port::Protocol::TCP => Protocol::TCP,
            crate::port::Protocol::UDP => Protocol::UDP,
            crate::port::Protocol::ICMP => Protocol::ICMP,
            crate::port::Protocol::UNKNOWN => Protocol::UNKNOWN,
        }
    }
}

/// A port.
#[derive(Debug, Clone, Copy, PartialEq, Eq, Structural)]
pub struct Port {
    pub number: u16,
    pub protocol: Protocol,
}

impl Port {
    /// The port that it stands for.
    pub open spec fn inner(self) -> crate::port::Port {
        crate::port::Port::of(self.number, self.protocol.inner())
    }
}

impl Port {
    /// A port of C code stands for the one that is written with the same number and with the name
    /// of the same protocol, and protocols go both ways.
    pub proof fn ports_in_writing(number: u16)
        ensures
            (Port { number, protocol: Protocol::TCP }).inner().text() == integer_text(number as int)
                + "/tcp"@,
            (Port { number, protocol: Protocol::UDP }).inner().text() == integer_text(number as int)
                + "/udp"@,
            (Port { number, protocol: Protocol::ICMP }).inner().text() == integer_text(
                number as int,
            ) + "/icmp"@,
            (Port { number, protocol: Protocol::UNKNOWN }).inner().text() == integer_text(
                number as int,
            ) + "/?"@,
            forall|p: Protocol| #[trigger]
                <Protocol as FromSpec<crate::port::Protocol>>::from_spec(p.inner()) == p,
            forall|p: Protocol| #[trigger]
                <crate::port::Protocol as FromSpec<Protocol>>::from_spec(p) == p.inner(),
            forall|p: Port| #[trigger]
                <crate::port::Port as FromSpec<Port>>::from_spec(p) == p.inner(),
    {
        crate::port::Port::ports_in_writing(number);
    }
}

impl From<Port> for crate::port::Port {
    fn from(value: Port) -> (r: crate::port::Port) {
        crate::port::Port::new(value.number, crate::port::Protocol::from(value.protocol))
    }
}

impl FromSpecImpl<Port> for crate::port::Port {
    open spec fn obeys_from_spec() -> bool {
        true
    }

    open spec fn from_spec(value: Port) -> crate::port::Port {
        value.inner()
    }
}

impl From<crate::port::Port> for Port {
    fn from(value: crate::port::Port) -> (r: Port)
        ensures
            r.inner() == value,
    {
        broadcast use crate::port::Port::lemma_parts;

        Port { number: value.number(), protocol: Protocol::from(value.protocol()) }
    }
}

impl FromSpecImpl<crate::port::Port> for Port {
    open spec fn obeys_from_spec() -> bool {
        false
    }

    open spec fn from_spec(value: crate::port::Port) -> Port {
        arbitrary()
    }
}

/// A Zeek event.
#[derive(Debug)]
pub struct Event(pub crate::message::Event);

/// The values of a list, where there is one.
pub open spec fn list_values(list: Option<List>) -> Seq<ValueView> {
    match list {
        Some(l) => l@,
        None => Seq::empty(),
    }
}

/// A list gives its values in their order, and no list gives none.
pub proof fn lists_give_values(l: List, i: int)
    ensures
        list_values(None).len() == 0,
        list_values(Some(l)).len() == l.0@.len(),
        0 <= i < l.0@.len() ==> list_values(Some(l))[i] == l.0@[i]@,
{
}

impl Event {
    /// An event, where the name is UTF-8.
    pub fn zws_event_new(name: &[u8], args: List, metadata: Option<List>) -> (r: Option<Event>)
        ensures
            match r {
                Some(e) => utf8_decoded(name@) == Some(e.0@.name) && e.0@.args == args@
                    && e.0@.metadata == list_values(metadata),
                None => utf8_decoded(name@) is None,
            },
    {
        let name = match utf8_text(name) {
            Some(name) => name,
            None => {
                return None;
            },
        };
        let metadata = match metadata {
            Some(list) => unwrap_all(&list.0),
            None => {
                let none: Vec<crate::value::Value> = Vec::new();
                assert(views(none@) =~= Seq::empty());
                none
            },
        };
        Some(Event(crate::message::Event { name, args: unwrap_all(&args.0), metadata }))
    }

    pub fn zws_event_name(&self) -> (r: &str)
        ensures
            r@ == self.0@.name,
    {
        self.0.name.as_str()
    }

    pub fn zws_event_args(&self) -> (r: List)
        ensures
            r@ == self.0@.args,
    {
        List(wrap_all(&self.0.args))
    }

    pub fn zws_event_metadata(&self) -> (r: List)
        ensures
            r@ == self.0@.metadata,
    {
        List(wrap_all(&self.0.metadata))
    }
}

/// Configuration of a client.
#[derive(Debug, Clone, Copy, PartialEq, Eq, Structural)]
pub struct ClientConfig {
    /// How many events may be handed over before one is sent. Not zero.
    pub outbox_size: usize,
}

impl ClientConfig {
    pub fn zws_clientconfig_new() -> (r: ClientConfig)
        ensures
            r.outbox_size == 256,
    {
        ClientConfig::default()
    }

    /// The configuration of the service, where there is room for an event.
    pub fn service_config(&self) -> (r: Option<ServiceConfig>)
        ensures
            match r {
                Some(c) => c.spec_outbox_size() == self.outbox_size && self.outbox_size > 0,
                None => self.outbox_size == 0,
            },
    {
        ServiceConfig::new(self.outbox_size)
    }
}

impl Default for ClientConfig {
    fn default() -> (r: ClientConfig)
        ensures
            r.outbox_size == 256,
    {
        ClientConfig { outbox_size: ServiceConfig::default().outbox_size() }
    }
}

/// What kind of error a client ran into.
#[derive(Debug, Clone, Copy, PartialEq, Eq, Structural)]
pub enum ClientError {
    Runtime,
    InvalidUri,
    InvalidTopic,
    UnexpectedMessage,
    Transport,
    Zeek,
}

impl ClientError {
    /// The kind of a protocol error.
    pub open spec fn of_protocol(e: ProtocolErrorView) -> ClientError {
        match e {
            ProtocolErrorView::ZeekError { .. } => ClientError::Zeek,
            ProtocolErrorView::AlreadySubscribed => ClientError::Transport,
            _ => ClientError::UnexpectedMessage,
        }
    }

    /// The kind of an error that ends a client.
    pub open spec fn of_client(e: ErrorView) -> ClientError {
        match e {
            ErrorView::Transport(_) => ClientError::Transport,
            ErrorView::ProtocolError(e) => ClientError::of_protocol(e),
        }
    }
}

impl ClientError {
    /// What the server reports is a Zeek error, a second subscription and what the transport
    /// reports are transport errors, and what cannot be made sense of is an unexpected message.
    pub proof fn errors_have_kinds(e: ProtocolErrorView, s: Seq<char>, p: ProtocolError)
        ensures
            e is ZeekError ==> ClientError::of_protocol(e) == ClientError::Zeek,
            e is AlreadySubscribed ==> ClientError::of_protocol(e) == ClientError::Transport,
            e is AckExpected ==> ClientError::of_protocol(e) == ClientError::UnexpectedMessage,
            e is DeserializationError ==> ClientError::of_protocol(e)
                == ClientError::UnexpectedMessage,
            e is UnexpectedEventPayload ==> ClientError::of_protocol(e)
                == ClientError::UnexpectedMessage,
            ClientError::of_client(ErrorView::Transport(s)) == ClientError::Transport,
            ClientError::of_client(ErrorView::ProtocolError(e)) == ClientError::of_protocol(e),
            <ClientError as FromSpec<&ProtocolError>>::from_spec(&p) == ClientError::of_protocol(
                p@,
            ),
    {
    }
}

impl<'a> From<&'a ProtocolError> for ClientError {
    fn from(value: &'a ProtocolError) -> (r: ClientError) {
        match value {
            ProtocolError::ZeekError { code: _, context: _ } => ClientError::Zeek,
            ProtocolError::AckExpected => ClientError::UnexpectedMessage,
            ProtocolError::DeserializationError(_) => ClientError::UnexpectedMessage,
            ProtocolError::UnexpectedEventPayload(_) => ClientError::UnexpectedMessage,
            ProtocolError::AlreadySubscribed => ClientError::Transport,
        }
    }
}

impl<'a> FromSpecImpl<&'a ProtocolError> for ClientError {
    open spec fn obeys_from_spec() -> bool {
        true
    }

    open spec fn from_spec(value: &'a ProtocolError) -> ClientError {
        ClientError::of_protocol(value@)
    }
}

/// The text up to the first NUL.
pub open spec fn before_nul(s: Seq<char>) -> Seq<char> {
    match first_index(s, '\0') {
        Some(i) => s.take(i),
        None => s,
    }
}

/// The text up to the first NUL, which a C string can hold.
pub fn safe_string(s: &str) -> (r: String)
    ensures
        r@ == before_nul(s@),
{
    let cs = chars_of(s);
    let end: usize = match find_char(&cs, '\0') {
        Some(i) => i,
        None => cs.len(),
    };
    assert(cs@.subrange(0, end as int) =~= before_nul(s@));
    string_of(&cs, 0, end)
}

/// A text up to its first NUL has no NUL.
pub proof fn safe_string_has_no_nul(s: Seq<char>)
    ensures
        !before_nul(s).contains('\0'),
{
    crate::text::lemma_first_index(s, '\0');
}

/// A text without a NUL is kept whole, and one with a NUL is kept up to the first.
pub proof fn texts_end_at_nul(s: Seq<char>, rest: Seq<char>)
    requires
        !s.contains('\0'),
    ensures
        before_nul(s) == s,
        before_nul(s + seq!['\0'] + rest) == s,
{
    crate::text::lemma_first_index_none(s, '\0');
    let all = s + seq!['\0'] + rest;
    assert forall|i: int| 0 <= i < s.len() implies all[i] != '\0' by {
        assert(s.contains(s[i]));
    }
    crate::text::lemma_first_index_is(all, '\0', s.len() as int);
    assert(all.take(s.len() as int) =~= s);
}

/// What a caller is told of an error: its kind, and text that a C string can hold.
#[derive(Debug)]
pub struct Notice {
    pub code: ClientError,
    pub context: String,
}

/// What the error callback is told of a protocol error.
pub fn protocol_notice(e: &ProtocolError) -> (r: Notice)
    ensures
        r.code == ClientError::of_protocol(e@),
        r.context@ == before_nul(e@.text()),
{
    Notice { code: ClientError::from(e), context: safe_string(e.to_string().as_str()) }
}

/// What the error callback is told of an error that ended the client.
pub fn client_notice(e: &Error) -> (r: Notice)
    ensures
        r.code == ClientError::of_client(e@),
        r.context@ == before_nul(e@.text()),
{
    let code = match e {
        Error::Transport(_) => ClientError::Transport,
        Error::ProtocolError(p) => ClientError::from(p),
    };
    Notice { code, context: safe_string(e.to_string().as_str()) }
}

/// What the error callback is told where no background thread can be started.
pub fn runtime_notice(e: &str) -> (r: Notice)
    ensures
        r.code == ClientError::Runtime,
        r.context@ == before_nul("could not start background thread: "@ + e@ + ""@),
{
    Notice {
        code: ClientError::Runtime,
        context: safe_string(joined("could not start background thread: ", e, "").as_str()),
    }
}

/// What `tungstenite::http::Uri` says is wrong with a URI.
pub uninterp spec fn uri_error(s: Seq<char>) -> Option<Seq<char>>;

/// `tungstenite::http::Uri::from_str`: whether a text is a URI, and if it is not, why, is a
/// function of the text.
#[verifier::external_body]
fn check_uri(s: &str) -> (r: Option<String>)
    ensures
        match r {
            Some(e) => uri_error(s@) == Some(e@),
            None => uri_error(s@) is None,
        },
{
    match s.parse::<tungstenite::http::Uri>() {
        Ok(_) => None,
        Err(e) => Some(e.to_string()),
    }
}

/// What comes of the arguments that a client is made from.
#[derive(Debug)]
pub enum Setup {
    /// The name of the application is not UTF-8: there is no client, and nobody is told.
    Silent,
    /// There is no client, and the error callback is told why.
    Refused(Notice),
    /// A client can be made.
    Ready { app_name: String, topics: Vec<String>, uri: String },
}

/// What comes of the arguments that a client is made from, as mathematics has it.
pub enum SetupView {
    Silent,
    Refused { code: ClientError, context: Seq<char> },
    Ready { app_name: Seq<char>, topics: Seq<Seq<char>>, uri: Seq<char> },
}

impl View for Setup {
    type V = SetupView;

    open spec fn view(&self) -> SetupView {
        match self {
            Setup::Silent => SetupView::Silent,
            Setup::Refused(n) => SetupView::Refused { code: n.code, context: n.context@ },
            Setup::Ready { app_name, topics, uri } => SetupView::Ready {
                app_name: app_name@,
                topics: crate::subscriptions::texts(topics@),
                uri: uri@,
            },
        }
    }
}

/// The texts that several byte strings encode, where each encodes one.
pub open spec fn all_decoded(topics: Seq<Vec<u8>>) -> Option<Seq<Seq<char>>> {
    if forall|i: int| 0 <= i < topics.len() ==> utf8_decoded((#[trigger] topics[i])@) is Some {
        Some(Seq::new(topics.len(), |i: int| utf8_decoded(topics[i]@)->Some_0))
    } else {
        None
    }
}

fn decode_topics(topics: &Vec<Vec<u8>>) -> (r: Option<Vec<String>>)
    ensures
        match r {
            Some(s) => all_decoded(topics@) == Some(crate::subscriptions::texts(s@)),
            None => all_decoded(topics@) is None,
        },
{
    let mut out: Vec<String> = Vec::new();
    let mut i: usize = 0;
    while i < topics.len()
        invariant
            i <= topics.len(),
            out.len() == i,
            forall|j: int|
                0 <= j < i ==> utf8_decoded((#[trigger] topics@[j])@) == Some(out@[j]@),
        decreases topics.len() - i,
    {
        match utf8_text(topics[i].as_slice()) {
            Some(s) => {
                out.push(s);
            },
            None => {
                assert(utf8_decoded(topics@[i as int]@) is None);
                return None;
            },
        }
        i = i + 1;
    }
    assert(all_decoded(topics@)->Some_0 =~= crate::subscriptions::texts(out@));
    Some(out)
}

/// What comes of the arguments: the name of the application, the topics and the URI are looked
/// at in this order, and the first that is wrong decides.
pub open spec fn setup(
    app_name: Seq<u8>,
    uri: Seq<u8>,
    topics: Seq<Vec<u8>>,
    uri_error: spec_fn(Seq<char>) -> Option<Seq<char>>,
) -> SetupView {
    match utf8_decoded(app_name) {
        None => SetupView::Silent,
        Some(app_name) => match all_decoded(topics) {
            None => SetupView::Refused {
                code: ClientError::InvalidTopic,
                context: "one or more topic names include invalid UTF-8"@,
            },
            Some(topics) => match utf8_decoded(uri) {
                None => SetupView::Refused {
                    code: ClientError::InvalidUri,
                    context: "uri cannot contain literal NULL"@,
                },
                Some(uri) => match uri_error(uri) {
                    Some(e) => SetupView::Refused {
                        code: ClientError::InvalidUri,
                        context: before_nul("invalid uri: "@ + e + ""@),
                    },
                    None => SetupView::Ready { app_name, topics, uri },
                },
            },
        },
    }
}

/// Where the name of the application is no text nobody is told, a topic that is no text is refused
/// before the URI is looked at, and a URI that is no text or no URI is refused with the reason.
pub proof fn arguments_are_refused_in_order(
    app_name: Seq<u8>,
    uri: Seq<u8>,
    topics: Seq<Vec<u8>>,
    uri_error: spec_fn(Seq<char>) -> Option<Seq<char>>,
    i: int,
)
    ensures
        utf8_decoded(app_name) is None ==> setup(app_name, uri, topics, uri_error)
            == SetupView::Silent,
        utf8_decoded(app_name) is Some && 0 <= i < topics.len() && utf8_decoded(topics[i]@) is None
            ==> setup(app_name, uri, topics, uri_error) == (SetupView::Refused {
            code: ClientError::InvalidTopic,
            context: "one or more topic names include invalid UTF-8"@,
        }),
        utf8_decoded(app_name) is Some && topics_are_texts(topics) && utf8_decoded(uri) is None
            ==> setup(app_name, uri, topics, uri_error) == (SetupView::Refused {
            code: ClientError::InvalidUri,
            context: "uri cannot contain literal NULL"@,
        }),
        utf8_decoded(app_name) is Some && topics_are_texts(topics) ==> (utf8_decoded(
            uri,
        ) matches Some(u) ==> (uri_error(u) matches Some(e) ==> !e.contains('\0') ==> setup(
            app_name,
            uri,
            topics,
            uri_error,
        ) == (SetupView::Refused {
            code: ClientError::InvalidUri,
            context: "invalid uri: "@ + e,
        }))),
{
    if utf8_decoded(app_name) is Some && topics_are_texts(topics) {
        if let Some(u) = utf8_decoded(uri) {
            if let Some(e) = uri_error(u) {
                if !e.contains('\0') {
                    reveal_strlit("invalid uri: ");
                    reveal_strlit("");
                    let text = "invalid uri: "@ + e;
                    assert("invalid uri: "@ + e + ""@ =~= text);
                    assert(!text.contains('\0')) by {
                        assert forall|j: int| 0 <= j < text.len() implies text[j] != '\0' by {
                            if j >= "invalid uri: "@.len() {
                                assert(e.contains(e[j - "invalid uri: "@.len()]));
                            }
                        }
                    }
                    texts_end_at_nul(text, Seq::empty());
                }
            }
        }
    }
}

/// Every topic is text.
pub open spec fn topics_are_texts(topics: Seq<Vec<u8>>) -> bool {
    forall|i: int| 0 <= i < topics.len() ==> utf8_decoded((#[trigger] topics[i])@) is Some
}

/// Where all arguments are in order, a client is made from exactly them, with the topics in their
/// order.
pub proof fn arguments_are_kept(
    app_name: Seq<char>,
    uri: Seq<char>,
    topics: Seq<Vec<u8>>,
    texts: Seq<Seq<char>>,
    uri_error: spec_fn(Seq<char>) -> Option<Seq<char>>,
)
    requires
        uri_error(uri) is None,
        topics.len() == texts.len(),
        forall|i: int|
            0 <= i < topics.len() ==> (#[trigger] topics[i])@ == vstd::utf8::encode_utf8(texts[i]),
    ensures
        setup(
            vstd::utf8::encode_utf8(app_name),
            vstd::utf8::encode_utf8(uri),
            topics,
            uri_error,
        ) == (SetupView::Ready { app_name, topics: texts, uri }),
{
    broadcast use {vstd::utf8::encode_utf8_decode_utf8, vstd::utf8::encode_utf8_valid_utf8};

    assert forall|i: int| 0 <= i < topics.len() implies utf8_decoded((#[trigger] topics[i])@)
        == Some(texts[i]) by {
        assert(topics[i]@ == vstd::utf8::encode_utf8(texts[i]));
    }
    assert(all_decoded(topics)->Some_0 =~= texts);
}

/// The topic that an event is published to, where it is UTF-8.
pub fn publish_topic(topic: &[u8]) -> (r: Option<String>)
    ensures
        match r {
            Some(s) => utf8_decoded(topic@) == Some(s@),
            None => utf8_decoded(topic@) is None,
        },
{
    utf8_text(topic)
}

/// Looks at the arguments that a client is made from.
pub fn client_setup(app_name: &[u8], uri: &[u8], topics: &Vec<Vec<u8>>) -> (r: Setup)
    ensures
        r@ == setup(app_name@, uri@, topics@, |s: Seq<char>| uri_error(s)),
{
    let app_name = match utf8_text(app_name) {
        Some(s) => s,
        None => {
            return Setup::Silent;
        },
    };
    let topics = match decode_topics(topics) {
        Some(s) => s,
        None => {
            return Setup::Refused(
                Notice {
                    code: ClientError::InvalidTopic,
                    context: "one or more topic names include invalid UTF-8".to_owned(),
                },
            );
        },
    };
    let uri = match utf8_text(uri) {
        Some(s) => s,
        None => {
            return Setup::Refused(
                Notice {
                    code: ClientError::InvalidUri,
                    context: "uri cannot contain literal NULL".to_owned(),
                },
            );
        },
    };
    match check_uri(uri.as_str()) {
        Some(e) => Setup::Refused(invalid_uri(e.as_str())),
        None => Setup::Ready { app_name, topics, uri },
    }
}

/// What the error callback is told of something that is not a URI.
pub fn invalid_uri(e: &str) -> (r: Notice)
    ensures
        r.code == ClientError::InvalidUri,
        r.context@ == before_nul("invalid uri: "@ + e@ + ""@),
{
    Notice {
        code: ClientError::InvalidUri,
        context: safe_string(joined("invalid uri: ", e, "").as_str()),
    }
}

} // verus!
