//! How values are written as JSON and read back.
use vstd::prelude::*;

use serde_json::Value as JsonValue;

use crate::json::{
    field_at, fields_are_found, find_entry, invalid_type, json_array, json_as_real, json_bool,
    json_entries, json_fields, json_invalid_type, json_object, json_real, json_signed, json_text,
    json_tree, json_trees, json_unsigned, real_in, real_of, real_tree, signed_in, signed_tree,
    JsonView,
};
use crate::net::{addr_parsed, addr_text, network_parsed, network_text, IpAddr, IpNetwork};
use crate::port::{ParseError, ParseErrorView, Port};
use crate::scalar::{
    offset_view, timespan_fits, Real, SerializationError, SerializationErrorView, Timespan, TimespanError,
    TimespanErrorView, Timestamp, TimestampError, TimestampErrorView, UtcOffset,
};
use crate::sorted::{collected, lemma_collected_of_sorted, sorted, views, Ordered};
use crate::text::{decimal, format_integer, format_unsigned, integer_text, joined, same_text};
use crate::order::{key_order, Order};
use crate::value::{
    entry_keys, lemma_order_key, lemma_view, order_keys, same_value, TableEntry, Value, ValueSet,
    ValueTable, ValueView,
};

verus! {

/// The kinds of values.
#[derive(Debug, Clone, Copy, PartialEq, Eq, Structural)]
pub enum Kind {
    Nil,
    Boolean,
    Count,
    Integer,
    Real,
    Timespan,
    Timestamp,
    String,
    EnumValue,
    Address,
    Subnet,
    Port,
    Vector,
    SetOf,
    Table,
}

impl Kind {
    /// What the kind is called in JSON.
    pub open spec fn text(self) -> Seq<char> {
        match self {
            Kind::Nil => "none"@,
            Kind::Boolean => "boolean"@,
            Kind::Count => "count"@,
            Kind::Integer => "integer"@,
            Kind::Real => "real"@,
            Kind::Timespan => "timespan"@,
            Kind::Timestamp => "timestamp"@,
            Kind::String => "string"@,
            Kind::EnumValue => "enum-value"@,
            Kind::Address => "address"@,
            Kind::Subnet => "subnet"@,
            Kind::Port => "port"@,
            Kind::Vector => "vector"@,
            Kind::SetOf => "set"@,
            Kind::Table => "table"@,
        }
    }

    /// The kind that is called so in JSON.
    pub open spec fn parsed(name: Seq<char>) -> Option<Kind> {
        if name == "none"@ {
            Some(Kind::Nil)
        } else if name == "boolean"@ {
            Some(Kind::Boolean)
        } else if name == "count"@ {
            Some(Kind::Count)
        } else if name == "integer"@ {
            Some(Kind::Integer)
        } else if name == "real"@ {
            Some(Kind::Real)
        } else if name == "timespan"@ {
            Some(Kind::Timespan)
        } else if name == "timestamp"@ {
            Some(Kind::Timestamp)
        } else if name == "string"@ {
            Some(Kind::String)
        } else if name == "enum-value"@ {
            Some(Kind::EnumValue)
        } else if name == "address"@ {
            Some(Kind::Address)
        } else if name == "subnet"@ {
            Some(Kind::Subnet)
        } else if name == "port"@ {
            Some(Kind::Port)
        } else if name == "vector"@ {
            Some(Kind::Vector)
        } else if name == "set"@ {
            Some(Kind::SetOf)
        } else if name == "table"@ {
            Some(Kind::Table)
        } else {
            None
        }
    }

    /// The kind at a place among the kinds.
    pub open spec fn at(n: u64) -> Option<Kind> {
        if n == 0 {
            Some(Kind::Nil)
        } else if n == 1 {
            Some(Kind::Boolean)
        } else if n == 2 {
            Some(Kind::Count)
        } else if n == 3 {
            Some(Kind::Integer)
        } else if n == 4 {
            Some(Kind::Real)
        } else if n == 5 {
            Some(Kind::Timespan)
        } else if n == 6 {
            Some(Kind::Timestamp)
        } else if n == 7 {
            Some(Kind::String)
        } else if n == 8 {
            Some(Kind::EnumValue)
        } else if n == 9 {
            Some(Kind::Address)
        } else if n == 10 {
            Some(Kind::Subnet)
        } else if n == 11 {
            Some(Kind::Port)
        } else if n == 12 {
            Some(Kind::Vector)
        } else if n == 13 {
            Some(Kind::SetOf)
        } else if n == 14 {
            Some(Kind::Table)
        } else {
            None
        }
    }

    /// The kind at a place among the kinds.
    pub fn from_index(n: u64) -> (r: Option<Kind>)
        ensures
            r == Kind::at(n),
    {
        match n {
            0 => Some(Kind::Nil),
            1 => Some(Kind::Boolean),
            2 => Some(Kind::Count),
            3 => Some(Kind::Integer),
            4 => Some(Kind::Real),
            5 => Some(Kind::Timespan),
            6 => Some(Kind::Timestamp),
            7 => Some(Kind::String),
            8 => Some(Kind::EnumValue),
            9 => Some(Kind::Address),
            10 => Some(Kind::Subnet),
            11 => Some(Kind::Port),
            12 => Some(Kind::Vector),
            13 => Some(Kind::SetOf),
            14 => Some(Kind::Table),
            _ => None,
        }
    }

    pub open spec fn of(v: ValueView) -> Kind {
        match v {
            ValueView::Nil => Kind::Nil,
            ValueView::Boolean(_) => Kind::Boolean,
            ValueView::Count(_) => Kind::Count,
            ValueView::Integer(_) => Kind::Integer,
            ValueView::Real(_) => Kind::Real,
            ValueView::Timespan(_) => Kind::Timespan,
            ValueView::Timestamp(_) => Kind::Timestamp,
            ValueView::String(_) => Kind::String,
            ValueView::EnumValue(_) => Kind::EnumValue,
            ValueView::Address(_) => Kind::Address,
            ValueView::Subnet(_) => Kind::Subnet,
            ValueView::Port(_) => Kind::Port,
            ValueView::Vector(_) => Kind::Vector,
            ValueView::SetOf(_) => Kind::SetOf,
            ValueView::Table(_) => Kind::Table,
        }
    }

    /// What the kind is called in JSON.
    pub fn name(self) -> (r: &'static str)
        ensures
            r@ == self.text(),
    {
        match self {
            Kind::Nil => "none",
            Kind::Boolean => "boolean",
            Kind::Count => "count",
            Kind::Integer => "integer",
            Kind::Real => "real",
            Kind::Timespan => "timespan",
            Kind::Timestamp => "timestamp",
            Kind::String => "string",
            Kind::EnumValue => "enum-value",
            Kind::Address => "address",
            Kind::Subnet => "subnet",
            Kind::Port => "port",
            Kind::Vector => "vector",
            Kind::SetOf => "set",
            Kind::Table => "table",
        }
    }

    /// The kind that is called so in JSON.
    pub fn from_name(name: &str) -> (r: Option<Kind>)
        ensures
            r == Kind::parsed(name@),
    {
        if same_text(name, "none") {
            Some(Kind::Nil)
        } else if same_text(name, "boolean") {
            Some(Kind::Boolean)
        } else if same_text(name, "count") {
            Some(Kind::Count)
        } else if same_text(name, "integer") {
            Some(Kind::Integer)
        } else if same_text(name, "real") {
            Some(Kind::Real)
        } else if same_text(name, "timespan") {
            Some(Kind::Timespan)
        } else if same_text(name, "timestamp") {
            Some(Kind::Timestamp)
        } else if same_text(name, "string") {
            Some(Kind::String)
        } else if same_text(name, "enum-value") {
            Some(Kind::EnumValue)
        } else if same_text(name, "address") {
            Some(Kind::Address)
        } else if same_text(name, "subnet") {
            Some(Kind::Subnet)
        } else if same_text(name, "port") {
            Some(Kind::Port)
        } else if same_text(name, "vector") {
            Some(Kind::Vector)
        } else if same_text(name, "set") {
            Some(Kind::SetOf)
        } else if same_text(name, "table") {
            Some(Kind::Table)
        } else {
            None
        }
    }

    /// A kind is found again by its name.
    pub proof fn text_reads_back(self)
        ensures
            Kind::parsed(self.text()) == Some(self),
    {
        reveal_strlit("none");
        reveal_strlit("boolean");
        reveal_strlit("count");
        reveal_strlit("integer");
        reveal_strlit("real");
        reveal_strlit("timespan");
        reveal_strlit("timestamp");
        reveal_strlit("string");
        reveal_strlit("enum-value");
        reveal_strlit("address");
        reveal_strlit("subnet");
        reveal_strlit("port");
        reveal_strlit("vector");
        reveal_strlit("set");
        reveal_strlit("table");
        assert("none"@.len() == 4);
        assert("boolean"@.len() == 7);
        assert("count"@.len() == 5);
        assert("integer"@.len() == 7);
        assert("real"@.len() == 4);
        assert("timespan"@.len() == 8);
        assert("timestamp"@.len() == 9);
        assert("string"@.len() == 6);
        assert("enum-value"@.len() == 10);
        assert("address"@.len() == 7);
        assert("subnet"@.len() == 6);
        assert("port"@.len() == 4);
        assert("vector"@.len() == 6);
        assert("set"@.len() == 3);
        assert("table"@.len() == 5);
        assert("none"@[0] == 'n' && "none"@[1] == 'o');
        assert("boolean"@[0] == 'b' && "boolean"@[1] == 'o');
        assert("count"@[0] == 'c' && "count"@[1] == 'o');
        assert("integer"@[0] == 'i' && "integer"@[1] == 'n');
        assert("real"@[0] == 'r' && "real"@[1] == 'e');
        assert("timespan"@[0] == 't' && "timespan"@[1] == 'i');
        assert("timestamp"@[0] == 't' && "timestamp"@[1] == 'i');
        assert("string"@[0] == 's' && "string"@[1] == 't');
        assert("enum-value"@[0] == 'e' && "enum-value"@[1] == 'n');
        assert("address"@[0] == 'a' && "address"@[1] == 'd');
        assert("subnet"@[0] == 's' && "subnet"@[1] == 'u');
        assert("port"@[0] == 'p' && "port"@[1] == 'o');
        assert("vector"@[0] == 'v' && "vector"@[1] == 'e');
        assert("set"@[0] == 's' && "set"@[1] == 'e');
        assert("table"@[0] == 't' && "table"@[1] == 'a');
    }
}

impl Value {
    /// The kind of the value.
    pub fn kind(&self) -> (r: Kind)
        ensures
            r == Kind::of(self@),
    {
        broadcast use lemma_view;

        match self {
            Value::Nil => Kind::Nil,
            Value::Boolean(_) => Kind::Boolean,
            Value::Count(_) => Kind::Count,
            Value::Integer(_) => Kind::Integer,
            Value::Real(_) => Kind::Real,
            Value::Timespan(_) => Kind::Timespan,
            Value::Timestamp(_) => Kind::Timestamp,
            Value::String(_) => Kind::String,
            Value::EnumValue(_) => Kind::EnumValue,
            Value::Address(_) => Kind::Address,
            Value::Subnet(_) => Kind::Subnet,
            Value::Port(_) => Kind::Port,
            Value::Vector(_) => Kind::Vector,
            Value::SetOf(_) => Kind::SetOf,
            Value::Table(_) => Kind::Table,
        }
    }
}

/// A value cannot be written as JSON.
#[derive(Debug, Clone, PartialEq)]
pub enum EncodeError {
    Timespan(SerializationError),
    Timestamp(TimestampError),
}

/// An [`EncodeError`] with the text that it is about.
pub enum EncodeErrorView {
    Timespan(SerializationErrorView),
    Timestamp(TimestampErrorView),
}

impl View for EncodeError {
    type V = EncodeErrorView;

    open spec fn view(&self) -> EncodeErrorView {
        match self {
            EncodeError::Timespan(e) => EncodeErrorView::Timespan(e@),
            EncodeError::Timestamp(e) => EncodeErrorView::Timestamp(e@),
        }
    }
}

impl EncodeErrorView {
    pub open spec fn text(self) -> Seq<char> {
        match self {
            EncodeErrorView::Timespan(e) => e.text(),
            EncodeErrorView::Timestamp(e) => e.text(),
        }
    }
}

impl EncodeError {
    /// Describes the error.
    pub fn to_string(&self) -> (r: String)
        ensures
            r@ == self@.text(),
    {
        match self {
            EncodeError::Timespan(e) => e.to_string(),
            EncodeError::Timestamp(e) => e.to_string(),
        }
    }
}

/// JSON does not hold what was to be read from it.
#[derive(Debug, Clone, PartialEq)]
pub enum DecodeError {
    /// Something else was expected: what was found, and what was expected.
    InvalidType(String),
    /// The right kind of thing, but out of range: what was found, and what was expected.
    InvalidValue(String),
    /// A field is missing.
    MissingField(String),
    /// A field is there under two names.
    DuplicateField(String),
    /// No kind of value has this name.
    UnknownVariant(String),
    /// No type of message has this name.
    UnknownType(String),
    /// An array has the wrong number of items: how many, and what was expected.
    InvalidLength(String),
    Timespan(TimespanError),
    Timestamp(TimestampError),
    /// Not an address, and why.
    Address(String),
    /// Not a network.
    Subnet(String),
    Port(ParseError),
}

/// A [`DecodeError`] with the text that it is about.
pub enum DecodeErrorView {
    InvalidType(Seq<char>),
    InvalidValue(Seq<char>),
    MissingField(Seq<char>),
    DuplicateField(Seq<char>),
    UnknownVariant(Seq<char>),
    UnknownType(Seq<char>),
    InvalidLength(Seq<char>),
    Timespan(TimespanErrorView),
    Timestamp(TimestampErrorView),
    Address(Seq<char>),
    Subnet(Seq<char>),
    Port(ParseErrorView),
}

impl DecodeError {
    /// An error is seen as the one that it is, with what it holds.
    pub proof fn errors_are_seen(self)
        ensures
            self matches DecodeError::InvalidType(s) ==> self@ == DecodeErrorView::InvalidType(s@),
            self matches DecodeError::InvalidValue(s) ==> self@ == DecodeErrorView::InvalidValue(
                s@,
            ),
            self matches DecodeError::MissingField(s) ==> self@ == DecodeErrorView::MissingField(
                s@,
            ),
            self matches DecodeError::DuplicateField(s) ==> self@
                == DecodeErrorView::DuplicateField(s@),
            self matches DecodeError::UnknownVariant(s) ==> self@
                == DecodeErrorView::UnknownVariant(s@),
            self matches DecodeError::UnknownType(s) ==> self@ == DecodeErrorView::UnknownType(s@),
            self matches DecodeError::InvalidLength(s) ==> self@ == DecodeErrorView::InvalidLength(
                s@,
            ),
            self matches DecodeError::Timespan(e) ==> self@ == DecodeErrorView::Timespan(e@),
            self matches DecodeError::Timestamp(e) ==> self@ == DecodeErrorView::Timestamp(e@),
            self matches DecodeError::Address(s) ==> self@ == DecodeErrorView::Address(s@),
            self matches DecodeError::Subnet(s) ==> self@ == DecodeErrorView::Subnet(s@),
            self matches DecodeError::Port(e) ==> self@ == DecodeErrorView::Port(e@),
    {
    }
}

impl View for DecodeError {
    type V = DecodeErrorView;

    open spec fn view(&self) -> DecodeErrorView {
        match self {
            DecodeError::InvalidType(s) => DecodeErrorView::InvalidType(s@),
            DecodeError::InvalidValue(s) => DecodeErrorView::InvalidValue(s@),
            DecodeError::MissingField(s) => DecodeErrorView::MissingField(s@),
            DecodeError::DuplicateField(s) => DecodeErrorView::DuplicateField(s@),
            DecodeError::UnknownVariant(s) => DecodeErrorView::UnknownVariant(s@),
            DecodeError::UnknownType(s) => DecodeErrorView::UnknownType(s@),
            DecodeError::InvalidLength(s) => DecodeErrorView::InvalidLength(s@),
            DecodeError::Timespan(e) => DecodeErrorView::Timespan(e@),
            DecodeError::Timestamp(e) => DecodeErrorView::Timestamp(e@),
            DecodeError::Address(s) => DecodeErrorView::Address(s@),
            DecodeError::Subnet(s) => DecodeErrorView::Subnet(s@),
            DecodeError::Port(e) => DecodeErrorView::Port(e@),
        }
    }
}

impl DecodeErrorView {
    pub open spec fn text(self) -> Seq<char> {
        match self {
            DecodeErrorView::InvalidType(s) => s,
            DecodeErrorView::InvalidValue(s) => s,
            DecodeErrorView::MissingField(s) => "missing field `"@ + s + "`"@,
            DecodeErrorView::DuplicateField(s) => "duplicate field `"@ + s + "`"@,
            DecodeErrorView::UnknownVariant(s) => "unknown variant `"@ + s
                + "`, expected one of `none`, `boolean`, `count`, `integer`, `real`, `timespan`, `timestamp`, `string`, `enum-value`, `address`, `subnet`, `port`, `vector`, `set`, `table`"@,
            DecodeErrorView::UnknownType(s) => "unknown variant `"@ + s
                + "`, expected one of `ack`, `error`, `data-message`"@,
            DecodeErrorView::InvalidLength(s) => s,
            DecodeErrorView::Timespan(e) => e.text(),
            DecodeErrorView::Timestamp(e) => e.text(),
            DecodeErrorView::Address(s) => s,
            DecodeErrorView::Subnet(s) => "invalid address: "@ + s + ""@,
            DecodeErrorView::Port(e) => e.text(),
        }
    }
}

impl DecodeError {
    /// Describes the error.
    pub fn to_string(&self) -> (r: String)
        ensures
            r@ == self@.text(),
    {
        match self {
            DecodeError::InvalidType(s) => s.clone(),
            DecodeError::InvalidValue(s) => s.clone(),
            DecodeError::MissingField(s) => joined("missing field `", s.as_str(), "`"),
            DecodeError::DuplicateField(s) => joined("duplicate field `", s.as_str(), "`"),
            DecodeError::UnknownVariant(s) => joined(
                "unknown variant `",
                s.as_str(),
                "`, expected one of `none`, `boolean`, `count`, `integer`, `real`, `timespan`, `timestamp`, `string`, `enum-value`, `address`, `subnet`, `port`, `vector`, `set`, `table`",
            ),
            DecodeError::UnknownType(s) => joined(
                "unknown variant `",
                s.as_str(),
                "`, expected one of `ack`, `error`, `data-message`",
            ),
            DecodeError::InvalidLength(s) => s.clone(),
            DecodeError::Timespan(e) => e.to_string(),
            DecodeError::Timestamp(e) => e.to_string(),
            DecodeError::Address(s) => s.clone(),
            DecodeError::Subnet(s) => joined("invalid address: ", s.as_str(), ""),
            DecodeError::Port(e) => e.to_string(),
        }
    }
}

/// A kind and what a value of it holds, as JSON.
pub open spec fn tagged(kind: Kind, data: JsonView) -> JsonView {
    JsonView::Object(seq![("@data-type"@, JsonView::Text(kind.text())), ("data"@, data)])
}

/// How a value is written as JSON: its kind and what it holds. Points in time are written in
/// local time, which is `offset` seconds ahead of UTC.
pub open spec fn encoded(v: ValueView, offset: Option<int>) -> Result<JsonView, EncodeErrorView>
    decreases v,
{
    match v {
        ValueView::Nil => Ok(tagged(Kind::Nil, JsonView::Object(Seq::empty()))),
        ValueView::Boolean(x) => Ok(tagged(Kind::Boolean, JsonView::Bool(x))),
        ValueView::Count(x) => Ok(tagged(Kind::Count, JsonView::Unsigned(x))),
        ValueView::Integer(x) => Ok(tagged(Kind::Integer, signed_tree(x))),
        ValueView::Real(x) => Ok(tagged(Kind::Real, real_tree(x))),
        ValueView::Timespan(x) => match Timespan::text(x) {
            Ok(s) => Ok(tagged(Kind::Timespan, JsonView::Text(s))),
            Err(e) => Err(EncodeErrorView::Timespan(e)),
        },
        ValueView::Timestamp(x) => match Timestamp::text(x.0, offset) {
            Ok(s) => Ok(tagged(Kind::Timestamp, JsonView::Text(s))),
            Err(e) => Err(EncodeErrorView::Timestamp(e)),
        },
        ValueView::String(x) => Ok(tagged(Kind::String, JsonView::Text(x))),
        ValueView::EnumValue(x) => Ok(tagged(Kind::EnumValue, JsonView::Text(x))),
        ValueView::Address(x) => Ok(tagged(Kind::Address, JsonView::Text(addr_text(x)))),
        ValueView::Subnet(x) => Ok(tagged(Kind::Subnet, JsonView::Text(network_text(x.0, x.1)))),
        ValueView::Port(x) => Ok(tagged(Kind::Port, JsonView::Text(x.text()))),
        ValueView::Vector(s) => match encoded_all(s, offset) {
            Ok(items) => Ok(tagged(Kind::Vector, JsonView::Array(items))),
            Err(e) => Err(e),
        },
        ValueView::SetOf(s) => match encoded_all(s, offset) {
            Ok(items) => Ok(tagged(Kind::SetOf, JsonView::Array(items))),
            Err(e) => Err(e),
        },
        ValueView::Table(t) => match encoded_entries(t, offset) {
            Ok(items) => Ok(tagged(Kind::Table, JsonView::Array(items))),
            Err(e) => Err(e),
        },
    }
}

/// How several values are written; the first that cannot be written decides.
pub open spec fn encoded_all(s: Seq<ValueView>, offset: Option<int>) -> Result<
    Seq<JsonView>,
    EncodeErrorView,
>
    decreases s,
{
    if s.len() == 0 {
        Ok(Seq::empty())
    } else {
        match encoded_all(s.drop_last(), offset) {
            Err(e) => Err(e),
            Ok(front) => match encoded(s.last(), offset) {
                Err(e) => Err(e),
                Ok(t) => Ok(front.push(t)),
            },
        }
    }
}

/// How the entries of a table are written; the first that cannot be written decides.
pub open spec fn encoded_entries(s: Seq<(ValueView, ValueView)>, offset: Option<int>) -> Result<
    Seq<JsonView>,
    EncodeErrorView,
>
    decreases s,
{
    if s.len() == 0 {
        Ok(Seq::empty())
    } else {
        match encoded_entries(s.drop_last(), offset) {
            Err(e) => Err(e),
            Ok(front) => match encoded(s.last().0, offset) {
                Err(e) => Err(e),
                Ok(key) => match encoded(s.last().1, offset) {
                    Err(e) => Err(e),
                    Ok(value) => Ok(
                        front.push(JsonView::Object(seq![("key"@, key), ("value"@, value)])),
                    ),
                },
            },
        }
    }
}

/// How a number that is out of range is described.
pub open spec fn out_of_range(n: int, expected: Seq<char>) -> Seq<char> {
    "invalid value: integer `"@ + integer_text(n) + ("`, expected "@ + expected + ""@)
}

/// How an array with the wrong number of items is described.
pub open spec fn wrong_length(n: nat, expected: Seq<char>) -> Seq<char> {
    "invalid length "@ + decimal(n) + (", expected "@ + expected + ""@)
}

/// How an array with more items than are read is described. What was kept for later is described
/// otherwise than what is read at once.
pub open spec fn surplus(n: nat, buffered: bool) -> Seq<char> {
    if buffered {
        wrong_length(n, "2 elements in sequence"@)
    } else {
        wrong_length(n, "fewer elements in array"@)
    }
}

/// The kind that has a name.
pub open spec fn kind_named(name: Seq<char>) -> Result<Kind, DecodeErrorView> {
    match Kind::parsed(name) {
        Some(kind) => Ok(kind),
        None => Err(DecodeErrorView::UnknownVariant(name)),
    }
}

/// What may stand beside the name of a kind: nothing, or no fields in what was kept for later.
pub open spec fn is_unit(t: JsonView, buffered: bool) -> bool {
    match t {
        JsonView::Null => true,
        JsonView::Object(fields) => buffered && fields.len() == 0,
        _ => false,
    }
}

/// The kind that a tag in an object stands for: a name, or an object whose only field has that
/// name and holds nothing.
pub open spec fn tag_kind(t: JsonView, buffered: bool) -> Result<Kind, DecodeErrorView> {
    match t {
        JsonView::Text(name) => kind_named(name),
        JsonView::Object(fields) => if fields.len() != 1 {
            Err(
                DecodeErrorView::InvalidValue("invalid value: map, expected map with a single key"@),
            )
        } else {
            match kind_named(fields[0].0) {
                Err(e) => Err(e),
                Ok(kind) => if is_unit(fields[0].1, buffered) {
                    Ok(kind)
                } else {
                    Err(DecodeErrorView::InvalidType(invalid_type(fields[0].1, "unit"@)))
                },
            }
        },
        _ => Err(DecodeErrorView::InvalidType(invalid_type(t, "string or map"@))),
    }
}

/// The kind that a tag in an array stands for: a name or, in what was kept for later, a number.
pub open spec fn item_kind(t: JsonView, buffered: bool) -> Result<Kind, DecodeErrorView> {
    match t {
        JsonView::Text(name) => kind_named(name),
        JsonView::Unsigned(n) => if buffered {
            match Kind::at(n) {
                Some(kind) => Ok(kind),
                None => Err(
                    DecodeErrorView::InvalidValue(
                        out_of_range(n as int, "variant index 0 <= i < 15"@),
                    ),
                ),
            }
        } else {
            Err(DecodeErrorView::InvalidType(invalid_type(t, "variant identifier"@)))
        },
        _ => Err(DecodeErrorView::InvalidType(invalid_type(t, "variant identifier"@))),
    }
}

/// What is read from JSON: an object with a tag and data in fields, or an array of the two. Other
/// fields do not matter. What is `buffered` was kept until it was known what it is to be read as;
/// data in front of its tag always is.
pub open spec fn decoded(t: JsonView, buffered: bool, offset: Option<int>) -> Result<
    ValueView,
    DecodeErrorView,
>
    decreases t,
{
    match t {
        JsonView::Object(fields) => {
            let k = field_at(fields, "@data-type"@);
            let d = field_at(fields, "data"@);
            if !(0 <= k < fields.len()) {
                Err(DecodeErrorView::MissingField("@data-type"@))
            } else {
                match tag_kind(fields[k].1, buffered) {
                    Err(e) => Err(e),
                    Ok(kind) => if kind == Kind::Nil {
                        Ok(ValueView::Nil)
                    } else if 0 <= d < fields.len() {
                        decoded_as(kind, fields[d].1, buffered || d < k, offset)
                    } else {
                        Err(DecodeErrorView::MissingField("data"@))
                    },
                }
            }
        },
        JsonView::Array(items) => if items.len() == 0 {
            Err(DecodeErrorView::InvalidLength(wrong_length(0, "adjacently tagged enum Value"@)))
        } else {
            match item_kind(items[0], buffered) {
                Err(e) => Err(e),
                Ok(kind) => if items.len() == 1 {
                    Err(
                        DecodeErrorView::InvalidLength(
                            wrong_length(1, "adjacently tagged enum Value"@),
                        ),
                    )
                } else {
                    match decoded_as(kind, items[1], buffered, offset) {
                        Err(e) => Err(e),
                        Ok(v) => if items.len() > 2 {
                            Err(DecodeErrorView::InvalidLength(surplus(items.len(), buffered)))
                        } else {
                            Ok(v)
                        },
                    }
                },
            }
        },
        _ => Err(DecodeErrorView::InvalidType(invalid_type(t, "adjacently tagged enum Value"@))),
    }
}

/// What a value of this kind is read from.
pub open spec fn decoded_as(kind: Kind, d: JsonView, buffered: bool, offset: Option<int>) -> Result<
    ValueView,
    DecodeErrorView,
>
    decreases d,
{
    match kind {
        Kind::Nil => Ok(ValueView::Nil),
        Kind::Boolean => match d {
            JsonView::Bool(b) => Ok(ValueView::Boolean(b)),
            _ => Err(DecodeErrorView::InvalidType(invalid_type(d, "a boolean"@))),
        },
        Kind::Count => match d {
            JsonView::Unsigned(n) => Ok(ValueView::Count(n)),
            JsonView::Negative(n) => Err(
                DecodeErrorView::InvalidValue(out_of_range(n as int, "u64"@)),
            ),
            _ => Err(DecodeErrorView::InvalidType(invalid_type(d, "u64"@))),
        },
        Kind::Integer => match signed_in(d) {
            Some(n) => Ok(ValueView::Integer(n)),
            None => match d {
                JsonView::Unsigned(n) => Err(
                    DecodeErrorView::InvalidValue(out_of_range(n as int, "i64"@)),
                ),
                _ => Err(DecodeErrorView::InvalidType(invalid_type(d, "i64"@))),
            },
        },
        Kind::Real => match real_in(d) {
            Some(x) => Ok(ValueView::Real(x)),
            None => Err(DecodeErrorView::InvalidType(invalid_type(d, "f64"@))),
        },
        Kind::Vector => match d {
            JsonView::Array(items) => match decoded_all(items, buffered, offset) {
                Ok(s) => Ok(ValueView::Vector(s)),
                Err(e) => Err(e),
            },
            _ => Err(DecodeErrorView::InvalidType(invalid_type(d, "a sequence"@))),
        },
        Kind::SetOf => match d {
            JsonView::Array(items) => match decoded_all(items, buffered, offset) {
                Ok(s) => Ok(ValueView::SetOf(collected::<Value>(s, false))),
                Err(e) => Err(e),
            },
            _ => Err(DecodeErrorView::InvalidType(invalid_type(d, "a sequence"@))),
        },
        Kind::Table => match d {
            JsonView::Array(items) => match decoded_entries(items, buffered, offset) {
                Ok(s) => Ok(ValueView::Table(collected::<TableEntry>(s, true))),
                Err(e) => Err(e),
            },
            _ => Err(DecodeErrorView::InvalidType(invalid_type(d, "a sequence"@))),
        },
        Kind::Address => match d {
            JsonView::Text(s) => decoded_text(kind, s, offset),
            _ => Err(DecodeErrorView::InvalidType(invalid_type(d, "IP address"@))),
        },
        _ => match d {
            JsonView::Text(s) => decoded_text(kind, s, offset),
            _ => Err(DecodeErrorView::InvalidType(invalid_type(d, "a string"@))),
        },
    }
}

/// What a value of a kind that JSON holds as text is read from.
pub open spec fn decoded_text(kind: Kind, s: Seq<char>, offset: Option<int>) -> Result<
    ValueView,
    DecodeErrorView,
> {
    match kind {
        Kind::Timespan => match Timespan::parsed(s) {
            Ok(x) => Ok(ValueView::Timespan(x)),
            Err(e) => Err(DecodeErrorView::Timespan(e)),
        },
        Kind::Timestamp => match Timestamp::parsed(s, offset) {
            Ok(x) => Ok(ValueView::Timestamp(x)),
            Err(e) => Err(DecodeErrorView::Timestamp(e)),
        },
        Kind::EnumValue => Ok(ValueView::EnumValue(s)),
        Kind::Address => match addr_parsed(s) {
            Ok(x) => Ok(ValueView::Address(x)),
            Err(e) => Err(DecodeErrorView::Address(e)),
        },
        Kind::Subnet => match network_parsed(s) {
            Some(x) => Ok(ValueView::Subnet(x)),
            None => Err(DecodeErrorView::Subnet(s)),
        },
        Kind::Port => match Port::parsed(s) {
            Ok(x) => Ok(ValueView::Port(x)),
            Err(e) => Err(DecodeErrorView::Port(e)),
        },
        _ => Ok(ValueView::String(s)),
    }
}

/// What several values are read from; the first that cannot be read decides.
pub open spec fn decoded_all(s: Seq<JsonView>, buffered: bool, offset: Option<int>) -> Result<
    Seq<ValueView>,
    DecodeErrorView,
>
    decreases s,
{
    if s.len() == 0 {
        Ok(Seq::empty())
    } else {
        match decoded_all(s.drop_last(), buffered, offset) {
            Err(e) => Err(e),
            Ok(front) => match decoded(s.last(), buffered, offset) {
                Err(e) => Err(e),
                Ok(v) => Ok(front.push(v)),
            },
        }
    }
}

/// What the entries of a table are read from; the first that cannot be read decides.
pub open spec fn decoded_entries(s: Seq<JsonView>, buffered: bool, offset: Option<int>) -> Result<
    Seq<(ValueView, ValueView)>,
    DecodeErrorView,
>
    decreases s,
{
    if s.len() == 0 {
        Ok(Seq::empty())
    } else {
        match decoded_entries(s.drop_last(), buffered, offset) {
            Err(e) => Err(e),
            Ok(front) => match decoded_entry(s.last(), buffered, offset) {
                Err(e) => Err(e),
                Ok(v) => Ok(front.push(v)),
            },
        }
    }
}

/// What an entry of a table is read from: an object with a key and a value in fields, which are
/// read in the order in which they stand, or an array of the two.
pub open spec fn decoded_entry(t: JsonView, buffered: bool, offset: Option<int>) -> Result<
    (ValueView, ValueView),
    DecodeErrorView,
>
    decreases t,
{
    match t {
        JsonView::Object(fields) => {
            let k = field_at(fields, "key"@);
            let v = field_at(fields, "value"@);
            let has_key = 0 <= k < fields.len();
            let has_value = 0 <= v < fields.len();
            if has_key && !(has_value && v < k) {
                match decoded(fields[k].1, buffered, offset) {
                    Err(e) => Err(e),
                    Ok(key) => if !has_value {
                        Err(DecodeErrorView::MissingField("value"@))
                    } else {
                        match decoded(fields[v].1, buffered, offset) {
                            Err(e) => Err(e),
                            Ok(value) => Ok((key, value)),
                        }
                    },
                }
            } else if has_value {
                match decoded(fields[v].1, buffered, offset) {
                    Err(e) => Err(e),
                    Ok(value) => if !has_key {
                        Err(DecodeErrorView::MissingField("key"@))
                    } else {
                        match decoded(fields[k].1, buffered, offset) {
                            Err(e) => Err(e),
                            Ok(key) => Ok((key, value)),
                        }
                    },
                }
            } else {
                Err(DecodeErrorView::MissingField("key"@))
            }
        },
        JsonView::Array(items) => if items.len() == 0 {
            Err(
                DecodeErrorView::InvalidLength(
                    wrong_length(0, "struct TableEntry with 2 elements"@),
                ),
            )
        } else {
            match decoded(items[0], buffered, offset) {
                Err(e) => Err(e),
                Ok(key) => if items.len() == 1 {
                    Err(
                        DecodeErrorView::InvalidLength(
                            wrong_length(1, "struct TableEntry with 2 elements"@),
                        ),
                    )
                } else {
                    match decoded(items[1], buffered, offset) {
                        Err(e) => Err(e),
                        Ok(value) => if items.len() > 2 {
                            Err(DecodeErrorView::InvalidLength(surplus(items.len(), buffered)))
                        } else {
                            Ok((key, value))
                        },
                    }
                },
            }
        },
        _ => Err(DecodeErrorView::InvalidType(invalid_type(t, "struct TableEntry"@))),
    }
}

/// The value with its points in time given in local time.
pub open spec fn localized(v: ValueView, offset: Option<int>) -> ValueView
    decreases v,
{
    match v {
        ValueView::Timestamp(x) => ValueView::Timestamp(
            (
                x.0,
                match offset {
                    Some(seconds) => seconds,
                    None => x.1,
                },
            ),
        ),
        ValueView::Vector(s) => ValueView::Vector(localized_all(s, offset)),
        ValueView::SetOf(s) => ValueView::SetOf(localized_all(s, offset)),
        ValueView::Table(t) => ValueView::Table(localized_entries(t, offset)),
        _ => v,
    }
}

pub open spec fn localized_all(s: Seq<ValueView>, offset: Option<int>) -> Seq<ValueView>
    decreases s,
{
    Seq::new(
        s.len(),
        |i: int|
            if 0 <= i < s.len() {
                localized(s[i], offset)
            } else {
                ValueView::Nil
            },
    )
}

pub open spec fn localized_entries(t: Seq<(ValueView, ValueView)>, offset: Option<int>) -> Seq<
    (ValueView, ValueView),
>
    decreases t,
{
    Seq::new(
        t.len(),
        |i: int|
            if 0 <= i < t.len() {
                (localized(t[i].0, offset), localized(t[i].1, offset))
            } else {
                (ValueView::Nil, ValueView::Nil)
            },
    )
}

/// Where its points in time are given does not matter to the place of a value among others.
pub proof fn localized_is_same(v: ValueView, offset: Option<int>)
    ensures
        same_value(localized(v, offset), v),
    decreases v,
{
    let w = localized(v, offset);
    lemma_order_key(v);
    lemma_order_key(w);
    match v {
        ValueView::Vector(s) => {
            lemma_localized_keys(s, offset);
        },
        ValueView::SetOf(s) => {
            lemma_localized_keys(s, offset);
        },
        ValueView::Table(t) => {
            let u = localized_entries(t, offset);
            assert forall|i: int| 0 <= i < t.len() implies entry_keys(u)[i] == entry_keys(t)[i] by {
                assert(decreases_to!(t => t[i]));
                localized_is_same(t[i].0, offset);
                localized_is_same(t[i].1, offset);
            }
            assert(entry_keys(u) =~= entry_keys(t));
        },
        _ => {},
    }
}

proof fn lemma_localized_keys(s: Seq<ValueView>, offset: Option<int>)
    ensures
        order_keys(localized_all(s, offset)) == order_keys(s),
    decreases s,
{
    let u = localized_all(s, offset);
    assert forall|i: int| 0 <= i < s.len() implies order_keys(u)[i] == order_keys(s)[i] by {
        localized_is_same(s[i], offset);
    }
    assert(order_keys(u) =~= order_keys(s));
}

proof fn lemma_localized_sorted(s: Seq<ValueView>, offset: Option<int>)
    requires
        sorted::<Value>(s),
    ensures
        sorted::<Value>(localized_all(s, offset)),
{
    let u = localized_all(s, offset);
    assert forall|i: int, j: int|
        #![trigger u[i], u[j]]
        0 <= i < j < u.len() implies key_order(Value::key_of(u[i]), Value::key_of(u[j]))
        == Order::Less by {
        localized_is_same(s[i], offset);
        localized_is_same(s[j], offset);
        assert(key_order(Value::key_of(s[i]), Value::key_of(s[j])) == Order::Less);
    }
}

proof fn lemma_localized_table_sorted(t: Seq<(ValueView, ValueView)>, offset: Option<int>)
    requires
        sorted::<TableEntry>(t),
    ensures
        sorted::<TableEntry>(localized_entries(t, offset)),
{
    let u = localized_entries(t, offset);
    assert forall|i: int, j: int|
        #![trigger u[i], u[j]]
        0 <= i < j < u.len() implies key_order(TableEntry::key_of(u[i]), TableEntry::key_of(u[j]))
        == Order::Less by {
        localized_is_same(t[i].0, offset);
        localized_is_same(t[j].0, offset);
        assert(key_order(TableEntry::key_of(t[i]), TableEntry::key_of(t[j])) == Order::Less);
    }
}

/// What a [`Value`] guarantees of its parts, and that each part that goes through an outside
/// text is read back from it.
pub open spec fn settled(v: ValueView, offset: Option<int>) -> bool
    decreases v,
{
    match v {
        ValueView::Timespan(x) => timespan_fits(x),
        ValueView::Timestamp(x) => Timestamp::reads_back(x.0, offset),
        ValueView::Address(x) => x.reads_back(),
        ValueView::Subnet(x) => IpNetwork::reads_back(x.0, x.1),
        ValueView::Vector(s) => forall|i: int|
            0 <= i < s.len() ==> settled(#[trigger] s[i], offset),
        ValueView::SetOf(s) => sorted::<Value>(s) && forall|i: int|
            0 <= i < s.len() ==> settled(#[trigger] s[i], offset),
        ValueView::Table(t) => sorted::<TableEntry>(t) && forall|i: int|
            0 <= i < t.len() ==> settled((#[trigger] t[i]).0, offset) && settled(t[i].1, offset),
        _ => true,
    }
}

/// No real number in the value is an infinity or a NaN.
pub open spec fn all_finite(v: ValueView) -> bool
    decreases v,
{
    match v {
        ValueView::Real(x) => x.spec_is_finite(),
        ValueView::Vector(s) => forall|i: int| 0 <= i < s.len() ==> all_finite(#[trigger] s[i]),
        ValueView::SetOf(s) => forall|i: int| 0 <= i < s.len() ==> all_finite(#[trigger] s[i]),
        ValueView::Table(t) => forall|i: int|
            0 <= i < t.len() ==> all_finite((#[trigger] t[i]).0) && all_finite(t[i].1),
        _ => true,
    }
}

/// The two fields of a tagged value are found by their names.
pub proof fn lemma_tagged(kind: Kind, data: JsonView)
    ensures
        field_at(tagged(kind, data)->Object_0, "@data-type"@) == 0,
        field_at(tagged(kind, data)->Object_0, "data"@) == 1,
{
    reveal_strlit("@data-type");
    reveal_strlit("data");
    let fields = tagged(kind, data)->Object_0;
    assert("@data-type"@.len() != "data"@.len());
    assert(fields.drop_first()[0].0 == "data"@);
    reveal_with_fuel(field_at, 2);
}

/// What is written of a value is read back as the value, with its points in time given in local
/// time, unless a number in it is an infinity or a NaN.
pub proof fn encoding_reads_back(v: ValueView, buffered: bool, offset: Option<int>)
    requires
        settled(v, offset),
        all_finite(v),
        encoded(v, offset) is Ok,
    ensures
        decoded(encoded(v, offset)->Ok_0, buffered, offset) == Ok::<ValueView, DecodeErrorView>(
            localized(v, offset),
        ),
    decreases v,
{
    let t = encoded(v, offset)->Ok_0;
    let kind = Kind::of(v);
    kind.text_reads_back();
    let data = t->Object_0[1].1;
    lemma_tagged(kind, data);
    assert(t == tagged(kind, data));
    assert(t->Object_0[0].1 == JsonView::Text(kind.text()));
    match v {
        ValueView::Timespan(x) => {
            Timespan::text_reads_back(x);
        },
        ValueView::Port(x) => {
            x.text_reads_back();
        },
        ValueView::Vector(s) => {
            encoding_all_reads_back(s, buffered, offset);
        },
        ValueView::SetOf(s) => {
            encoding_all_reads_back(s, buffered, offset);
            lemma_localized_sorted(s, offset);
            lemma_collected_of_sorted::<Value>(localized_all(s, offset), false);
        },
        ValueView::Table(s) => {
            encoding_entries_reads_back(s, buffered, offset);
            lemma_localized_table_sorted(s, offset);
            lemma_collected_of_sorted::<TableEntry>(localized_entries(s, offset), true);
        },
        _ => {},
    }
    assert(decoded(t, buffered, offset) == if kind == Kind::Nil {
        Ok::<ValueView, DecodeErrorView>(ValueView::Nil)
    } else {
        decoded_as(kind, data, buffered, offset)
    });
}

proof fn encoding_all_reads_back(s: Seq<ValueView>, buffered: bool, offset: Option<int>)
    requires
        forall|i: int| 0 <= i < s.len() ==> settled(#[trigger] s[i], offset),
        forall|i: int| 0 <= i < s.len() ==> all_finite(#[trigger] s[i]),
        encoded_all(s, offset) is Ok,
    ensures
        decoded_all(encoded_all(s, offset)->Ok_0, buffered, offset) == Ok::<
            Seq<ValueView>,
            DecodeErrorView,
        >(localized_all(s, offset)),
    decreases s,
{
    if s.len() > 0 {
        let front = s.drop_last();
        assert forall|i: int| 0 <= i < front.len() implies settled(#[trigger] front[i], offset)
            && all_finite(front[i]) by {
            assert(front[i] == s[i]);
        }
        encoding_all_reads_back(front, buffered, offset);
        encoding_reads_back(s.last(), buffered, offset);
        let t = encoded_all(s, offset)->Ok_0;
        assert(t.drop_last() =~= encoded_all(front, offset)->Ok_0);
        assert(localized_all(front, offset).push(localized(s.last(), offset)) =~= localized_all(
            s,
            offset,
        ));
    } else {
        assert(localized_all(s, offset) =~= Seq::empty());
    }
}

proof fn encoding_entries_reads_back(
    s: Seq<(ValueView, ValueView)>,
    buffered: bool,
    offset: Option<int>,
)
    requires
        forall|i: int|
            0 <= i < s.len() ==> settled((#[trigger] s[i]).0, offset) && settled(s[i].1, offset),
        forall|i: int| 0 <= i < s.len() ==> all_finite((#[trigger] s[i]).0) && all_finite(s[i].1),
        encoded_entries(s, offset) is Ok,
    ensures
        decoded_entries(encoded_entries(s, offset)->Ok_0, buffered, offset) == Ok::<
            Seq<(ValueView, ValueView)>,
            DecodeErrorView,
        >(localized_entries(s, offset)),
    decreases s,
{
    if s.len() > 0 {
        let front = s.drop_last();
        assert forall|i: int| 0 <= i < front.len() implies settled((#[trigger] front[i]).0, offset)
            && settled(front[i].1, offset) && all_finite(front[i].0) && all_finite(
            front[i].1,
        ) by {
            assert(front[i] == s[i]);
        }
        encoding_entries_reads_back(front, buffered, offset);
        let last = s.last();
        assert(last == s[s.len() - 1]);
        assert(settled(s[s.len() - 1].0, offset));
        assert(decreases_to!(s => s[s.len() - 1]));
        encoding_reads_back(last.0, buffered, offset);
        encoding_reads_back(last.1, buffered, offset);
        let t = encoded_entries(s, offset)->Ok_0;
        assert(t.drop_last() =~= encoded_entries(front, offset)->Ok_0);
        let fields = t.last()->Object_0;
        lemma_key_and_value(fields);
        let local = (localized(last.0, offset), localized(last.1, offset));
        assert(decoded_entry(t.last(), buffered, offset) == Ok::<
            (ValueView, ValueView),
            DecodeErrorView,
        >(local));
        assert(localized_entries(front, offset).push(local) =~= localized_entries(s, offset));
    } else {
        assert(localized_entries(s, offset) =~= Seq::empty());
    }
}

/// Every kind has its name, and no other text names a kind.
proof fn lemma_kinds()
    ensures
        forall|kind: Kind| Kind::parsed(#[trigger] kind.text()) == Some(kind),
{
    assert forall|kind: Kind| Kind::parsed(#[trigger] kind.text()) == Some(kind) by {
        kind.text_reads_back();
    }
}

/// A value without parts is written as an object of the name of its kind and what it holds: a
/// truth value, a number, or text. Numbers that JSON does not have are left out.
pub proof fn scalars_in_writing(
    b: bool,
    n: u64,
    i: i64,
    x: Real,
    s: Seq<char>,
    addr: IpAddr,
    prefix: u8,
    port: Port,
    offset: Option<int>,
)
    ensures
        ({
            let object = |name: Seq<char>, d: JsonView|
                JsonView::Object(seq![("@data-type"@, JsonView::Text(name)), ("data"@, d)]);
            &&& encoded(ValueView::Nil, offset) == Ok::<JsonView, EncodeErrorView>(
                object("none"@, JsonView::Object(Seq::empty())),
            )
            &&& encoded(ValueView::Boolean(b), offset) == Ok::<JsonView, EncodeErrorView>(
                object("boolean"@, JsonView::Bool(b)),
            )
            &&& encoded(ValueView::Count(n), offset) == Ok::<JsonView, EncodeErrorView>(
                object("count"@, JsonView::Unsigned(n)),
            )
            &&& encoded(ValueView::Integer(i), offset) == Ok::<JsonView, EncodeErrorView>(
                object(
                    "integer"@,
                    if i < 0 {
                        JsonView::Negative(i)
                    } else {
                        JsonView::Unsigned(i as u64)
                    },
                ),
            )
            &&& encoded(ValueView::Real(x), offset) == Ok::<JsonView, EncodeErrorView>(
                object(
                    "real"@,
                    if x.spec_is_finite() {
                        JsonView::Real(x)
                    } else {
                        JsonView::Null
                    },
                ),
            )
            &&& encoded(ValueView::String(s), offset) == Ok::<JsonView, EncodeErrorView>(
                object("string"@, JsonView::Text(s)),
            )
            &&& encoded(ValueView::EnumValue(s), offset) == Ok::<JsonView, EncodeErrorView>(
                object("enum-value"@, JsonView::Text(s)),
            )
            &&& encoded(ValueView::Address(addr), offset) == Ok::<JsonView, EncodeErrorView>(
                object("address"@, JsonView::Text(addr_text(addr))),
            )
            &&& encoded(ValueView::Subnet((addr, prefix)), offset) == Ok::<
                JsonView,
                EncodeErrorView,
            >(
                object(
                    "subnet"@,
                    JsonView::Text(addr_text(addr) + "/"@ + integer_text(prefix as int)),
                ),
            )
            &&& encoded(ValueView::Port(port), offset) == Ok::<JsonView, EncodeErrorView>(
                object("port"@, JsonView::Text(port.text())),
            )
        }),
{
}

/// Timespans and points in time are written as text, or refused where they have none.
pub proof fn times_in_writing(span: int, point: int, given: int, offset: Option<int>)
    ensures
        ({
            let object = |name: Seq<char>, d: JsonView|
                JsonView::Object(seq![("@data-type"@, JsonView::Text(name)), ("data"@, d)]);
            &&& encoded(ValueView::Timespan(span), offset) == match Timespan::text(span) {
                Ok(s) => Ok::<JsonView, EncodeErrorView>(object("timespan"@, JsonView::Text(s))),
                Err(e) => Err(EncodeErrorView::Timespan(e)),
            }
            &&& encoded(ValueView::Timestamp((point, given)), offset) == match Timestamp::text(
                point,
                offset,
            ) {
                Ok(s) => Ok::<JsonView, EncodeErrorView>(object("timestamp"@, JsonView::Text(s))),
                Err(e) => Err(EncodeErrorView::Timestamp(e)),
            }
        }),
{
}

proof fn lemma_encoded_items(s: Seq<ValueView>, offset: Option<int>)
    requires
        forall|i: int| 0 <= i < s.len() ==> encoded(#[trigger] s[i], offset) is Ok,
    ensures
        encoded_all(s, offset) == Ok::<Seq<JsonView>, EncodeErrorView>(
            Seq::new(s.len(), |i: int| encoded(s[i], offset)->Ok_0),
        ),
    decreases s.len(),
{
    let all = Seq::new(s.len(), |i: int| encoded(s[i], offset)->Ok_0);
    if s.len() > 0 {
        let front = s.drop_last();
        assert forall|i: int| 0 <= i < front.len() implies encoded(
            #[trigger] front[i],
            offset,
        ) is Ok by {
            assert(front[i] == s[i]);
        }
        lemma_encoded_items(front, offset);
        assert(encoded(s[s.len() - 1], offset) is Ok);
        assert(all =~= Seq::new(front.len(), |i: int| encoded(front[i], offset)->Ok_0).push(
            encoded(s.last(), offset)->Ok_0,
        ));
    } else {
        assert(all =~= Seq::empty());
    }
}

/// A vector or a set is written as the array of what its values are written as, in their order;
/// where some cannot be written, the first of them decides.
pub proof fn sequences_in_writing(s: Seq<ValueView>, offset: Option<int>)
    ensures
        (forall|i: int| 0 <= i < s.len() ==> encoded(#[trigger] s[i], offset) is Ok) ==> ({
            let object = |name: Seq<char>, d: JsonView|
                JsonView::Object(seq![("@data-type"@, JsonView::Text(name)), ("data"@, d)]);
            let items = Seq::new(s.len(), |i: int| encoded(s[i], offset)->Ok_0);
            &&& encoded(ValueView::Vector(s), offset) == Ok::<JsonView, EncodeErrorView>(
                object("vector"@, JsonView::Array(items)),
            )
            &&& encoded(ValueView::SetOf(s), offset) == Ok::<JsonView, EncodeErrorView>(
                object("set"@, JsonView::Array(items)),
            )
        }),
        forall|i: int|
            0 <= i < s.len() && (forall|j: int|
                0 <= j < i ==> encoded(#[trigger] s[j], offset) is Ok) && encoded(
                #[trigger] s[i],
                offset,
            ) is Err ==> encoded(ValueView::Vector(s), offset) == encoded(s[i], offset) && encoded(
                ValueView::SetOf(s),
                offset,
            ) == encoded(s[i], offset),
{
    if forall|i: int| 0 <= i < s.len() ==> encoded(#[trigger] s[i], offset) is Ok {
        lemma_encoded_items(s, offset);
    }
    assert forall|i: int|
        0 <= i < s.len() && (forall|j: int|
            0 <= j < i ==> encoded(#[trigger] s[j], offset) is Ok) && encoded(
            #[trigger] s[i],
            offset,
        ) is Err implies encoded(ValueView::Vector(s), offset) == encoded(s[i], offset) && encoded(
        ValueView::SetOf(s),
        offset,
    ) == encoded(s[i], offset) by {
        let front = s.take(i);
        assert forall|j: int| 0 <= j < front.len() implies encoded(
            #[trigger] front[j],
            offset,
        ) is Ok by {
            assert(front[j] == s[j]);
        }
        lemma_encoded_items(front, offset);
        assert(s.take(i + 1).drop_last() =~= front);
        assert(s.take(i + 1).last() == s[i]);
        lemma_encoded_all_fails(s, i + 1, offset);
    }
}

proof fn lemma_encoded_pairs(t: Seq<(ValueView, ValueView)>, offset: Option<int>)
    requires
        forall|i: int|
            0 <= i < t.len() ==> encoded((#[trigger] t[i]).0, offset) is Ok && encoded(
                t[i].1,
                offset,
            ) is Ok,
    ensures
        encoded_entries(t, offset) == Ok::<Seq<JsonView>, EncodeErrorView>(
            Seq::new(
                t.len(),
                |i: int|
                    JsonView::Object(
                        seq![
                            ("key"@, encoded(t[i].0, offset)->Ok_0),
                            ("value"@, encoded(t[i].1, offset)->Ok_0),
                        ],
                    ),
            ),
        ),
    decreases t.len(),
{
    let entry = |e: (ValueView, ValueView)|
        JsonView::Object(
            seq![("key"@, encoded(e.0, offset)->Ok_0), ("value"@, encoded(e.1, offset)->Ok_0)],
        );
    let all = Seq::new(t.len(), |i: int| entry(t[i]));
    if t.len() > 0 {
        let front = t.drop_last();
        assert forall|i: int| 0 <= i < front.len() implies encoded(
            (#[trigger] front[i]).0,
            offset,
        ) is Ok && encoded(front[i].1, offset) is Ok by {
            assert(front[i] == t[i]);
        }
        lemma_encoded_pairs(front, offset);
        assert(encoded(t[t.len() - 1].0, offset) is Ok);
        assert(encoded_entries(t, offset)->Ok_0 =~= all);
    }
    assert(encoded_entries(t, offset)->Ok_0 =~= Seq::new(
        t.len(),
        |i: int|
            JsonView::Object(
                seq![
                    ("key"@, encoded(t[i].0, offset)->Ok_0),
                    ("value"@, encoded(t[i].1, offset)->Ok_0),
                ],
            ),
    ));
}

/// A table is written as an array of objects with a key and a value, one for each entry in their
/// order; where some cannot be written, the first of them decides, and its key before its value.
pub proof fn tables_in_writing(t: Seq<(ValueView, ValueView)>, offset: Option<int>)
    ensures
        (forall|i: int|
            0 <= i < t.len() ==> encoded((#[trigger] t[i]).0, offset) is Ok && encoded(
                t[i].1,
                offset,
            ) is Ok) ==> encoded(ValueView::Table(t), offset) == Ok::<JsonView, EncodeErrorView>(
            JsonView::Object(
                seq![
                    ("@data-type"@, JsonView::Text("table"@)),
                    (
                        "data"@,
                        JsonView::Array(
                            Seq::new(
                                t.len(),
                                |i: int|
                                    JsonView::Object(
                                        seq![
                                            ("key"@, encoded(t[i].0, offset)->Ok_0),
                                            ("value"@, encoded(t[i].1, offset)->Ok_0),
                                        ],
                                    ),
                            ),
                        ),
                    ),
                ],
            ),
        ),
        forall|i: int|
            0 <= i < t.len() && (forall|j: int|
                0 <= j < i ==> encoded((#[trigger] t[j]).0, offset) is Ok && encoded(
                    t[j].1,
                    offset,
                ) is Ok) ==> (encoded((#[trigger] t[i]).0, offset) is Err ==> encoded(
                ValueView::Table(t),
                offset,
            ) == encoded(t[i].0, offset)) && (encoded(t[i].0, offset) is Ok && encoded(
                t[i].1,
                offset,
            ) is Err ==> encoded(ValueView::Table(t), offset) == encoded(t[i].1, offset)),
{
    if forall|i: int|
        0 <= i < t.len() ==> encoded((#[trigger] t[i]).0, offset) is Ok && encoded(
            t[i].1,
            offset,
        ) is Ok {
        lemma_encoded_pairs(t, offset);
    }
    assert forall|i: int|
        0 <= i < t.len() && (forall|j: int|
            0 <= j < i ==> encoded((#[trigger] t[j]).0, offset) is Ok && encoded(
                t[j].1,
                offset,
            ) is Ok) implies (encoded((#[trigger] t[i]).0, offset) is Err ==> encoded(
        ValueView::Table(t),
        offset,
    ) == encoded(t[i].0, offset)) && (encoded(t[i].0, offset) is Ok && encoded(
        t[i].1,
        offset,
    ) is Err ==> encoded(ValueView::Table(t), offset) == encoded(t[i].1, offset)) by {
        let front = t.take(i);
        assert forall|j: int| 0 <= j < front.len() implies encoded(
            (#[trigger] front[j]).0,
            offset,
        ) is Ok && encoded(front[j].1, offset) is Ok by {
            assert(front[j] == t[j]);
        }
        lemma_encoded_pairs(front, offset);
        assert(t.take(i + 1).drop_last() =~= front);
        assert(t.take(i + 1).last() == t[i]);
        if encoded(t[i].0, offset) is Err || encoded(t[i].1, offset) is Err {
            lemma_encoded_entries_fails(t, i + 1, offset);
        }
    }
}

/// An object of the name of a kind and of data is read as that kind is read from the data.
proof fn lemma_object(kind: Kind, d: JsonView, buffered: bool, offset: Option<int>)
    ensures
        decoded(
            JsonView::Object(seq![("@data-type"@, JsonView::Text(kind.text())), ("data"@, d)]),
            buffered,
            offset,
        ) == decoded_as(kind, d, buffered, offset),
{
    kind.text_reads_back();
    lemma_tagged(kind, d);
    let t = tagged(kind, d);
    assert(t->Object_0[0].1 == JsonView::Text(kind.text()));
    assert(t->Object_0[1].1 == d);
    assert(t == JsonView::Object(
        seq![("@data-type"@, JsonView::Text(kind.text())), ("data"@, d)],
    ));
}

/// A value is read from an object of the name of its kind and of data: booleans from truth values,
/// numbers from numbers, strings and enum values from text, and nothing from anything.
pub proof fn scalars_are_read(
    b: bool,
    n: u64,
    i: i64,
    x: Real,
    s: Seq<char>,
    d: JsonView,
    buffered: bool,
    offset: Option<int>,
)
    requires
        i < 0,
    ensures
        ({
            let object = |name: Seq<char>, d: JsonView|
                JsonView::Object(seq![("@data-type"@, JsonView::Text(name)), ("data"@, d)]);
            &&& decoded(object("none"@, d), buffered, offset) == Ok::<ValueView, DecodeErrorView>(
                ValueView::Nil,
            )
            &&& decoded(object("boolean"@, JsonView::Bool(b)), buffered, offset) == Ok::<
                ValueView,
                DecodeErrorView,
            >(ValueView::Boolean(b))
            &&& decoded(object("count"@, JsonView::Unsigned(n)), buffered, offset) == Ok::<
                ValueView,
                DecodeErrorView,
            >(ValueView::Count(n))
            &&& n <= i64::MAX ==> decoded(
                object("integer"@, JsonView::Unsigned(n)),
                buffered,
                offset,
            ) == Ok::<ValueView, DecodeErrorView>(ValueView::Integer(n as i64))
            &&& decoded(object("integer"@, JsonView::Negative(i)), buffered, offset) == Ok::<
                ValueView,
                DecodeErrorView,
            >(ValueView::Integer(i))
            &&& decoded(object("real"@, JsonView::Real(x)), buffered, offset) == Ok::<
                ValueView,
                DecodeErrorView,
            >(ValueView::Real(x))
            &&& decoded(object("real"@, JsonView::Unsigned(n)), buffered, offset) == Ok::<
                ValueView,
                DecodeErrorView,
            >(ValueView::Real(real_of(n as int)))
            &&& decoded(object("real"@, JsonView::Negative(i)), buffered, offset) == Ok::<
                ValueView,
                DecodeErrorView,
            >(ValueView::Real(real_of(i as int)))
            &&& decoded(object("string"@, JsonView::Text(s)), buffered, offset) == Ok::<
                ValueView,
                DecodeErrorView,
            >(ValueView::String(s))
            &&& decoded(object("enum-value"@, JsonView::Text(s)), buffered, offset) == Ok::<
                ValueView,
                DecodeErrorView,
            >(ValueView::EnumValue(s))
        }),
{
    lemma_object(Kind::Nil, d, buffered, offset);
    lemma_object(Kind::Boolean, JsonView::Bool(b), buffered, offset);
    lemma_object(Kind::Count, JsonView::Unsigned(n), buffered, offset);
    lemma_object(Kind::Integer, JsonView::Unsigned(n), buffered, offset);
    lemma_object(Kind::Integer, JsonView::Negative(i), buffered, offset);
    lemma_object(Kind::Real, JsonView::Real(x), buffered, offset);
    lemma_object(Kind::Real, JsonView::Unsigned(n), buffered, offset);
    lemma_object(Kind::Real, JsonView::Negative(i), buffered, offset);
    lemma_object(Kind::String, JsonView::Text(s), buffered, offset);
    lemma_object(Kind::EnumValue, JsonView::Text(s), buffered, offset);
}

/// Timespans, points in time, addresses, subnets and ports are read from the texts that they are
/// written as, and what is wrong with a text is told.
pub proof fn texts_are_read(s: Seq<char>, buffered: bool, offset: Option<int>)
    ensures
        ({
            let object = |name: Seq<char>, d: JsonView|
                JsonView::Object(seq![("@data-type"@, JsonView::Text(name)), ("data"@, d)]);
            let text = JsonView::Text(s);
            &&& decoded(object("timespan"@, text), buffered, offset) == match Timespan::parsed(s) {
                Ok(x) => Ok::<ValueView, DecodeErrorView>(ValueView::Timespan(x)),
                Err(e) => Err(DecodeErrorView::Timespan(e)),
            }
            &&& decoded(object("timestamp"@, text), buffered, offset) == match Timestamp::parsed(
                s,
                offset,
            ) {
                Ok(x) => Ok::<ValueView, DecodeErrorView>(ValueView::Timestamp(x)),
                Err(e) => Err(DecodeErrorView::Timestamp(e)),
            }
            &&& decoded(object("address"@, text), buffered, offset) == match addr_parsed(s) {
                Ok(x) => Ok::<ValueView, DecodeErrorView>(ValueView::Address(x)),
                Err(e) => Err(DecodeErrorView::Address(e)),
            }
            &&& decoded(object("subnet"@, text), buffered, offset) == match network_parsed(s) {
                Some(x) => Ok::<ValueView, DecodeErrorView>(ValueView::Subnet(x)),
                None => Err(DecodeErrorView::Subnet(s)),
            }
            &&& decoded(object("port"@, text), buffered, offset) == match Port::parsed(s) {
                Ok(x) => Ok::<ValueView, DecodeErrorView>(ValueView::Port(x)),
                Err(e) => Err(DecodeErrorView::Port(e)),
            }
        }),
{
    let text = JsonView::Text(s);
    lemma_object(Kind::Timespan, text, buffered, offset);
    lemma_object(Kind::Timestamp, text, buffered, offset);
    lemma_object(Kind::Address, text, buffered, offset);
    lemma_object(Kind::Subnet, text, buffered, offset);
    lemma_object(Kind::Port, text, buffered, offset);
}

/// Data that a kind is not read from is refused, with what was expected in its place.
pub proof fn wrong_data_is_refused(d: JsonView, buffered: bool, offset: Option<int>)
    ensures
        ({
            let object = |name: Seq<char>, d: JsonView|
                JsonView::Object(seq![("@data-type"@, JsonView::Text(name)), ("data"@, d)]);
            &&& !(d is Bool) ==> decoded(object("boolean"@, d), buffered, offset) == Err::<
                ValueView,
                DecodeErrorView,
            >(DecodeErrorView::InvalidType(invalid_type(d, "a boolean"@)))
            &&& !(d is Unsigned || d is Negative) ==> decoded(object("count"@, d), buffered, offset) == Err::<
                ValueView,
                DecodeErrorView,
            >(DecodeErrorView::InvalidType(invalid_type(d, "u64"@)))
            &&& !(d is Unsigned || d is Negative) ==> decoded(object("integer"@, d), buffered, offset) == Err::<
                ValueView,
                DecodeErrorView,
            >(DecodeErrorView::InvalidType(invalid_type(d, "i64"@)))
            &&& !(d is Unsigned || d is Negative || d is Real) ==> decoded(object("real"@, d), buffered, offset) == Err::<
                ValueView,
                DecodeErrorView,
            >(DecodeErrorView::InvalidType(invalid_type(d, "f64"@)))
            &&& !(d is Text) ==> decoded(object("timespan"@, d), buffered, offset) == Err::<
                ValueView,
                DecodeErrorView,
            >(DecodeErrorView::InvalidType(invalid_type(d, "a string"@)))
            &&& !(d is Text) ==> decoded(object("timestamp"@, d), buffered, offset) == Err::<
                ValueView,
                DecodeErrorView,
            >(DecodeErrorView::InvalidType(invalid_type(d, "a string"@)))
            &&& !(d is Text) ==> decoded(object("string"@, d), buffered, offset) == Err::<
                ValueView,
                DecodeErrorView,
            >(DecodeErrorView::InvalidType(invalid_type(d, "a string"@)))
            &&& !(d is Text) ==> decoded(object("enum-value"@, d), buffered, offset) == Err::<
                ValueView,
                DecodeErrorView,
            >(DecodeErrorView::InvalidType(invalid_type(d, "a string"@)))
            &&& !(d is Text) ==> decoded(object("address"@, d), buffered, offset) == Err::<
                ValueView,
                DecodeErrorView,
            >(DecodeErrorView::InvalidType(invalid_type(d, "IP address"@)))
            &&& !(d is Text) ==> decoded(object("subnet"@, d), buffered, offset) == Err::<
                ValueView,
                DecodeErrorView,
            >(DecodeErrorView::InvalidType(invalid_type(d, "a string"@)))
            &&& !(d is Text) ==> decoded(object("port"@, d), buffered, offset) == Err::<
                ValueView,
                DecodeErrorView,
            >(DecodeErrorView::InvalidType(invalid_type(d, "a string"@)))
            &&& !(d is Array) ==> decoded(object("vector"@, d), buffered, offset) == Err::<
                ValueView,
                DecodeErrorView,
            >(DecodeErrorView::InvalidType(invalid_type(d, "a sequence"@)))
            &&& !(d is Array) ==> decoded(object("set"@, d), buffered, offset) == Err::<
                ValueView,
                DecodeErrorView,
            >(DecodeErrorView::InvalidType(invalid_type(d, "a sequence"@)))
            &&& !(d is Array) ==> decoded(object("table"@, d), buffered, offset) == Err::<
                ValueView,
                DecodeErrorView,
            >(DecodeErrorView::InvalidType(invalid_type(d, "a sequence"@)))
        }),
{
    lemma_object(Kind::Nil, d, buffered, offset);
    lemma_object(Kind::Boolean, d, buffered, offset);
    lemma_object(Kind::Count, d, buffered, offset);
    lemma_object(Kind::Integer, d, buffered, offset);
    lemma_object(Kind::Real, d, buffered, offset);
    lemma_object(Kind::Timespan, d, buffered, offset);
    lemma_object(Kind::Timestamp, d, buffered, offset);
    lemma_object(Kind::String, d, buffered, offset);
    lemma_object(Kind::EnumValue, d, buffered, offset);
    lemma_object(Kind::Address, d, buffered, offset);
    lemma_object(Kind::Subnet, d, buffered, offset);
    lemma_object(Kind::Port, d, buffered, offset);
    lemma_object(Kind::Vector, d, buffered, offset);
    lemma_object(Kind::SetOf, d, buffered, offset);
    lemma_object(Kind::Table, d, buffered, offset);
}

/// Whole numbers that are out of range are refused, with the number and what was expected.
pub proof fn numbers_out_of_range(n: u64, i: i64, buffered: bool, offset: Option<int>)
    requires
        n > i64::MAX,
        i < 0,
    ensures
        ({
            let object = |name: Seq<char>, d: JsonView|
                JsonView::Object(seq![("@data-type"@, JsonView::Text(name)), ("data"@, d)]);
            &&& decoded(object("count"@, JsonView::Negative(i)), buffered, offset) matches Err(e)
                && e.text() == "invalid value: integer `"@ + integer_text(i as int)
                + "`, expected u64"@
            &&& decoded(object("integer"@, JsonView::Unsigned(n)), buffered, offset) matches Err(e)
                && e.text() == "invalid value: integer `"@ + integer_text(n as int)
                + "`, expected i64"@
        }),
{
    lemma_object(Kind::Count, JsonView::Negative(i), buffered, offset);
    lemma_object(Kind::Integer, JsonView::Unsigned(n), buffered, offset);
    reveal_strlit("");
    reveal_strlit("u64");
    reveal_strlit("i64");
    reveal_strlit("`, expected ");
    reveal_strlit("`, expected u64");
    reveal_strlit("`, expected i64");
    let head = "invalid value: integer `"@;
    assert(head + integer_text(i as int) + ("`, expected "@ + "u64"@ + ""@) =~= head
        + integer_text(i as int) + "`, expected u64"@);
    assert(head + integer_text(n as int) + ("`, expected "@ + "i64"@ + ""@) =~= head
        + integer_text(n as int) + "`, expected i64"@);
}

proof fn lemma_decoded_items(s: Seq<JsonView>, buffered: bool, offset: Option<int>)
    requires
        forall|i: int| 0 <= i < s.len() ==> decoded(#[trigger] s[i], buffered, offset) is Ok,
    ensures
        decoded_all(s, buffered, offset) == Ok::<Seq<ValueView>, DecodeErrorView>(
            Seq::new(s.len(), |i: int| decoded(s[i], buffered, offset)->Ok_0),
        ),
    decreases s.len(),
{
    let all = Seq::new(s.len(), |i: int| decoded(s[i], buffered, offset)->Ok_0);
    if s.len() > 0 {
        let front = s.drop_last();
        assert forall|i: int| 0 <= i < front.len() implies decoded(
            #[trigger] front[i],
            buffered,
            offset,
        ) is Ok by {
            assert(front[i] == s[i]);
        }
        lemma_decoded_items(front, buffered, offset);
        assert(decoded(s[s.len() - 1], buffered, offset) is Ok);
        assert(all =~= Seq::new(
            front.len(),
            |i: int| decoded(front[i], buffered, offset)->Ok_0,
        ).push(decoded(s.last(), buffered, offset)->Ok_0));
    } else {
        assert(all =~= Seq::empty());
    }
}

/// Vectors and sets are read from arrays of what their values are read from: a vector has every one
/// of them in its place, and a set has them sorted, of values that count as equal the first. Where
/// some cannot be read, the first of them decides.
pub proof fn sequences_are_read(s: Seq<JsonView>, buffered: bool, offset: Option<int>)
    ensures
        ({
            let object = |name: Seq<char>, d: JsonView|
                JsonView::Object(seq![("@data-type"@, JsonView::Text(name)), ("data"@, d)]);
            let vector = object("vector"@, JsonView::Array(s));
            let set = object("set"@, JsonView::Array(s));
            let values = Seq::new(s.len(), |i: int| decoded(s[i], buffered, offset)->Ok_0);
            &&& (forall|i: int|
                0 <= i < s.len() ==> decoded(#[trigger] s[i], buffered, offset) is Ok) ==> decoded(
                vector,
                buffered,
                offset,
            ) == Ok::<ValueView, DecodeErrorView>(ValueView::Vector(values)) && decoded(
                set,
                buffered,
                offset,
            ) == Ok::<ValueView, DecodeErrorView>(
                ValueView::SetOf(collected::<Value>(values, false)),
            )
            &&& forall|i: int|
                0 <= i < s.len() && (forall|j: int|
                    0 <= j < i ==> decoded(#[trigger] s[j], buffered, offset) is Ok) && decoded(
                    #[trigger] s[i],
                    buffered,
                    offset,
                ) is Err ==> decoded(vector, buffered, offset) == decoded(s[i], buffered, offset)
                    && decoded(set, buffered, offset) == decoded(s[i], buffered, offset)
        }),
{
    lemma_object(Kind::Vector, JsonView::Array(s), buffered, offset);
    lemma_object(Kind::SetOf, JsonView::Array(s), buffered, offset);
    if forall|i: int| 0 <= i < s.len() ==> decoded(#[trigger] s[i], buffered, offset) is Ok {
        lemma_decoded_items(s, buffered, offset);
    }
    assert forall|i: int|
        0 <= i < s.len() && (forall|j: int|
            0 <= j < i ==> decoded(#[trigger] s[j], buffered, offset) is Ok) && decoded(
            #[trigger] s[i],
            buffered,
            offset,
        ) is Err implies decoded_all(s, buffered, offset) == Err::<Seq<ValueView>, DecodeErrorView>(
        decoded(s[i], buffered, offset)->Err_0,
    ) by {
        let front = s.take(i);
        assert forall|j: int| 0 <= j < front.len() implies decoded(
            #[trigger] front[j],
            buffered,
            offset,
        ) is Ok by {
            assert(front[j] == s[j]);
        }
        lemma_decoded_items(front, buffered, offset);
        assert(s.take(i + 1).drop_last() =~= front);
        assert(s.take(i + 1).last() == s[i]);
        lemma_decoded_all_fails(s, i + 1, buffered, offset);
    }
}

/// An entry of a table is read from an object with a key and a value in either order, or from an
/// array of the two.
pub proof fn entries_are_read(key: JsonView, value: JsonView, buffered: bool, offset: Option<int>)
    requires
        decoded(key, buffered, offset) is Ok,
        decoded(value, buffered, offset) is Ok,
    ensures
        ({
            let entry = Ok::<(ValueView, ValueView), DecodeErrorView>(
                (decoded(key, buffered, offset)->Ok_0, decoded(value, buffered, offset)->Ok_0),
            );
            &&& decoded_entry(
                JsonView::Object(seq![("key"@, key), ("value"@, value)]),
                buffered,
                offset,
            ) == entry
            &&& decoded_entry(
                JsonView::Object(seq![("value"@, value), ("key"@, key)]),
                buffered,
                offset,
            ) == entry
            &&& decoded_entry(JsonView::Array(seq![key, value]), buffered, offset) == entry
        }),
{
    reveal_strlit("key");
    reveal_strlit("value");
    assert("key"@.len() != "value"@.len());
    let f = seq![("key"@, key), ("value"@, value)];
    let g = seq![("value"@, value), ("key"@, key)];
    fields_are_found(f, "key"@, 0);
    fields_are_found(f, "value"@, 1);
    fields_are_found(g, "key"@, 1);
    fields_are_found(g, "value"@, 0);
    assert(f[0].1 == key && f[1].1 == value && g[0].1 == value && g[1].1 == key);
    let items = seq![key, value];
    assert(items[0] == key && items[1] == value);
}

proof fn lemma_decoded_pairs(s: Seq<JsonView>, buffered: bool, offset: Option<int>)
    requires
        forall|i: int| 0 <= i < s.len() ==> decoded_entry(#[trigger] s[i], buffered, offset) is Ok,
    ensures
        decoded_entries(s, buffered, offset) == Ok::<Seq<(ValueView, ValueView)>, DecodeErrorView>(
            Seq::new(s.len(), |i: int| decoded_entry(s[i], buffered, offset)->Ok_0),
        ),
    decreases s.len(),
{
    let all = Seq::new(s.len(), |i: int| decoded_entry(s[i], buffered, offset)->Ok_0);
    if s.len() > 0 {
        let front = s.drop_last();
        assert forall|i: int| 0 <= i < front.len() implies decoded_entry(
            #[trigger] front[i],
            buffered,
            offset,
        ) is Ok by {
            assert(front[i] == s[i]);
        }
        lemma_decoded_pairs(front, buffered, offset);
        assert(decoded_entry(s[s.len() - 1], buffered, offset) is Ok);
        assert(all =~= Seq::new(
            front.len(),
            |i: int| decoded_entry(front[i], buffered, offset)->Ok_0,
        ).push(decoded_entry(s.last(), buffered, offset)->Ok_0));
    } else {
        assert(all =~= Seq::empty());
    }
}

/// Tables are read from arrays of what their entries are read from: a table has the entries sorted
/// by their keys, of entries with keys that count as equal the last. Where some cannot be read, the
/// first of them decides.
pub proof fn tables_are_read(s: Seq<JsonView>, buffered: bool, offset: Option<int>)
    ensures
        ({
            let object = |name: Seq<char>, d: JsonView|
                JsonView::Object(seq![("@data-type"@, JsonView::Text(name)), ("data"@, d)]);
            let table = object("table"@, JsonView::Array(s));
            let entries = Seq::new(s.len(), |i: int| decoded_entry(s[i], buffered, offset)->Ok_0);
            &&& (forall|i: int|
                0 <= i < s.len() ==> decoded_entry(#[trigger] s[i], buffered, offset) is Ok)
                ==> decoded(table, buffered, offset) == Ok::<ValueView, DecodeErrorView>(
                ValueView::Table(collected::<TableEntry>(entries, true)),
            )
            &&& forall|i: int|
                0 <= i < s.len() && (forall|j: int|
                    0 <= j < i ==> decoded_entry(#[trigger] s[j], buffered, offset) is Ok) ==> (
                decoded_entry(#[trigger] s[i], buffered, offset) matches Err(e) ==> decoded(
                    table,
                    buffered,
                    offset,
                ) == Err::<ValueView, DecodeErrorView>(e))
        }),
{
    lemma_object(Kind::Table, JsonView::Array(s), buffered, offset);
    if forall|i: int| 0 <= i < s.len() ==> decoded_entry(#[trigger] s[i], buffered, offset) is Ok {
        lemma_decoded_pairs(s, buffered, offset);
    }
    assert forall|i: int|
        0 <= i < s.len() && (forall|j: int|
            0 <= j < i ==> decoded_entry(#[trigger] s[j], buffered, offset) is Ok)
            && decoded_entry(#[trigger] s[i], buffered, offset) is Err implies decoded_entries(
        s,
        buffered,
        offset,
    ) == Err::<Seq<(ValueView, ValueView)>, DecodeErrorView>(
        decoded_entry(s[i], buffered, offset)->Err_0,
    ) by {
        let front = s.take(i);
        assert forall|j: int| 0 <= j < front.len() implies decoded_entry(
            #[trigger] front[j],
            buffered,
            offset,
        ) is Ok by {
            assert(front[j] == s[j]);
        }
        lemma_decoded_pairs(front, buffered, offset);
        assert(s.take(i + 1).drop_last() =~= front);
        assert(s.take(i + 1).last() == s[i]);
        lemma_decoded_entries_fails(s, i + 1, buffered, offset);
    }
}

/// Only the first field with a tag and the first with data matter to what an object is read as,
/// wherever they stand; where the data is in front of the tag, it was kept until the tag was read.
pub proof fn fields_in_any_order(
    fields: Seq<(Seq<char>, JsonView)>,
    tag: int,
    data: int,
    buffered: bool,
    offset: Option<int>,
)
    requires
        0 <= tag < fields.len(),
        0 <= data < fields.len(),
        fields[tag].0 == "@data-type"@,
        fields[data].0 == "data"@,
        fields[tag].1 is Text,
        forall|i: int| 0 <= i < tag ==> (#[trigger] fields[i]).0 != "@data-type"@,
        forall|i: int| 0 <= i < data ==> (#[trigger] fields[i]).0 != "data"@,
    ensures
        decoded(JsonView::Object(fields), buffered, offset) == decoded(
            JsonView::Object(
                seq![("@data-type"@, fields[tag].1), ("data"@, fields[data].1)],
            ),
            buffered || data < tag,
            offset,
        ),
{
    reveal_strlit("@data-type");
    reveal_strlit("data");
    assert("@data-type"@.len() != "data"@.len());
    let two = seq![("@data-type"@, fields[tag].1), ("data"@, fields[data].1)];
    fields_are_found(fields, "@data-type"@, tag);
    fields_are_found(fields, "data"@, data);
    fields_are_found(two, "@data-type"@, 0);
    fields_are_found(two, "data"@, 1);
    assert(two[0].1 == fields[tag].1 && two[1].1 == fields[data].1);
}

/// A value needs a tag, and data unless the tag says that there is none.
pub proof fn fields_are_required(
    fields: Seq<(Seq<char>, JsonView)>,
    tag: int,
    buffered: bool,
    offset: Option<int>,
)
    ensures
        (forall|i: int| 0 <= i < fields.len() ==> (#[trigger] fields[i]).0 != "@data-type"@)
            ==> decoded(JsonView::Object(fields), buffered, offset) == Err::<
            ValueView,
            DecodeErrorView,
        >(DecodeErrorView::MissingField("@data-type"@)),
        0 <= tag < fields.len() && fields[tag].0 == "@data-type"@ && (forall|i: int|
            0 <= i < tag ==> (#[trigger] fields[i]).0 != "@data-type"@) && (forall|i: int|
            0 <= i < fields.len() ==> (#[trigger] fields[i]).0 != "data"@) ==> {
            &&& fields[tag].1 == JsonView::Text("none"@) ==> decoded(
                JsonView::Object(fields),
                buffered,
                offset,
            ) == Ok::<ValueView, DecodeErrorView>(ValueView::Nil)
            &&& forall|kind: Kind|
                kind != Kind::Nil && fields[tag].1 == JsonView::Text(#[trigger] kind.text())
                    ==> decoded(JsonView::Object(fields), buffered, offset) == Err::<
                    ValueView,
                    DecodeErrorView,
                >(DecodeErrorView::MissingField("data"@))
        },
{
    lemma_kinds();
    Kind::Nil.text_reads_back();
    if forall|i: int| 0 <= i < fields.len() ==> (#[trigger] fields[i]).0 != "@data-type"@ {
        fields_are_found(fields, "@data-type"@, fields.len() as int);
    }
    if 0 <= tag < fields.len() && fields[tag].0 == "@data-type"@ && (forall|i: int|
        0 <= i < tag ==> (#[trigger] fields[i]).0 != "@data-type"@) && (forall|i: int|
        0 <= i < fields.len() ==> (#[trigger] fields[i]).0 != "data"@) {
        fields_are_found(fields, "@data-type"@, tag);
        fields_are_found(fields, "data"@, fields.len() as int);
    }
}

/// An array of a tag and of data stands for the object of the two, and a tag may also be an object
/// whose only field is named like the kind and holds nothing. Arrays of other lengths are refused.
pub proof fn arrays_stand_for_objects(
    name: Seq<char>,
    d: JsonView,
    items: Seq<JsonView>,
    buffered: bool,
    offset: Option<int>,
)
    ensures
        ({
            let object = |name: Seq<char>, d: JsonView|
                JsonView::Object(seq![("@data-type"@, JsonView::Text(name)), ("data"@, d)]);
            &&& decoded(JsonView::Array(seq![JsonView::Text(name), d]), buffered, offset) == decoded(
                object(name, d),
                buffered,
                offset,
            )
            &&& decoded(
                JsonView::Object(
                    seq![
                        ("@data-type"@, JsonView::Object(seq![(name, JsonView::Null)])),
                        ("data"@, d),
                    ],
                ),
                buffered,
                offset,
            ) == decoded(object(name, d), buffered, offset)
            &&& items.len() != 2 ==> decoded(JsonView::Array(items), buffered, offset) is Err
        }),
{
    reveal_strlit("@data-type");
    reveal_strlit("data");
    assert("@data-type"@.len() != "data"@.len());
    let array = seq![JsonView::Text(name), d];
    let inner = seq![(name, JsonView::Null)];
    let one = seq![("@data-type"@, JsonView::Text(name)), ("data"@, d)];
    let other = seq![("@data-type"@, JsonView::Object(inner)), ("data"@, d)];
    fields_are_found(one, "@data-type"@, 0);
    fields_are_found(one, "data"@, 1);
    fields_are_found(other, "@data-type"@, 0);
    fields_are_found(other, "data"@, 1);
    assert(one[0].1 == JsonView::Text(name) && one[1].1 == d);
    assert(other[0].1 == JsonView::Object(inner) && other[1].1 == d);
    assert(inner[0].0 == name && inner[0].1 == JsonView::Null);
    assert(array[0] == JsonView::Text(name) && array[1] == d);
}

/// What was kept until it was known what it is to be read as may name a kind in an array by its
/// number.
pub proof fn kinds_have_numbers(n: u64, d: JsonView, offset: Option<int>)
    ensures
        ({
            let object = |name: Seq<char>, d: JsonView|
                JsonView::Object(seq![("@data-type"@, JsonView::Text(name)), ("data"@, d)]);
            &&& decoded(JsonView::Array(seq![JsonView::Unsigned(0), d]), true, offset) == decoded(
                object("none"@, d),
                true,
                offset,
            )
            &&& decoded(JsonView::Array(seq![JsonView::Unsigned(1), d]), true, offset) == decoded(
                object("boolean"@, d),
                true,
                offset,
            )
            &&& decoded(JsonView::Array(seq![JsonView::Unsigned(2), d]), true, offset) == decoded(
                object("count"@, d),
                true,
                offset,
            )
            &&& decoded(JsonView::Array(seq![JsonView::Unsigned(3), d]), true, offset) == decoded(
                object("integer"@, d),
                true,
                offset,
            )
            &&& decoded(JsonView::Array(seq![JsonView::Unsigned(4), d]), true, offset) == decoded(
                object("real"@, d),
                true,
                offset,
            )
            &&& decoded(JsonView::Array(seq![JsonView::Unsigned(5), d]), true, offset) == decoded(
                object("timespan"@, d),
                true,
                offset,
            )
            &&& decoded(JsonView::Array(seq![JsonView::Unsigned(6), d]), true, offset) == decoded(
                object("timestamp"@, d),
                true,
                offset,
            )
            &&& decoded(JsonView::Array(seq![JsonView::Unsigned(7), d]), true, offset) == decoded(
                object("string"@, d),
                true,
                offset,
            )
            &&& decoded(JsonView::Array(seq![JsonView::Unsigned(8), d]), true, offset) == decoded(
                object("enum-value"@, d),
                true,
                offset,
            )
            &&& decoded(JsonView::Array(seq![JsonView::Unsigned(9), d]), true, offset) == decoded(
                object("address"@, d),
                true,
                offset,
            )
            &&& decoded(JsonView::Array(seq![JsonView::Unsigned(10), d]), true, offset) == decoded(
                object("subnet"@, d),
                true,
                offset,
            )
            &&& decoded(JsonView::Array(seq![JsonView::Unsigned(11), d]), true, offset) == decoded(
                object("port"@, d),
                true,
                offset,
            )
            &&& decoded(JsonView::Array(seq![JsonView::Unsigned(12), d]), true, offset) == decoded(
                object("vector"@, d),
                true,
                offset,
            )
            &&& decoded(JsonView::Array(seq![JsonView::Unsigned(13), d]), true, offset) == decoded(
                object("set"@, d),
                true,
                offset,
            )
            &&& decoded(JsonView::Array(seq![JsonView::Unsigned(14), d]), true, offset) == decoded(
                object("table"@, d),
                true,
                offset,
            )
        }),
        n >= 15 ==> decoded(JsonView::Array(seq![JsonView::Unsigned(n), d]), true, offset) is Err,
{
    let buffered = true;
    lemma_object(Kind::Nil, d, buffered, offset);
    lemma_object(Kind::Boolean, d, buffered, offset);
    lemma_object(Kind::Count, d, buffered, offset);
    lemma_object(Kind::Integer, d, buffered, offset);
    lemma_object(Kind::Real, d, buffered, offset);
    lemma_object(Kind::Timespan, d, buffered, offset);
    lemma_object(Kind::Timestamp, d, buffered, offset);
    lemma_object(Kind::String, d, buffered, offset);
    lemma_object(Kind::EnumValue, d, buffered, offset);
    lemma_object(Kind::Address, d, buffered, offset);
    lemma_object(Kind::Subnet, d, buffered, offset);
    lemma_object(Kind::Port, d, buffered, offset);
    lemma_object(Kind::Vector, d, buffered, offset);
    lemma_object(Kind::SetOf, d, buffered, offset);
    lemma_object(Kind::Table, d, buffered, offset);
    lemma_numbered(n, d, offset);
    lemma_numbered(0, d, offset);
    lemma_numbered(1, d, offset);
    lemma_numbered(2, d, offset);
    lemma_numbered(3, d, offset);
    lemma_numbered(4, d, offset);
    lemma_numbered(5, d, offset);
    lemma_numbered(6, d, offset);
    lemma_numbered(7, d, offset);
    lemma_numbered(8, d, offset);
    lemma_numbered(9, d, offset);
    lemma_numbered(10, d, offset);
    lemma_numbered(11, d, offset);
    lemma_numbered(12, d, offset);
    lemma_numbered(13, d, offset);
    lemma_numbered(14, d, offset);
}

proof fn lemma_numbered(n: u64, d: JsonView, offset: Option<int>)
    ensures
        decoded(JsonView::Array(seq![JsonView::Unsigned(n), d]), true, offset) == match Kind::at(
            n,
        ) {
            Some(kind) => decoded_as(kind, d, true, offset),
            None => Err(
                DecodeErrorView::InvalidValue(out_of_range(n as int, "variant index 0 <= i < 15"@)),
            ),
        },
{
    let items = seq![JsonView::Unsigned(n), d];
    assert(items[0] == JsonView::Unsigned(n) && items[1] == d);
}

/// There are no other kinds: any other name is refused with the name and those that there are.
pub proof fn other_kinds_are_refused(
    name: Seq<char>,
    d: JsonView,
    buffered: bool,
    offset: Option<int>,
)
    requires
        name != "none"@,
        name != "boolean"@,
        name != "count"@,
        name != "integer"@,
        name != "real"@,
        name != "timespan"@,
        name != "timestamp"@,
        name != "string"@,
        name != "enum-value"@,
        name != "address"@,
        name != "subnet"@,
        name != "port"@,
        name != "vector"@,
        name != "set"@,
        name != "table"@,
    ensures
        decoded(
            JsonView::Object(seq![("@data-type"@, JsonView::Text(name)), ("data"@, d)]),
            buffered,
            offset,
        ) matches Err(e) && e.text() == "unknown variant `"@ + name
            + "`, expected one of `none`, `boolean`, `count`, `integer`, `real`, `timespan`, `timestamp`, `string`, `enum-value`, `address`, `subnet`, `port`, `vector`, `set`, `table`"@,
{
    let fields = seq![("@data-type"@, JsonView::Text(name)), ("data"@, d)];
    fields_are_found(fields, "@data-type"@, 0);
    assert(fields[0].1 == JsonView::Text(name));
}

/// What is neither an object nor an array is no value.
pub proof fn other_trees_are_refused(t: JsonView, buffered: bool, offset: Option<int>)
    requires
        !(t is Object) && !(t is Array),
    ensures
        decoded(t, buffered, offset) == Err::<ValueView, DecodeErrorView>(
            DecodeErrorView::InvalidType(invalid_type(t, "adjacently tagged enum Value"@)),
        ),
{
}

/// What a reader is told of an error names the field, the number or the text that is to blame.
pub proof fn errors_are_described(
    s: Seq<char>,
    span: TimespanErrorView,
    point: TimestampErrorView,
    port: ParseErrorView,
    unwritten: SerializationErrorView,
)
    ensures
        DecodeErrorView::InvalidType(s).text() == s,
        DecodeErrorView::InvalidValue(s).text() == s,
        DecodeErrorView::InvalidLength(s).text() == s,
        DecodeErrorView::MissingField(s).text() == "missing field `"@ + s + "`"@,
        DecodeErrorView::DuplicateField(s).text() == "duplicate field `"@ + s + "`"@,
        DecodeErrorView::UnknownType(s).text() == "unknown variant `"@ + s
            + "`, expected one of `ack`, `error`, `data-message`"@,
        DecodeErrorView::Timespan(span).text() == span.text(),
        DecodeErrorView::Timestamp(point).text() == point.text(),
        DecodeErrorView::Address(s).text() == s,
        DecodeErrorView::Subnet(s).text() == "invalid address: "@ + s,
        DecodeErrorView::Port(port).text() == port.text(),
        EncodeErrorView::Timespan(unwritten).text() == unwritten.text(),
        EncodeErrorView::Timestamp(point).text() == point.text(),
        TimestampErrorView::Format(s).text() == s,
        TimestampErrorView::IndeterminateOffset.text()
            == "The system's UTC offset could not be determined"@,
        TimestampErrorView::LocalRange.text() == "local datetime out of valid range"@,
{
    reveal_strlit("");
    assert("invalid address: "@ + s + ""@ =~= "invalid address: "@ + s);
}

/// In local time points stay the points that they are, and are given at the offset of local time
/// where that is known; nothing else changes, and what holds values holds them in their places.
pub proof fn local_time_keeps_values(
    v: ValueView,
    point: int,
    given: int,
    seconds: int,
    s: Seq<ValueView>,
    t: Seq<(ValueView, ValueView)>,
    offset: Option<int>,
)
    ensures
        localized(ValueView::Timestamp((point, given)), Some(seconds)) == ValueView::Timestamp(
            (point, seconds),
        ),
        localized(ValueView::Timestamp((point, given)), None) == ValueView::Timestamp(
            (point, given),
        ),
        !(v is Timestamp) && !(v is Vector) && !(v is SetOf) && !(v is Table) ==> localized(
            v,
            offset,
        ) == v,
        localized(ValueView::Vector(s), offset) == ValueView::Vector(
            s.map_values(|x: ValueView| localized(x, offset)),
        ),
        localized(ValueView::SetOf(s), offset) == ValueView::SetOf(
            s.map_values(|x: ValueView| localized(x, offset)),
        ),
        localized(ValueView::Table(t), offset) == ValueView::Table(
            t.map_values(
                |e: (ValueView, ValueView)| (localized(e.0, offset), localized(e.1, offset)),
            ),
        ),
{
    assert(localized_all(s, offset) =~= s.map_values(|x: ValueView| localized(x, offset)));
    assert(localized_entries(t, offset) =~= t.map_values(
        |e: (ValueView, ValueView)| (localized(e.0, offset), localized(e.1, offset)),
    ));
}

/// Only real numbers can be infinite: a value is free of infinities and NaNs where all real numbers
/// in it are finite.
pub proof fn finite_by_parts(
    v: ValueView,
    x: Real,
    s: Seq<ValueView>,
    t: Seq<(ValueView, ValueView)>,
)
    ensures
        all_finite(ValueView::Real(x)) <==> x.spec_is_finite(),
        !(v is Real) && !(v is Vector) && !(v is SetOf) && !(v is Table) ==> all_finite(v),
        all_finite(ValueView::Vector(s)) <==> forall|i: int|
            0 <= i < s.len() ==> all_finite(#[trigger] s[i]),
        all_finite(ValueView::SetOf(s)) <==> forall|i: int|
            0 <= i < s.len() ==> all_finite(#[trigger] s[i]),
        all_finite(ValueView::Table(t)) <==> forall|i: int|
            0 <= i < t.len() ==> all_finite((#[trigger] t[i]).0) && all_finite(t[i].1),
{
    let a = ValueView::Vector(s);
    let b = ValueView::SetOf(s);
    assert(a->Vector_0 == s);
    assert(b->SetOf_0 == s);
    assert(all_finite(a) == forall|i: int|
        0 <= i < a->Vector_0.len() ==> all_finite(#[trigger] a->Vector_0[i]));
    assert(all_finite(b) == forall|i: int|
        0 <= i < b->SetOf_0.len() ==> all_finite(#[trigger] b->SetOf_0[i]));
}

/// The two fields of an entry are found by their names.
proof fn lemma_key_and_value(fields: Seq<(Seq<char>, JsonView)>)
    requires
        fields.len() == 2,
        fields[0].0 == "key"@,
        fields[1].0 == "value"@,
    ensures
        field_at(fields, "key"@) == 0,
        field_at(fields, "value"@) == 1,
{
    reveal_strlit("key");
    reveal_strlit("value");
    assert("key"@.len() != "value"@.len());
    assert(fields.drop_first()[0].0 == "value"@);
    reveal_with_fuel(field_at, 2);
}

/// An object with a kind and what a value of it holds.
fn tag(kind: Kind, data: JsonValue) -> (r: JsonValue)
    ensures
        json_tree(r) == tagged(kind, json_tree(data)),
{
    let mut fields: Vec<(String, JsonValue)> = Vec::new();
    fields.push(("@data-type".to_owned(), json_text(kind.name())));
    fields.push(("data".to_owned(), data));
    proof {
        reveal_strlit("@data-type");
        reveal_strlit("data");
        assert("@data-type"@.len() != "data"@.len());
        assert(json_fields(fields@) =~= tagged(kind, json_tree(data))->Object_0);
    }
    json_object(fields)
}

/// What a value holds, as JSON, without its kind.
pub(crate) fn encode_data(v: &Value, offset: Option<UtcOffset>) -> (r: Result<
    JsonValue,
    EncodeError,
>)
    ensures
        match r {
            Ok(j) => encoded(v@, offset_view(offset)) == Ok::<JsonView, EncodeErrorView>(
                tagged(Kind::of(v@), json_tree(j)),
            ) && settled(v@, offset_view(offset)),
            Err(e) => encoded(v@, offset_view(offset)) == Err::<JsonView, EncodeErrorView>(e@),
        },
    decreases *v, 0nat,
{
    broadcast use lemma_view;

    match v {
        Value::Nil => {
            let fields: Vec<(String, JsonValue)> = Vec::new();
            assert(json_fields(fields@) =~= Seq::empty());
            Ok(json_object(fields))
        },
        Value::Boolean(x) => Ok(json_bool(*x)),
        Value::Count(x) => Ok(json_unsigned(*x)),
        Value::Integer(x) => Ok(json_signed(*x)),
        Value::Real(x) => Ok(json_real(*x)),
        Value::Timespan(x) => match x.to_text() {
            Ok(s) => Ok(json_text(s.as_str())),
            Err(e) => Err(EncodeError::Timespan(e)),
        },
        Value::Timestamp(x) => match x.to_text(offset) {
            Ok(s) => Ok(json_text(s.as_str())),
            Err(e) => Err(EncodeError::Timestamp(e)),
        },
        Value::String(x) => Ok(json_text(x.as_str())),
        Value::EnumValue(x) => Ok(json_text(x.as_str())),
        Value::Address(x) => Ok(json_text(x.to_string().as_str())),
        Value::Subnet(x) => Ok(json_text(x.to_string().as_str())),
        Value::Port(x) => Ok(json_text(x.to_string().as_str())),
        Value::Vector(xs) => {
            assert(decreases_to!(*v => v->Vector_0));
            match encode_all(xs, offset) {
                Ok(items) => Ok(json_array(items)),
                Err(e) => Err(e),
            }
        },
        Value::SetOf(s) => {
            assert(decreases_to!(*v => v->SetOf_0));
            let items = s.items();
            assert(decreases_to!(*s => *items));
            match encode_all(items, offset) {
                Ok(items) => Ok(json_array(items)),
                Err(e) => Err(e),
            }
        },
        Value::Table(t) => {
            assert(decreases_to!(*v => v->Table_0));
            let entries = t.entries();
            assert(decreases_to!(*t => *entries));
            match encode_entries(entries, offset) {
                Ok(items) => Ok(json_array(items)),
                Err(e) => Err(e),
            }
        },
    }
}

fn encode_value(v: &Value, offset: Option<UtcOffset>) -> (r: Result<JsonValue, EncodeError>)
    ensures
        match r {
            Ok(j) => encoded(v@, offset_view(offset)) == Ok::<JsonView, EncodeErrorView>(
                json_tree(j),
            ) && settled(v@, offset_view(offset)),
            Err(e) => encoded(v@, offset_view(offset)) == Err::<JsonView, EncodeErrorView>(e@),
        },
    decreases *v, 1nat,
{
    match encode_data(v, offset) {
        Ok(data) => Ok(tag(v.kind(), data)),
        Err(e) => Err(e),
    }
}

fn encode_all(xs: &Vec<Value>, offset: Option<UtcOffset>) -> (r: Result<
    Vec<JsonValue>,
    EncodeError,
>)
    ensures
        match r {
            Ok(items) => encoded_all(views(xs@), offset_view(offset)) == Ok::<
                Seq<JsonView>,
                EncodeErrorView,
            >(json_trees(items@)) && forall|i: int|
                0 <= i < xs.len() ==> settled(#[trigger] views(xs@)[i], offset_view(offset)),
            Err(e) => encoded_all(views(xs@), offset_view(offset)) == Err::<
                Seq<JsonView>,
                EncodeErrorView,
            >(e@),
        },
    decreases *xs, 0nat,
{
    let ghost all = views(xs@);
    let ghost o = offset_view(offset);
    let mut out: Vec<JsonValue> = Vec::new();
    let mut i: usize = 0;
    assert(json_trees(out@) =~= Seq::empty());
    while i < xs.len()
        invariant
            i <= xs.len(),
            all == views(xs@),
            o == offset_view(offset),
            encoded_all(all.take(i as int), o) == Ok::<Seq<JsonView>, EncodeErrorView>(
                json_trees(out@),
            ),
            forall|j: int| 0 <= j < i ==> settled(#[trigger] all[j], o),
        decreases xs.len() - i,
    {
        assert(decreases_to!(*xs => xs@));
        assert(decreases_to!(xs@ => xs@[i as int]));
        assert(all.take(i + 1).drop_last() =~= all.take(i as int));
        assert(all.take(i + 1).last() == xs@[i as int]@);
        match encode_value(&xs[i], offset) {
            Ok(j) => {
                let ghost before = json_trees(out@);
                out.push(j);
                assert(json_trees(out@) =~= before.push(json_tree(j)));
            },
            Err(e) => {
                proof {
                    lemma_encoded_all_fails(all, i + 1, o);
                }
                return Err(e);
            },
        }
        i = i + 1;
    }
    assert(all.take(i as int) =~= all);
    Ok(out)
}

/// Where some values cannot be written, more of them cannot either.
proof fn lemma_encoded_all_fails(s: Seq<ValueView>, n: int, offset: Option<int>)
    requires
        0 <= n <= s.len(),
        encoded_all(s.take(n), offset) is Err,
    ensures
        encoded_all(s, offset) == encoded_all(s.take(n), offset),
    decreases s.len() - n,
{
    if n < s.len() {
        assert(s.take(n + 1).drop_last() =~= s.take(n));
        lemma_encoded_all_fails(s, n + 1, offset);
    } else {
        assert(s.take(n) =~= s);
    }
}

fn encode_entries(xs: &Vec<TableEntry>, offset: Option<UtcOffset>) -> (r: Result<
    Vec<JsonValue>,
    EncodeError,
>)
    ensures
        match r {
            Ok(items) => encoded_entries(views(xs@), offset_view(offset)) == Ok::<
                Seq<JsonView>,
                EncodeErrorView,
            >(json_trees(items@)) && forall|i: int|
                0 <= i < xs.len() ==> settled((#[trigger] views(xs@)[i]).0, offset_view(offset))
                    && settled(views(xs@)[i].1, offset_view(offset)),
            Err(e) => encoded_entries(views(xs@), offset_view(offset)) == Err::<
                Seq<JsonView>,
                EncodeErrorView,
            >(e@),
        },
    decreases *xs, 0nat,
{
    let ghost all = views(xs@);
    let ghost o = offset_view(offset);
    let mut out: Vec<JsonValue> = Vec::new();
    let mut i: usize = 0;
    assert(json_trees(out@) =~= Seq::empty());
    while i < xs.len()
        invariant
            i <= xs.len(),
            all == views(xs@),
            o == offset_view(offset),
            encoded_entries(all.take(i as int), o) == Ok::<Seq<JsonView>, EncodeErrorView>(
                json_trees(out@),
            ),
            forall|j: int| 0 <= j < i ==> settled((#[trigger] all[j]).0, o) && settled(all[j].1, o),
        decreases xs.len() - i,
    {
        let x = &xs[i];
        assert(decreases_to!(*xs => xs@));
        assert(decreases_to!(xs@ => xs@[i as int]));
        assert(decreases_to!(*x => x.key));
        assert(decreases_to!(*x => x.value));
        assert(all.take(i + 1).drop_last() =~= all.take(i as int));
        assert(all.take(i + 1).last() == x@);
        let key = match encode_value(&x.key, offset) {
            Ok(j) => j,
            Err(e) => {
                proof {
                    lemma_encoded_entries_fails(all, i + 1, o);
                }
                return Err(e);
            },
        };
        let value = match encode_value(&x.value, offset) {
            Ok(j) => j,
            Err(e) => {
                proof {
                    lemma_encoded_entries_fails(all, i + 1, o);
                }
                return Err(e);
            },
        };
        let mut fields: Vec<(String, JsonValue)> = Vec::new();
        fields.push(("key".to_owned(), key));
        fields.push(("value".to_owned(), value));
        proof {
            reveal_strlit("key");
            reveal_strlit("value");
            assert("key"@.len() != "value"@.len());
            assert(json_fields(fields@) =~= seq![
                ("key"@, json_tree(key)),
                ("value"@, json_tree(value)),
            ]);
        }
        let ghost before = json_trees(out@);
        out.push(json_object(fields));
        assert(json_trees(out@) =~= before.push(
            JsonView::Object(seq![("key"@, json_tree(key)), ("value"@, json_tree(value))]),
        ));
        i = i + 1;
    }
    assert(all.take(i as int) =~= all);
    Ok(out)
}

/// Where some entries cannot be written, more of them cannot either.
proof fn lemma_encoded_entries_fails(s: Seq<(ValueView, ValueView)>, n: int, offset: Option<int>)
    requires
        0 <= n <= s.len(),
        encoded_entries(s.take(n), offset) is Err,
    ensures
        encoded_entries(s, offset) == encoded_entries(s.take(n), offset),
    decreases s.len() - n,
{
    if n < s.len() {
        assert(s.take(n + 1).drop_last() =~= s.take(n));
        lemma_encoded_entries_fails(s, n + 1, offset);
    } else {
        assert(s.take(n) =~= s);
    }
}

fn describe_range(n: i128, expected: &str) -> (r: String)
    requires
        i64::MIN <= n <= u64::MAX,
    ensures
        r@ == out_of_range(n as int, expected@),
{
    let number = if n < 0 {
        format_integer(n as i64)
    } else {
        format_unsigned(n as u128)
    };
    joined(
        "invalid value: integer `",
        number.as_str(),
        joined("`, expected ", expected, "").as_str(),
    )
}

/// Describes an array with the wrong number of items.
pub(crate) fn describe_length(n: usize, expected: &str) -> (r: String)
    ensures
        r@ == wrong_length(n as nat, expected@),
{
    joined(
        "invalid length ",
        format_unsigned(n as u128).as_str(),
        joined(", expected ", expected, "").as_str(),
    )
}

fn describe_surplus(n: usize, buffered: bool) -> (r: String)
    ensures
        r@ == surplus(n as nat, buffered),
{
    if buffered {
        describe_length(n, "2 elements in sequence")
    } else {
        describe_length(n, "fewer elements in array")
    }
}

fn decode_name(name: &str) -> (r: Result<Kind, DecodeError>)
    ensures
        match r {
            Ok(kind) => kind_named(name@) == Ok::<Kind, DecodeErrorView>(kind),
            Err(e) => kind_named(name@) == Err::<Kind, DecodeErrorView>(e@),
        },
{
    match Kind::from_name(name) {
        Some(kind) => Ok(kind),
        None => Err(DecodeError::UnknownVariant(name.to_owned())),
    }
}

fn wrong(j: &JsonValue, expected: &str) -> (e: DecodeError)
    ensures
        e@ == DecodeErrorView::InvalidType(invalid_type(json_tree(*j), expected@)),
{
    DecodeError::InvalidType(json_invalid_type(j, expected))
}

fn check_unit(j: &JsonValue, buffered: bool) -> (r: bool)
    ensures
        r == is_unit(json_tree(*j), buffered),
{
    match json_entries(j) {
        Some(entries) => buffered && entries.len() == 0,
        None => j.is_null(),
    }
}

pub(crate) fn decode_tag(j: &JsonValue, buffered: bool) -> (r: Result<Kind, DecodeError>)
    ensures
        match r {
            Ok(kind) => tag_kind(json_tree(*j), buffered) == Ok::<Kind, DecodeErrorView>(kind),
            Err(e) => tag_kind(json_tree(*j), buffered) == Err::<Kind, DecodeErrorView>(e@),
        },
{
    if let Some(name) = j.as_str() {
        return decode_name(name);
    }
    match json_entries(j) {
        None => Err(wrong(j, "string or map")),
        Some(entries) => {
            if entries.len() != 1 {
                return Err(
                    DecodeError::InvalidValue(
                        "invalid value: map, expected map with a single key".to_owned(),
                    ),
                );
            }
            assert(json_tree(*j)->Object_0[0] == (entries@[0].0@, json_tree(*entries@[0].1)));
            match decode_name(entries[0].0.as_str()) {
                Err(e) => Err(e),
                Ok(kind) => if check_unit(entries[0].1, buffered) {
                    Ok(kind)
                } else {
                    Err(wrong(entries[0].1, "unit"))
                },
            }
        },
    }
}

pub(crate) fn decode_item(j: &JsonValue, buffered: bool) -> (r: Result<Kind, DecodeError>)
    ensures
        match r {
            Ok(kind) => item_kind(json_tree(*j), buffered) == Ok::<Kind, DecodeErrorView>(kind),
            Err(e) => item_kind(json_tree(*j), buffered) == Err::<Kind, DecodeErrorView>(e@),
        },
{
    if let Some(name) = j.as_str() {
        return decode_name(name);
    }
    if buffered {
        if let Some(n) = j.as_u64() {
            return match Kind::from_index(n) {
                Some(kind) => Ok(kind),
                None => Err(
                    DecodeError::InvalidValue(
                        describe_range(n as i128, "variant index 0 <= i < 15"),
                    ),
                ),
            };
        }
    }
    Err(wrong(j, "variant identifier"))
}

fn decode_value(j: &JsonValue, buffered: bool, offset: Option<UtcOffset>) -> (r: Result<
    Value,
    DecodeError,
>)
    ensures
        match r {
            Ok(v) => decoded(json_tree(*j), buffered, offset_view(offset)) == Ok::<
                ValueView,
                DecodeErrorView,
            >(v@),
            Err(e) => decoded(json_tree(*j), buffered, offset_view(offset)) == Err::<
                ValueView,
                DecodeErrorView,
            >(e@),
        },
    decreases json_tree(*j),
{
    broadcast use lemma_view;

    let ghost t = json_tree(*j);
    if let Some(items) = j.as_array() {
        if items.len() == 0 {
            return Err(
                DecodeError::InvalidLength(describe_length(0, "adjacently tagged enum Value")),
            );
        }
        assert(t->Array_0[0] == json_tree(items@[0]));
        let kind = match decode_item(&items[0], buffered) {
            Err(e) => {
                return Err(e);
            },
            Ok(kind) => kind,
        };
        if items.len() == 1 {
            return Err(
                DecodeError::InvalidLength(describe_length(1, "adjacently tagged enum Value")),
            );
        }
        assert(t->Array_0[1] == json_tree(items@[1]));
        assert(decreases_to!(t => t->Array_0));
        assert(decreases_to!(t->Array_0 => t->Array_0[1]));
        match decode_as(kind, &items[1], buffered, offset) {
            Err(e) => Err(e),
            Ok(v) => if items.len() > 2 {
                Err(DecodeError::InvalidLength(describe_surplus(items.len(), buffered)))
            } else {
                Ok(v)
            },
        }
    } else if let Some(entries) = json_entries(j) {
        let ghost fields = t->Object_0;
        let k: usize = find_entry(&entries, "@data-type");
        let d: usize = find_entry(&entries, "data");
        if k >= entries.len() {
            return Err(DecodeError::MissingField("@data-type".to_owned()));
        }
        assert(fields[k as int] == (entries@[k as int].0@, json_tree(*entries@[k as int].1)));
        let kind = match decode_tag(entries[k].1, buffered) {
            Err(e) => {
                return Err(e);
            },
            Ok(kind) => kind,
        };
        if kind == Kind::Nil {
            return Ok(Value::Nil);
        }
        if d >= entries.len() {
            return Err(DecodeError::MissingField("data".to_owned()));
        }
        assert(fields[d as int] == (entries@[d as int].0@, json_tree(*entries@[d as int].1)));
        assert(decreases_to!(t => t->Object_0));
        assert(decreases_to!(fields => fields[d as int]));
        decode_as(kind, entries[d].1, buffered || d < k, offset)
    } else {
        Err(wrong(j, "adjacently tagged enum Value"))
    }
}

fn decode_as(kind: Kind, d: &JsonValue, buffered: bool, offset: Option<UtcOffset>) -> (r: Result<
    Value,
    DecodeError,
>)
    ensures
        match r {
            Ok(v) => decoded_as(kind, json_tree(*d), buffered, offset_view(offset)) == Ok::<
                ValueView,
                DecodeErrorView,
            >(v@),
            Err(e) => decoded_as(kind, json_tree(*d), buffered, offset_view(offset)) == Err::<
                ValueView,
                DecodeErrorView,
            >(e@),
        },
    decreases json_tree(*d),
{
    broadcast use lemma_view;

    let ghost t = json_tree(*d);
    match kind {
        Kind::Nil => Ok(Value::Nil),
        Kind::Boolean => match d.as_bool() {
            Some(b) => Ok(Value::Boolean(b)),
            None => Err(wrong(d, "a boolean")),
        },
        Kind::Count => match (d.as_u64(), d.as_i64()) {
            (Some(n), _) => Ok(Value::Count(n)),
            (None, Some(n)) => Err(DecodeError::InvalidValue(describe_range(n as i128, "u64"))),
            (None, None) => Err(wrong(d, "u64")),
        },
        Kind::Integer => match (d.as_i64(), d.as_u64()) {
            (Some(n), _) => Ok(Value::Integer(n)),
            (None, Some(n)) => Err(DecodeError::InvalidValue(describe_range(n as i128, "i64"))),
            (None, None) => Err(wrong(d, "i64")),
        },
        Kind::Real => match json_as_real(d) {
            Some(x) => Ok(Value::Real(x)),
            None => Err(wrong(d, "f64")),
        },
        Kind::Vector => match d.as_array() {
            Some(items) => {
                assert(decreases_to!(t => t->Array_0));
                match decode_all(items, buffered, offset) {
                    Ok(xs) => Ok(Value::Vector(xs)),
                    Err(e) => Err(e),
                }
            },
            None => Err(wrong(d, "a sequence")),
        },
        Kind::SetOf => match d.as_array() {
            Some(items) => {
                assert(decreases_to!(t => t->Array_0));
                match decode_all(items, buffered, offset) {
                    Ok(xs) => Ok(Value::SetOf(ValueSet::from_first(xs))),
                    Err(e) => Err(e),
                }
            },
            None => Err(wrong(d, "a sequence")),
        },
        Kind::Table => match d.as_array() {
            Some(items) => {
                assert(decreases_to!(t => t->Array_0));
                match decode_entries(items, buffered, offset) {
                    Ok(xs) => Ok(Value::Table(ValueTable::from_entries(xs))),
                    Err(e) => Err(e),
                }
            },
            None => Err(wrong(d, "a sequence")),
        },
        Kind::Address => match d.as_str() {
            Some(s) => decode_text(kind, s, offset),
            None => Err(wrong(d, "IP address")),
        },
        _ => match d.as_str() {
            Some(s) => decode_text(kind, s, offset),
            None => Err(wrong(d, "a string")),
        },
    }
}

fn decode_text(kind: Kind, s: &str, offset: Option<UtcOffset>) -> (r: Result<Value, DecodeError>)
    ensures
        match r {
            Ok(v) => decoded_text(kind, s@, offset_view(offset)) == Ok::<
                ValueView,
                DecodeErrorView,
            >(v@),
            Err(e) => decoded_text(kind, s@, offset_view(offset)) == Err::<
                ValueView,
                DecodeErrorView,
            >(e@),
        },
{
    broadcast use lemma_view;

    match kind {
        Kind::Timespan => match Timespan::from_str(s) {
            Ok(x) => Ok(Value::Timespan(x)),
            Err(e) => Err(DecodeError::Timespan(e)),
        },
        Kind::Timestamp => match Timestamp::from_str(s, offset) {
            Ok(x) => Ok(Value::Timestamp(x)),
            Err(e) => Err(DecodeError::Timestamp(e)),
        },
        Kind::EnumValue => Ok(Value::EnumValue(s.to_owned())),
        Kind::Address => match IpAddr::from_str(s) {
            Ok(x) => Ok(Value::Address(x)),
            Err(e) => Err(DecodeError::Address(e)),
        },
        Kind::Subnet => match IpNetwork::from_str(s) {
            Some(x) => Ok(Value::Subnet(x)),
            None => Err(DecodeError::Subnet(s.to_owned())),
        },
        Kind::Port => match Port::from_str(s) {
            Ok(x) => Ok(Value::Port(x)),
            Err(e) => Err(DecodeError::Port(e)),
        },
        _ => Ok(Value::String(s.to_owned())),
    }
}

fn decode_all(items: &Vec<JsonValue>, buffered: bool, offset: Option<UtcOffset>) -> (r: Result<
    Vec<Value>,
    DecodeError,
>)
    ensures
        match r {
            Ok(xs) => decoded_all(json_trees(items@), buffered, offset_view(offset)) == Ok::<
                Seq<ValueView>,
                DecodeErrorView,
            >(views(xs@)),
            Err(e) => decoded_all(json_trees(items@), buffered, offset_view(offset)) == Err::<
                Seq<ValueView>,
                DecodeErrorView,
            >(e@),
        },
    decreases json_trees(items@),
{
    let ghost all = json_trees(items@);
    let ghost o = offset_view(offset);
    let mut out: Vec<Value> = Vec::new();
    let mut i: usize = 0;
    assert(views(out@) =~= Seq::empty());
    while i < items.len()
        invariant
            i <= items.len(),
            all == json_trees(items@),
            o == offset_view(offset),
            decoded_all(all.take(i as int), buffered, o) == Ok::<Seq<ValueView>, DecodeErrorView>(
                views(out@),
            ),
        decreases items.len() - i,
    {
        assert(decreases_to!(all => all[i as int]));
        assert(all.take(i + 1).drop_last() =~= all.take(i as int));
        assert(all.take(i + 1).last() == json_tree(items@[i as int]));
        match decode_value(&items[i], buffered, offset) {
            Ok(v) => {
                let ghost before = views(out@);
                out.push(v);
                assert(views(out@) =~= before.push(v@));
            },
            Err(e) => {
                proof {
                    lemma_decoded_all_fails(all, i + 1, buffered, o);
                }
                return Err(e);
            },
        }
        i = i + 1;
    }
    assert(all.take(i as int) =~= all);
    Ok(out)
}

/// Where some values cannot be read, more of them cannot either.
proof fn lemma_decoded_all_fails(s: Seq<JsonView>, n: int, buffered: bool, offset: Option<int>)
    requires
        0 <= n <= s.len(),
        decoded_all(s.take(n), buffered, offset) is Err,
    ensures
        decoded_all(s, buffered, offset) == decoded_all(s.take(n), buffered, offset),
    decreases s.len() - n,
{
    if n < s.len() {
        assert(s.take(n + 1).drop_last() =~= s.take(n));
        lemma_decoded_all_fails(s, n + 1, buffered, offset);
    } else {
        assert(s.take(n) =~= s);
    }
}

fn decode_entries(items: &Vec<JsonValue>, buffered: bool, offset: Option<UtcOffset>) -> (r: Result<
    Vec<TableEntry>,
    DecodeError,
>)
    ensures
        match r {
            Ok(xs) => decoded_entries(json_trees(items@), buffered, offset_view(offset)) == Ok::<
                Seq<(ValueView, ValueView)>,
                DecodeErrorView,
            >(views(xs@)),
            Err(e) => decoded_entries(json_trees(items@), buffered, offset_view(offset)) == Err::<
                Seq<(ValueView, ValueView)>,
                DecodeErrorView,
            >(e@),
        },
    decreases json_trees(items@),
{
    let ghost all = json_trees(items@);
    let ghost o = offset_view(offset);
    let mut out: Vec<TableEntry> = Vec::new();
    let mut i: usize = 0;
    assert(views(out@) =~= Seq::empty());
    while i < items.len()
        invariant
            i <= items.len(),
            all == json_trees(items@),
            o == offset_view(offset),
            decoded_entries(all.take(i as int), buffered, o) == Ok::<
                Seq<(ValueView, ValueView)>,
                DecodeErrorView,
            >(views(out@)),
        decreases items.len() - i,
    {
        assert(decreases_to!(all => all[i as int]));
        assert(all.take(i + 1).drop_last() =~= all.take(i as int));
        assert(all.take(i + 1).last() == json_tree(items@[i as int]));
        match decode_entry(&items[i], buffered, offset) {
            Ok(v) => {
                let ghost before = views(out@);
                out.push(v);
                assert(views(out@) =~= before.push(v@));
            },
            Err(e) => {
                proof {
                    lemma_decoded_entries_fails(all, i + 1, buffered, o);
                }
                return Err(e);
            },
        }
        i = i + 1;
    }
    assert(all.take(i as int) =~= all);
    Ok(out)
}

/// Where some entries cannot be read, more of them cannot either.
proof fn lemma_decoded_entries_fails(s: Seq<JsonView>, n: int, buffered: bool, offset: Option<int>)
    requires
        0 <= n <= s.len(),
        decoded_entries(s.take(n), buffered, offset) is Err,
    ensures
        decoded_entries(s, buffered, offset) == decoded_entries(s.take(n), buffered, offset),
    decreases s.len() - n,
{
    if n < s.len() {
        assert(s.take(n + 1).drop_last() =~= s.take(n));
        lemma_decoded_entries_fails(s, n + 1, buffered, offset);
    } else {
        assert(s.take(n) =~= s);
    }
}

fn decode_entry(j: &JsonValue, buffered: bool, offset: Option<UtcOffset>) -> (r: Result<
    TableEntry,
    DecodeError,
>)
    ensures
        match r {
            Ok(v) => decoded_entry(json_tree(*j), buffered, offset_view(offset)) == Ok::<
                (ValueView, ValueView),
                DecodeErrorView,
            >(v@),
            Err(e) => decoded_entry(json_tree(*j), buffered, offset_view(offset)) == Err::<
                (ValueView, ValueView),
                DecodeErrorView,
            >(e@),
        },
    decreases json_tree(*j),
{
    let ghost t = json_tree(*j);
    if let Some(items) = j.as_array() {
        if items.len() == 0 {
            return Err(
                DecodeError::InvalidLength(describe_length(0, "struct TableEntry with 2 elements")),
            );
        }
        assert(decreases_to!(t => t->Array_0));
        assert(t->Array_0[0] == json_tree(items@[0]));
        assert(decreases_to!(t->Array_0 => t->Array_0[0]));
        let key = match decode_value(&items[0], buffered, offset) {
            Err(e) => {
                return Err(e);
            },
            Ok(key) => key,
        };
        if items.len() == 1 {
            return Err(
                DecodeError::InvalidLength(describe_length(1, "struct TableEntry with 2 elements")),
            );
        }
        assert(t->Array_0[1] == json_tree(items@[1]));
        assert(decreases_to!(t->Array_0 => t->Array_0[1]));
        let value = match decode_value(&items[1], buffered, offset) {
            Err(e) => {
                return Err(e);
            },
            Ok(value) => value,
        };
        if items.len() > 2 {
            Err(DecodeError::InvalidLength(describe_surplus(items.len(), buffered)))
        } else {
            Ok(TableEntry { key, value })
        }
    } else if let Some(entries) = json_entries(j) {
        let ghost fields = t->Object_0;
        let k: usize = find_entry(&entries, "key");
        let v: usize = find_entry(&entries, "value");
        let has_key = k < entries.len();
        let has_value = v < entries.len();
        assert(decreases_to!(t => t->Object_0));
        proof {
            if has_key {
                assert(fields[k as int] == (
                    entries@[k as int].0@,
                    json_tree(*entries@[k as int].1),
                ));
                assert(decreases_to!(fields => fields[k as int]));
            }
            if has_value {
                assert(fields[v as int] == (
                    entries@[v as int].0@,
                    json_tree(*entries@[v as int].1),
                ));
                assert(decreases_to!(fields => fields[v as int]));
            }
        }
        if has_key && !(has_value && v < k) {
            let key = match decode_value(entries[k].1, buffered, offset) {
                Err(e) => {
                    return Err(e);
                },
                Ok(key) => key,
            };
            if !has_value {
                return Err(DecodeError::MissingField("value".to_owned()));
            }
            match decode_value(entries[v].1, buffered, offset) {
                Err(e) => Err(e),
                Ok(value) => Ok(TableEntry { key, value }),
            }
        } else if has_value {
            let value = match decode_value(entries[v].1, buffered, offset) {
                Err(e) => {
                    return Err(e);
                },
                Ok(value) => value,
            };
            if !has_key {
                return Err(DecodeError::MissingField("key".to_owned()));
            }
            match decode_value(entries[k].1, buffered, offset) {
                Err(e) => Err(e),
                Ok(key) => Ok(TableEntry { key, value }),
            }
        } else {
            Err(DecodeError::MissingField("key".to_owned()))
        }
    } else {
        Err(wrong(j, "struct TableEntry"))
    }
}

/// Reads a value from JSON that was kept until it was known what it is to be read as.
pub(crate) fn decode_buffered(j: &JsonValue, offset: Option<UtcOffset>) -> (r: Result<
    Value,
    DecodeError,
>)
    ensures
        match r {
            Ok(v) => decoded(json_tree(*j), true, offset_view(offset)) == Ok::<
                ValueView,
                DecodeErrorView,
            >(v@),
            Err(e) => decoded(json_tree(*j), true, offset_view(offset)) == Err::<
                ValueView,
                DecodeErrorView,
            >(e@),
        },
{
    decode_value(j, true, offset)
}

impl Value {
    /// Writes the value as JSON, with points in time in local time.
    pub fn to_json(&self, offset: Option<UtcOffset>) -> (r: Result<JsonValue, EncodeError>)
        ensures
            match r {
                Ok(j) => encoded(self@, offset_view(offset)) == Ok::<JsonView, EncodeErrorView>(
                    json_tree(j),
                ) && settled(self@, offset_view(offset)),
                Err(e) => encoded(self@, offset_view(offset)) == Err::<JsonView, EncodeErrorView>(
                    e@,
                ),
            },
            r matches Ok(j) ==> all_finite(self@) ==> forall|buffered: bool| #[trigger]
                decoded(json_tree(j), buffered, offset_view(offset)) == Ok::<
                    ValueView,
                    DecodeErrorView,
                >(localized(self@, offset_view(offset))),
    {
        let r = encode_value(self, offset);
        proof {
            if r is Ok && all_finite(self@) {
                encoding_reads_back(self@, true, offset_view(offset));
                encoding_reads_back(self@, false, offset_view(offset));
            }
        }
        r
    }

    /// Reads a value from JSON, with points in time in local time.
    pub fn from_json(j: &JsonValue, offset: Option<UtcOffset>) -> (r: Result<Value, DecodeError>)
        ensures
            match r {
                Ok(v) => decoded(json_tree(*j), false, offset_view(offset)) == Ok::<
                    ValueView,
                    DecodeErrorView,
                >(v@),
                Err(e) => decoded(json_tree(*j), false, offset_view(offset)) == Err::<
                    ValueView,
                    DecodeErrorView,
                >(e@),
            },
    {
        decode_value(j, false, offset)
    }
}

} // verus!
