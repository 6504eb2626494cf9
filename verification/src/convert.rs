//! Conversions between plain Rust values and [`Value`].
use std::collections::{HashMap, HashSet};
use std::num::TryFromIntError;

use vstd::prelude::*;
use vstd::std_specs::convert::{FromSpec, FromSpecImpl, TryFromSpecImpl};
use vstd::std_specs::hash::obeys_key_model;

use crate::net::{IpAddr, IpNetwork};
use crate::port::Port;
use crate::scalar::{Real, Timespan, Timestamp};
use crate::sorted::{collected, views};
use crate::value::{lemma_view, TableEntry, Value, ValueSet, ValueTable, ValueView};

verus! {

/// A value cannot be converted to the wanted type.
#[derive(Debug, PartialEq)]
pub enum ConversionError {
    /// The value is of another kind.
    MismatchedTypes,
    /// The value is of the right kind, but out of range.
    Domain(TryFromIntError),
}

impl ConversionError {
    pub open spec fn text(self) -> Seq<char> {
        match self {
            ConversionError::MismatchedTypes => "cannot convert value to target type"@,
            ConversionError::Domain(_) => "conversion to target type failed"@,
        }
    }

    /// Describes the error.
    pub fn to_string(&self) -> (r: String)
        ensures
            r@ == self.text(),
    {
        match self {
            ConversionError::MismatchedTypes => "cannot convert value to target type".to_owned(),
            ConversionError::Domain(_) => "conversion to target type failed".to_owned(),
        }
    }
}

/// A number is read from a count: it is the number that the count holds, where that is in range.
pub open spec fn reads_count(v: ValueView, max: int, r: Result<int, ConversionError>) -> bool {
    match v {
        ValueView::Count(n) => if n <= max {
            r matches Ok(x) && x == n
        } else {
            r matches Err(ConversionError::Domain(_))
        },
        _ => r == Err::<int, ConversionError>(ConversionError::MismatchedTypes),
    }
}

/// A number is read from an integer: it is the number that the integer holds, where that is in
/// range.
pub open spec fn reads_integer(
    v: ValueView,
    min: int,
    max: int,
    r: Result<int, ConversionError>,
) -> bool {
    match v {
        ValueView::Integer(n) => if min <= n <= max {
            r matches Ok(x) && x == n
        } else {
            r matches Err(ConversionError::Domain(_))
        },
        _ => r == Err::<int, ConversionError>(ConversionError::MismatchedTypes),
    }
}

/// A number in range comes back from the count that it was converted to.
pub proof fn count_reads_back(n: u64, max: int, r: Result<int, ConversionError>)
    requires
        n <= max,
        reads_count(ValueView::Count(n), max, r),
    ensures
        r == Ok::<int, ConversionError>(n as int),
{
}

/// A number in range comes back from the integer that it was converted to.
pub proof fn integer_reads_back(n: i64, min: int, max: int, r: Result<int, ConversionError>)
    requires
        min <= n <= max,
        reads_integer(ValueView::Integer(n), min, max, r),
    ensures
        r == Ok::<int, ConversionError>(n as int),
{
}

/// A number comes only from a count, and only where it is in range: other values are of the wrong
/// kind, and larger numbers are out of range.
pub proof fn counts_are_checked(v: ValueView, n: u64, max: int, r: Result<int, ConversionError>)
    ensures
        !(v is Count) && reads_count(v, max, r) ==> r == Err::<int, ConversionError>(
            ConversionError::MismatchedTypes,
        ),
        n > max && reads_count(ValueView::Count(n), max, r) ==> (r matches Err(
            ConversionError::Domain(_),
        )),
{
}

/// A number comes only from an integer, and only where it is in range: other values are of the wrong
/// kind, and smaller and larger numbers are out of range.
pub proof fn integers_are_checked(
    v: ValueView,
    n: i64,
    min: int,
    max: int,
    r: Result<int, ConversionError>,
)
    ensures
        !(v is Integer) && reads_integer(v, min, max, r) ==> r == Err::<int, ConversionError>(
            ConversionError::MismatchedTypes,
        ),
        (n < min || n > max) && reads_integer(ValueView::Integer(n), min, max, r) ==> (r matches Err(
            ConversionError::Domain(_),
        )),
{
}

/// Unsigned numbers become counts, and signed ones integers, of the same number.
pub proof fn numbers_have_kinds(
    a: u64,
    b: u32,
    c: u16,
    d: u8,
    e: i64,
    f: i32,
    g: i16,
    h: i8,
)
    ensures
        <Value as FromSpec<u64>>::from_spec(a)@ matches ValueView::Count(n) && n == a,
        <Value as FromSpec<u32>>::from_spec(b)@ matches ValueView::Count(n) && n == b,
        <Value as FromSpec<u16>>::from_spec(c)@ matches ValueView::Count(n) && n == c,
        <Value as FromSpec<u8>>::from_spec(d)@ matches ValueView::Count(n) && n == d,
        <Value as FromSpec<i64>>::from_spec(e)@ matches ValueView::Integer(n) && n == e,
        <Value as FromSpec<i32>>::from_spec(f)@ matches ValueView::Integer(n) && n == f,
        <Value as FromSpec<i16>>::from_spec(g)@ matches ValueView::Integer(n) && n == g,
        <Value as FromSpec<i8>>::from_spec(h)@ matches ValueView::Integer(n) && n == h,
{
    broadcast use lemma_view;

}

/// Every other plain value becomes the value of its kind that holds it.
pub proof fn plain_values_have_kinds(
    b: bool,
    x: Real,
    span: Timespan,
    point: Timestamp,
    s: String,
    addr: IpAddr,
    net: IpNetwork,
    port: Port,
)
    ensures
        <Value as FromSpec<bool>>::from_spec(b)@ == ValueView::Boolean(b),
        <Value as FromSpec<Real>>::from_spec(x)@ == ValueView::Real(x),
        <Value as FromSpec<Timespan>>::from_spec(span)@ == ValueView::Timespan(span@),
        <Value as FromSpec<Timestamp>>::from_spec(point)@ == ValueView::Timestamp(point@),
        <Value as FromSpec<String>>::from_spec(s)@ == ValueView::String(s@),
        <Value as FromSpec<IpAddr>>::from_spec(addr)@ == ValueView::Address(addr),
        <Value as FromSpec<IpNetwork>>::from_spec(net)@ == ValueView::Subnet(net@),
        <Value as FromSpec<Port>>::from_spec(port)@ == ValueView::Port(port),
        <Value as FromSpec<()>>::from_spec(())@ == ValueView::Nil,
{
    broadcast use lemma_view;

}

/// What a reader is told of a value that cannot be converted.
pub proof fn errors_are_described(e: ConversionError)
    ensures
        e is MismatchedTypes ==> e.text() == "cannot convert value to target type"@,
        e is Domain ==> e.text() == "conversion to target type failed"@,
{
}

impl From<u64> for Value {
    fn from(value: u64) -> (r: Value) {
        Value::Count(value)
    }
}

impl FromSpecImpl<u64> for Value {
    open spec fn obeys_from_spec() -> bool {
        true
    }

    open spec fn from_spec(value: u64) -> Value {
        Value::Count(value)
    }
}

impl TryFrom<Value> for u64 {
    type Error = ConversionError;

    fn try_from(value: Value) -> (r: Result<u64, ConversionError>)
        ensures
            reads_count(
                value@,
                u64::MAX as int,
                match r {
                    Ok(n) => Ok(n as int),
                    Err(e) => Err(e),
                },
            ),
    {
        broadcast use lemma_view;

        match value {
            Value::Count(x) => Ok(x),
            _ => Err(ConversionError::MismatchedTypes),
        }
    }
}

impl TryFromSpecImpl<Value> for u64 {
    open spec fn obeys_try_from_spec() -> bool {
        false
    }

    open spec fn try_from_spec(value: Value) -> Result<u64, ConversionError> {
        arbitrary()
    }
}

impl From<u32> for Value {
    fn from(value: u32) -> (r: Value) {
        Value::Count(value as u64)
    }
}

impl FromSpecImpl<u32> for Value {
    open spec fn obeys_from_spec() -> bool {
        true
    }

    open spec fn from_spec(value: u32) -> Value {
        Value::Count(value as u64)
    }
}

impl TryFrom<Value> for u32 {
    type Error = ConversionError;

    fn try_from(value: Value) -> (r: Result<u32, ConversionError>)
        ensures
            reads_count(
                value@,
                u32::MAX as int,
                match r {
                    Ok(n) => Ok(n as int),
                    Err(e) => Err(e),
                },
            ),
    {
        broadcast use lemma_view;

        match value {
            Value::Count(x) => match u32::try_from(x) {
                Ok(n) => Ok(n),
                Err(e) => Err(ConversionError::Domain(e)),
            },
            _ => Err(ConversionError::MismatchedTypes),
        }
    }
}

impl TryFromSpecImpl<Value> for u32 {
    open spec fn obeys_try_from_spec() -> bool {
        false
    }

    open spec fn try_from_spec(value: Value) -> Result<u32, ConversionError> {
        arbitrary()
    }
}

impl From<u16> for Value {
    fn from(value: u16) -> (r: Value) {
        Value::Count(value as u64)
    }
}

impl FromSpecImpl<u16> for Value {
    open spec fn obeys_from_spec() -> bool {
        true
    }

    open spec fn from_spec(value: u16) -> Value {
        Value::Count(value as u64)
    }
}

impl TryFrom<Value> for u16 {
    type Error = ConversionError;

    fn try_from(value: Value) -> (r: Result<u16, ConversionError>)
        ensures
            reads_count(
                value@,
                u16::MAX as int,
                match r {
                    Ok(n) => Ok(n as int),
                    Err(e) => Err(e),
                },
            ),
    {
        broadcast use lemma_view;

        match value {
            Value::Count(x) => match u16::try_from(x) {
                Ok(n) => Ok(n),
                Err(e) => Err(ConversionError::Domain(e)),
            },
            _ => Err(ConversionError::MismatchedTypes),
        }
    }
}

impl TryFromSpecImpl<Value> for u16 {
    open spec fn obeys_try_from_spec() -> bool {
        false
    }

    open spec fn try_from_spec(value: Value) -> Result<u16, ConversionError> {
        arbitrary()
    }
}

impl From<u8> for Value {
    fn from(value: u8) -> (r: Value) {
        Value::Count(value as u64)
    }
}

impl FromSpecImpl<u8> for Value {
    open spec fn obeys_from_spec() -> bool {
        true
    }

    open spec fn from_spec(value: u8) -> Value {
        Value::Count(value as u64)
    }
}

impl TryFrom<Value> for u8 {
    type Error = ConversionError;

    fn try_from(value: Value) -> (r: Result<u8, ConversionError>)
        ensures
            reads_count(
                value@,
                u8::MAX as int,
                match r {
                    Ok(n) => Ok(n as int),
                    Err(e) => Err(e),
                },
            ),
    {
        broadcast use lemma_view;

        match value {
            Value::Count(x) => match u8::try_from(x) {
                Ok(n) => Ok(n),
                Err(e) => Err(ConversionError::Domain(e)),
            },
            _ => Err(ConversionError::MismatchedTypes),
        }
    }
}

impl TryFromSpecImpl<Value> for u8 {
    open spec fn obeys_try_from_spec() -> bool {
        false
    }

    open spec fn try_from_spec(value: Value) -> Result<u8, ConversionError> {
        arbitrary()
    }
}

impl From<i64> for Value {
    fn from(value: i64) -> (r: Value) {
        Value::Integer(value)
    }
}

impl FromSpecImpl<i64> for Value {
    open spec fn obeys_from_spec() -> bool {
        true
    }

    open spec fn from_spec(value: i64) -> Value {
        Value::Integer(value)
    }
}

impl TryFrom<Value> for i64 {
    type Error = ConversionError;

    fn try_from(value: Value) -> (r: Result<i64, ConversionError>)
        ensures
            reads_integer(
                value@,
                i64::MIN as int,
                i64::MAX as int,
                match r {
                    Ok(n) => Ok(n as int),
                    Err(e) => Err(e),
                },
            ),
    {
        broadcast use lemma_view;

        match value {
            Value::Integer(x) => Ok(x),
            _ => Err(ConversionError::MismatchedTypes),
        }
    }
}

impl TryFromSpecImpl<Value> for i64 {
    open spec fn obeys_try_from_spec() -> bool {
        false
    }

    open spec fn try_from_spec(value: Value) -> Result<i64, ConversionError> {
        arbitrary()
    }
}

impl From<i32> for Value {
    fn from(value: i32) -> (r: Value) {
        Value::Integer(value as i64)
    }
}

impl FromSpecImpl<i32> for Value {
    open spec fn obeys_from_spec() -> bool {
        true
    }

    open spec fn from_spec(value: i32) -> Value {
        Value::Integer(value as i64)
    }
}

impl TryFrom<Value> for i32 {
    type Error = ConversionError;

    fn try_from(value: Value) -> (r: Result<i32, ConversionError>)
        ensures
            reads_integer(
                value@,
                i32::MIN as int,
                i32::MAX as int,
                match r {
                    Ok(n) => Ok(n as int),
                    Err(e) => Err(e),
                },
            ),
    {
        broadcast use lemma_view;

        match value {
            Value::Integer(x) => match i32::try_from(x) {
                Ok(n) => Ok(n),
                Err(e) => Err(ConversionError::Domain(e)),
            },
            _ => Err(ConversionError::MismatchedTypes),
        }
    }
}

impl TryFromSpecImpl<Value> for i32 {
    open spec fn obeys_try_from_spec() -> bool {
        false
    }

    open spec fn try_from_spec(value: Value) -> Result<i32, ConversionError> {
        arbitrary()
    }
}

impl From<i16> for Value {
    fn from(value: i16) -> (r: Value) {
        Value::Integer(value as i64)
    }
}

impl FromSpecImpl<i16> for Value {
    open spec fn obeys_from_spec() -> bool {
        true
    }

    open spec fn from_spec(value: i16) -> Value {
        Value::Integer(value as i64)
    }
}

impl TryFrom<Value> for i16 {
    type Error = ConversionError;

    fn try_from(value: Value) -> (r: Result<i16, ConversionError>)
        ensures
            reads_integer(
                value@,
                i16::MIN as int,
                i16::MAX as int,
                match r {
                    Ok(n) => Ok(n as int),
                    Err(e) => Err(e),
                },
            ),
    {
        broadcast use lemma_view;

        match value {
            Value::Integer(x) => match i16::try_from(x) {
                Ok(n) => Ok(n),
                Err(e) => Err(ConversionError::Domain(e)),
            },
            _ => Err(ConversionError::MismatchedTypes),
        }
    }
}

impl TryFromSpecImpl<Value> for i16 {
    open spec fn obeys_try_from_spec() -> bool {
        false
    }

    open spec fn try_from_spec(value: Value) -> Result<i16, ConversionError> {
        arbitrary()
    }
}

impl From<i8> for Value {
    fn from(value: i8) -> (r: Value) {
        Value::Integer(value as i64)
    }
}

impl FromSpecImpl<i8> for Value {
    open spec fn obeys_from_spec() -> bool {
        true
    }

    open spec fn from_spec(value: i8) -> Value {
        Value::Integer(value as i64)
    }
}

impl TryFrom<Value> for i8 {
    type Error = ConversionError;

    fn try_from(value: Value) -> (r: Result<i8, ConversionError>)
        ensures
            reads_integer(
                value@,
                i8::MIN as int,
                i8::MAX as int,
                match r {
                    Ok(n) => Ok(n as int),
                    Err(e) => Err(e),
                },
            ),
    {
        broadcast use lemma_view;

        match value {
            Value::Integer(x) => match i8::try_from(x) {
                Ok(n) => Ok(n),
                Err(e) => Err(ConversionError::Domain(e)),
            },
            _ => Err(ConversionError::MismatchedTypes),
        }
    }
}

impl TryFromSpecImpl<Value> for i8 {
    open spec fn obeys_try_from_spec() -> bool {
        false
    }

    open spec fn try_from_spec(value: Value) -> Result<i8, ConversionError> {
        arbitrary()
    }
}

impl From<bool> for Value {
    fn from(value: bool) -> (r: Value) {
        Value::Boolean(value)
    }
}

impl FromSpecImpl<bool> for Value {
    open spec fn obeys_from_spec() -> bool {
        true
    }

    open spec fn from_spec(value: bool) -> Value {
        Value::Boolean(value)
    }
}

impl TryFrom<Value> for bool {
    type Error = ConversionError;

    fn try_from(value: Value) -> (r: Result<bool, ConversionError>)
        ensures
            match r {
                Ok(x) => value@ == ValueView::Boolean(x),
                Err(e) => e == ConversionError::MismatchedTypes && !(value@ is Boolean),
            },
    {
        broadcast use lemma_view;

        match value {
            Value::Boolean(x) => Ok(x),
            _ => Err(ConversionError::MismatchedTypes),
        }
    }
}

impl TryFromSpecImpl<Value> for bool {
    open spec fn obeys_try_from_spec() -> bool {
        false
    }

    open spec fn try_from_spec(value: Value) -> Result<bool, ConversionError> {
        arbitrary()
    }
}

impl From<Real> for Value {
    fn from(value: Real) -> (r: Value) {
        Value::Real(value)
    }
}

impl FromSpecImpl<Real> for Value {
    open spec fn obeys_from_spec() -> bool {
        true
    }

    open spec fn from_spec(value: Real) -> Value {
        Value::Real(value)
    }
}

impl TryFrom<Value> for Real {
    type Error = ConversionError;

    fn try_from(value: Value) -> (r: Result<Real, ConversionError>)
        ensures
            match r {
                Ok(x) => value@ == ValueView::Real(x),
                Err(e) => e == ConversionError::MismatchedTypes && !(value@ is Real),
            },
    {
        broadcast use lemma_view;

        match value {
            Value::Real(x) => Ok(x),
            _ => Err(ConversionError::MismatchedTypes),
        }
    }
}

impl TryFromSpecImpl<Value> for Real {
    open spec fn obeys_try_from_spec() -> bool {
        false
    }

    open spec fn try_from_spec(value: Value) -> Result<Real, ConversionError> {
        arbitrary()
    }
}

impl From<Timespan> for Value {
    fn from(value: Timespan) -> (r: Value) {
        Value::Timespan(value)
    }
}

impl FromSpecImpl<Timespan> for Value {
    open spec fn obeys_from_spec() -> bool {
        true
    }

    open spec fn from_spec(value: Timespan) -> Value {
        Value::Timespan(value)
    }
}

impl TryFrom<Value> for Timespan {
    type Error = ConversionError;

    fn try_from(value: Value) -> (r: Result<Timespan, ConversionError>)
        ensures
            match r {
                Ok(x) => value@ == ValueView::Timespan(x@),
                Err(e) => e == ConversionError::MismatchedTypes && !(value@ is Timespan),
            },
    {
        broadcast use lemma_view;

        match value {
            Value::Timespan(x) => Ok(x),
            _ => Err(ConversionError::MismatchedTypes),
        }
    }
}

impl TryFromSpecImpl<Value> for Timespan {
    open spec fn obeys_try_from_spec() -> bool {
        false
    }

    open spec fn try_from_spec(value: Value) -> Result<Timespan, ConversionError> {
        arbitrary()
    }
}

impl From<Timestamp> for Value {
    fn from(value: Timestamp) -> (r: Value) {
        Value::Timestamp(value)
    }
}

impl FromSpecImpl<Timestamp> for Value {
    open spec fn obeys_from_spec() -> bool {
        true
    }

    open spec fn from_spec(value: Timestamp) -> Value {
        Value::Timestamp(value)
    }
}

impl TryFrom<Value> for Timestamp {
    type Error = ConversionError;

    fn try_from(value: Value) -> (r: Result<Timestamp, ConversionError>)
        ensures
            match r {
                Ok(x) => value@ == ValueView::Timestamp(x@),
                Err(e) => e == ConversionError::MismatchedTypes && !(value@ is Timestamp),
            },
    {
        broadcast use lemma_view;

        match value {
            Value::Timestamp(x) => Ok(x),
            _ => Err(ConversionError::MismatchedTypes),
        }
    }
}

impl TryFromSpecImpl<Value> for Timestamp {
    open spec fn obeys_try_from_spec() -> bool {
        false
    }

    open spec fn try_from_spec(value: Value) -> Result<Timestamp, ConversionError> {
        arbitrary()
    }
}

impl From<String> for Value {
    fn from(value: String) -> (r: Value) {
        Value::String(value)
    }
}

impl FromSpecImpl<String> for Value {
    open spec fn obeys_from_spec() -> bool {
        true
    }

    open spec fn from_spec(value: String) -> Value {
        Value::String(value)
    }
}

impl TryFrom<Value> for String {
    type Error = ConversionError;

    fn try_from(value: Value) -> (r: Result<String, ConversionError>)
        ensures
            match r {
                Ok(x) => value@ == ValueView::String(x@),
                Err(e) => e == ConversionError::MismatchedTypes && !(value@ is String),
            },
    {
        broadcast use lemma_view;

        match value {
            Value::String(x) => Ok(x),
            _ => Err(ConversionError::MismatchedTypes),
        }
    }
}

impl TryFromSpecImpl<Value> for String {
    open spec fn obeys_try_from_spec() -> bool {
        false
    }

    open spec fn try_from_spec(value: Value) -> Result<String, ConversionError> {
        arbitrary()
    }
}

impl From<IpAddr> for Value {
    fn from(value: IpAddr) -> (r: Value) {
        Value::Address(value)
    }
}

impl FromSpecImpl<IpAddr> for Value {
    open spec fn obeys_from_spec() -> bool {
        true
    }

    open spec fn from_spec(value: IpAddr) -> Value {
        Value::Address(value)
    }
}

impl TryFrom<Value> for IpAddr {
    type Error = ConversionError;

    fn try_from(value: Value) -> (r: Result<IpAddr, ConversionError>)
        ensures
            match r {
                Ok(x) => value@ == ValueView::Address(x),
                Err(e) => e == ConversionError::MismatchedTypes && !(value@ is Address),
            },
    {
        broadcast use lemma_view;

        match value {
            Value::Address(x) => Ok(x),
            _ => Err(ConversionError::MismatchedTypes),
        }
    }
}

impl TryFromSpecImpl<Value> for IpAddr {
    open spec fn obeys_try_from_spec() -> bool {
        false
    }

    open spec fn try_from_spec(value: Value) -> Result<IpAddr, ConversionError> {
        arbitrary()
    }
}

impl From<IpNetwork> for Value {
    fn from(value: IpNetwork) -> (r: Value) {
        Value::Subnet(value)
    }
}

impl FromSpecImpl<IpNetwork> for Value {
    open spec fn obeys_from_spec() -> bool {
        true
    }

    open spec fn from_spec(value: IpNetwork) -> Value {
        Value::Subnet(value)
    }
}

impl TryFrom<Value> for IpNetwork {
    type Error = ConversionError;

    fn try_from(value: Value) -> (r: Result<IpNetwork, ConversionError>)
        ensures
            match r {
                Ok(x) => value@ == ValueView::Subnet(x@),
                Err(e) => e == ConversionError::MismatchedTypes && !(value@ is Subnet),
            },
    {
        broadcast use lemma_view;

        match value {
            Value::Subnet(x) => Ok(x),
            _ => Err(ConversionError::MismatchedTypes),
        }
    }
}

impl TryFromSpecImpl<Value> for IpNetwork {
    open spec fn obeys_try_from_spec() -> bool {
        false
    }

    open spec fn try_from_spec(value: Value) -> Result<IpNetwork, ConversionError> {
        arbitrary()
    }
}

impl From<Port> for Value {
    fn from(value: Port) -> (r: Value) {
        Value::Port(value)
    }
}

impl FromSpecImpl<Port> for Value {
    open spec fn obeys_from_spec() -> bool {
        true
    }

    open spec fn from_spec(value: Port) -> Value {
        Value::Port(value)
    }
}

impl TryFrom<Value> for Port {
    type Error = ConversionError;

    fn try_from(value: Value) -> (r: Result<Port, ConversionError>)
        ensures
            match r {
                Ok(x) => value@ == ValueView::Port(x),
                Err(e) => e == ConversionError::MismatchedTypes && !(value@ is Port),
            },
    {
        broadcast use lemma_view;

        match value {
            Value::Port(x) => Ok(x),
            _ => Err(ConversionError::MismatchedTypes),
        }
    }
}

impl TryFromSpecImpl<Value> for Port {
    open spec fn obeys_try_from_spec() -> bool {
        false
    }

    open spec fn try_from_spec(value: Value) -> Result<Port, ConversionError> {
        arbitrary()
    }
}

impl From<()> for Value {
    fn from(value: ()) -> (r: Value) {
        Value::Nil
    }
}

impl FromSpecImpl<()> for Value {
    open spec fn obeys_from_spec() -> bool {
        true
    }

    open spec fn from_spec(value: ()) -> Value {
        Value::Nil
    }
}

impl<'a> From<&'a str> for Value {
    fn from(value: &'a str) -> (r: Value)
        ensures
            r@ == ValueView::String(value@),
    {
        broadcast use lemma_view;

        Value::String(value.to_owned())
    }
}

impl<'a> FromSpecImpl<&'a str> for Value {
    open spec fn obeys_from_spec() -> bool {
        false
    }

    open spec fn from_spec(value: &'a str) -> Value {
        arbitrary()
    }
}

/// The values are what `Into` makes of the items, in their order.
pub open spec fn converted<T: Into<Value>>(items: Seq<T>, values: Seq<Value>) -> bool {
    values.len() == items.len() && forall|i: int|
        0 <= i < items.len() ==> call_ensures(T::into, (#[trigger] items[i],), values[i])
}

/// Each value is what `Into` makes of the item in its place.
pub proof fn items_are_converted<T: Into<Value>>(items: Seq<T>, values: Seq<Value>, i: int)
    requires
        converted(items, values),
    ensures
        values.len() == items.len(),
        0 <= i < items.len() ==> call_ensures(T::into, (items[i],), values[i]),
{
}

/// Converts each of the items.
pub fn convert_all<T: Into<Value>>(items: Vec<T>) -> (r: Vec<Value>)
    ensures
        converted(items@, r@),
{
    let mut out: Vec<Value> = Vec::new();
    for item in it: items
        invariant
            it.seq() == items@,
            out.len() == it.index(),
            forall|i: int|
                0 <= i < it.index() ==> call_ensures(T::into, (#[trigger] items@[i],), out@[i]),
    {
        out.push(item.into());
    }
    out
}

impl<T: Into<Value>> From<Vec<T>> for Value {
    fn from(value: Vec<T>) -> (r: Value)
        ensures
            r matches Value::Vector(xs) && converted(value@, xs@),
    {
        Value::Vector(convert_all(value))
    }
}

impl<T: Into<Value>> FromSpecImpl<Vec<T>> for Value {
    open spec fn obeys_from_spec() -> bool {
        false
    }

    open spec fn from_spec(value: Vec<T>) -> Value {
        arbitrary()
    }
}

/// The items of a set, each once, in whatever order the set is walked.
pub open spec fn walks_set<T>(items: Seq<T>, set: Set<T>) -> bool {
    obeys_key_model::<T>() ==> items.no_duplicates() && items.to_set() == set
}

/// The entries of a map, each once, in whatever order the map is walked.
pub open spec fn walks_map<K, V>(items: Seq<(K, V)>, map: Map<K, V>) -> bool {
    obeys_key_model::<K>() ==> {
        &&& forall|i: int, j: int|
            0 <= i < j < items.len() ==> (#[trigger] items[i]).0 != (#[trigger] items[j]).0
        &&& forall|i: int|
            0 <= i < items.len() ==> map.dom().contains((#[trigger] items[i]).0)
                && map[items[i].0] == items[i].1
        &&& items.len() == map.dom().len()
    }
}

/// `Vec::from_iter` on a `HashSet` takes every item once, in an order that is left open.
#[verifier::external_body]
fn drain_set<T>(set: HashSet<T>) -> (r: Vec<T>)
    ensures
        walks_set(r@, set@),
{
    Vec::from_iter(set)
}

/// `Vec::from_iter` on a `HashMap` takes every entry once, in an order that is left open.
#[verifier::external_body]
fn drain_map<K, V>(map: HashMap<K, V>) -> (r: Vec<(K, V)>)
    ensures
        walks_map(r@, map@),
{
    Vec::from_iter(map)
}

impl<T: Into<Value>> From<HashSet<T>> for Value {
    fn from(value: HashSet<T>) -> (r: Value)
        ensures
            exists|items: Seq<T>, values: Seq<Value>|
                #![trigger converted(items, values)]
                walks_set(items, value@) && converted(items, values) && r@ == ValueView::SetOf(
                    collected::<Value>(views(values), true),
                ),
    {
        broadcast use lemma_view;

        let items = drain_set(value);
        let ghost walked = items@;
        let values = convert_all(items);
        let ghost all = values@;
        let r = Value::SetOf(ValueSet::from_values(values));
        assert(walks_set(walked, value@) && converted(walked, all) && r@ == ValueView::SetOf(
            collected::<Value>(views(all), true),
        ));
        r
    }
}

impl<T: Into<Value>> FromSpecImpl<HashSet<T>> for Value {
    open spec fn obeys_from_spec() -> bool {
        false
    }

    open spec fn from_spec(value: HashSet<T>) -> Value {
        arbitrary()
    }
}

/// The entries are what `Into` makes of the pairs, in their order.
pub open spec fn converted_pairs<K: Into<Value>, V: Into<Value>>(
    items: Seq<(K, V)>,
    entries: Seq<TableEntry>,
) -> bool {
    entries.len() == items.len() && forall|i: int|
        0 <= i < items.len() ==> call_ensures(K::into, ((#[trigger] items[i]).0,), entries[i].key)
            && call_ensures(V::into, (items[i].1,), entries[i].value)
}

/// Each entry is what `Into` makes of the pair in its place: of its first part the key, and of its
/// second the value.
pub proof fn pairs_are_converted<K: Into<Value>, V: Into<Value>>(
    items: Seq<(K, V)>,
    entries: Seq<TableEntry>,
    i: int,
)
    requires
        converted_pairs(items, entries),
    ensures
        entries.len() == items.len(),
        0 <= i < items.len() ==> call_ensures(K::into, (items[i].0,), entries[i].key)
            && call_ensures(V::into, (items[i].1,), entries[i].value),
{
}

impl<K: Into<Value>, V: Into<Value>> From<HashMap<K, V>> for Value {
    fn from(value: HashMap<K, V>) -> (r: Value)
        ensures
            exists|items: Seq<(K, V)>, entries: Seq<TableEntry>|
                #![trigger converted_pairs(items, entries)]
                walks_map(items, value@) && converted_pairs(items, entries) && r@
                    == ValueView::Table(collected::<TableEntry>(views(entries), true)),
    {
        broadcast use lemma_view;

        let items = drain_map(value);
        let ghost walked = items@;
        let mut entries: Vec<TableEntry> = Vec::new();
        for item in it: items
            invariant
                it.seq() == walked,
                entries.len() == it.index(),
                forall|i: int|
                    0 <= i < it.index() ==> call_ensures(
                        K::into,
                        ((#[trigger] walked[i]).0,),
                        entries@[i].key,
                    ) && call_ensures(V::into, (walked[i].1,), entries@[i].value),
        {
            let (k, v) = item;
            entries.push(TableEntry::new(k, v));
        }
        let ghost all = entries@;
        let r = Value::Table(ValueTable::from_entries(entries));
        assert(walks_map(walked, value@) && converted_pairs(walked, all) && r@ == ValueView::Table(
            collected::<TableEntry>(views(all), true),
        ));
        r
    }
}

impl<K: Into<Value>, V: Into<Value>> FromSpecImpl<HashMap<K, V>> for Value {
    open spec fn obeys_from_spec() -> bool {
        false
    }

    open spec fn from_spec(value: HashMap<K, V>) -> Value {
        arbitrary()
    }
}

impl TableEntry {
    pub fn new<K: Into<Value>, V: Into<Value>>(key: K, value: V) -> (r: TableEntry)
        ensures
            call_ensures(K::into, (key,), r.key),
            call_ensures(V::into, (value,), r.value),
    {
        TableEntry { key: key.into(), value: value.into() }
    }
}

} // verus!
