use std::collections::{HashMap, HashSet};

use zeek_websocket::convert::ConversionError;
use zeek_websocket::derive::{
    derive_impl, impl_from_value, impl_value_from, looks_like_option, DataShape, DeriveError,
    FieldShape, InputShape, TypeShape,
};
use zeek_websocket::record::{Fields, Record};
use zeek_websocket::scalar::Timespan;
use zeek_websocket::value::{TableEntry, Value};

/// A struct with the conversions written out as they are derived.
#[derive(Debug, PartialEq)]
struct X {
    a: u64,
    b: Option<i64>,
}

impl From<X> for Value {
    fn from(value: X) -> Self {
        let mut fields = Record::new();
        fields.push(value.a);
        fields.push_optional(value.b);
        fields.into_value()
    }
}

impl TryFrom<Value> for X {
    type Error = ConversionError;

    fn try_from(value: Value) -> Result<Self, Self::Error> {
        let mut fields = Fields::from_value(value)?;
        Ok(X {
            a: fields.required()?,
            b: fields.optional()?,
        })
    }
}

#[test]
fn records_convert_there_and_back() {
    let v = Value::from(X { a: 1024, b: Some(-32) });
    assert_eq!(v, Value::Vector(vec![Value::Count(1024), Value::Integer(-32)]));
    assert_eq!(X::try_from(v), Ok(X { a: 1024, b: Some(-32) }));
    let v = Value::from(X { a: 1, b: None });
    assert_eq!(v, Value::Vector(vec![Value::Count(1), Value::Nil]));
    assert_eq!(X::try_from(v), Ok(X { a: 1, b: None }));
}

#[test]
fn surplus_values_are_discarded() {
    let v = Value::Vector(vec![Value::Count(1), Value::Integer(2), Value::Count(3)]);
    let x = X::try_from(v).unwrap();
    assert_eq!(x, X { a: 1, b: Some(2) });
    assert_eq!(Value::from(x), Value::Vector(vec![Value::Count(1), Value::Integer(2)]));
}

#[test]
fn missing_values() {
    let x = X::try_from(Value::Vector(vec![Value::Count(1)]));
    assert_eq!(x, Ok(X { a: 1, b: None }));
    assert_eq!(X::try_from(Value::Vector(vec![])), Err(ConversionError::MismatchedTypes));
    assert_eq!(X::try_from(Value::Count(1)), Err(ConversionError::MismatchedTypes));
    let x = X::try_from(Value::Vector(vec![Value::Count(1), Value::Count(2)]));
    assert_eq!(x, Err(ConversionError::MismatchedTypes));
}

fn path(names: &[&str]) -> TypeShape {
    TypeShape::Path(names.iter().map(|n| n.to_string()).collect())
}

fn field(name: &str, ty: TypeShape) -> FieldShape {
    FieldShape { name: Some(name.to_string()), ty }
}

fn input(data: DataShape) -> InputShape {
    InputShape { name: "X".to_string(), data }
}

#[test]
fn options_are_recognised_by_name() {
    assert_eq!(looks_like_option(&path(&["Option"])), Some(true));
    assert_eq!(looks_like_option(&path(&["std", "option", "Option"])), Some(true));
    assert_eq!(looks_like_option(&path(&["Option", "Some"])), Some(false));
    assert_eq!(looks_like_option(&path(&[])), Some(false));
    assert_eq!(looks_like_option(&TypeShape::Other), None);
}

#[test]
fn derived_source() {
    let fields = vec![field("a", path(&["u64"])), field("b", path(&["Option"]))];
    let value_from = "impl From<X> for ::zeek_websocket::value::Value { fn from(value: X) -> Self { let mut fields = ::zeek_websocket::record::Record::new(); fields.push(value.a); fields.push_optional(value.b); fields.into_value() } } ";
    let from_value = "impl TryFrom<::zeek_websocket::value::Value> for X { type Error = ::zeek_websocket::convert::ConversionError; fn try_from(value: ::zeek_websocket::value::Value) -> Result<Self, Self::Error> { let mut fields = ::zeek_websocket::record::Fields::from_value(value)?; Ok(X { a: fields.required()?, b: fields.optional()?, }) } }";
    assert_eq!(impl_value_from("X", &fields).unwrap(), value_from);
    assert_eq!(impl_from_value("X", &fields).unwrap(), from_value);
    assert_eq!(
        derive_impl(&input(DataShape::Named(fields))).unwrap(),
        format!("{value_from}{from_value}")
    );
}

#[test]
fn derive_errors() {
    let err = |data| derive_impl(&input(data)).err().unwrap();
    assert_eq!(err(DataShape::Enum).to_string(), "only structs can derive ZeekType");
    assert_eq!(err(DataShape::Union), DeriveError::NotAStruct);
    assert_eq!(
        err(DataShape::Unnamed).to_string(),
        "only structs with named fields can derive ZeekType"
    );
    let fields = || {
        vec![
            field("a", path(&["u64"])),
            field("b", TypeShape::Other),
            FieldShape { name: None, ty: path(&["u64"]) },
        ]
    };
    assert_eq!(err(DataShape::Named(fields())), DeriveError::UnsupportedType(1));
    assert_eq!(impl_from_value("X", &fields()), Err(DeriveError::UnnamedField(2)));
    let unnamed = DataShape::Named(vec![FieldShape { name: None, ty: TypeShape::Other }]);
    assert_eq!(err(unnamed), DeriveError::UnsupportedFieldName(0));
    assert_eq!(DeriveError::UnsupportedFieldName(0).to_string(), "unsupported field name");
    assert_eq!(DeriveError::UnnamedField(0).to_string(), "unnamed fields are unsupported");
    assert_eq!(DeriveError::UnsupportedType(0).to_string(), "unsupported type");
}

#[test]
fn collections_convert() {
    let set: HashSet<&str> = ["b", "a", "c"].into_iter().collect();
    let Value::SetOf(set) = Value::from(set) else { panic!() };
    assert_eq!(set.items(), &vec!["a".into(), "b".into(), "c".into()]);
    let map: HashMap<u8, bool> = [(2, true), (1, false)].into_iter().collect();
    let Value::Table(table) = Value::from(map) else { panic!() };
    assert_eq!(
        table.entries(),
        &vec![TableEntry::new(1u8, false), TableEntry::new(2u8, true)]
    );
}

#[test]
fn numbers_convert_within_range() {
    assert_eq!(u8::try_from(Value::from(255u64)), Ok(255));
    assert!(matches!(u8::try_from(Value::from(256u64)), Err(ConversionError::Domain(_))));
    assert!(matches!(u32::try_from(Value::from(1u64 << 32)), Err(ConversionError::Domain(_))));
    assert!(matches!(i16::try_from(Value::from(-32_769)), Err(ConversionError::Domain(_))));
    assert_eq!(i16::try_from(Value::from(-32_768)), Ok(-32_768));
    assert_eq!(u8::try_from(Value::from(1)), Err(ConversionError::MismatchedTypes));
    assert_eq!(String::try_from(Value::from("s")), Ok("s".to_string()));
    assert_eq!(
        String::try_from(Value::EnumValue("s".into())),
        Err(ConversionError::MismatchedTypes)
    );
    assert_eq!(
        Timespan::try_from(Value::Nil).err().unwrap().to_string(),
        "cannot convert value to target type"
    );
    let err = u8::try_from(Value::from(256u64)).err().unwrap();
    assert_eq!(err.to_string(), "conversion to target type failed");
}
