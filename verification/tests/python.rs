use zeek_websocket::message::Message;
use zeek_websocket::net::{InvalidPrefix, IpAddr};
use zeek_websocket::order::Order;
use zeek_websocket::protocol::ProtocolError;
use zeek_websocket::python::{
    classify_type, enum_answer, extract, Answer, BindingError, Event, EventError, FieldHint, Probe,
    ProtocolBinding, ReadError, SerializeError, Step,
};
use zeek_websocket::python_value::{
    Protocol, RecordField, TableEntry, Value, ValueRecord, ValueSet, ValueTable,
};
use zeek_websocket::scalar::{Real, Timespan, Timestamp, UtcOffset};
use zeek_websocket::sorted::Ordered;
use zeek_websocket::value::Value as RustValue;

fn utc() -> Option<UtcOffset> {
    UtcOffset::from_whole_seconds(0)
}

fn record(fields: &[(&str, u64)]) -> Value {
    Value::Record(ValueRecord::from_fields(
        fields
            .iter()
            .map(|(n, v)| RecordField { name: n.to_string(), value: Value::Count(*v) })
            .collect(),
    ))
}

fn everything() -> Vec<Value> {
    vec![
        Value::Boolean(true),
        Value::Count(1),
        Value::Integer(-1),
        Value::Real(Real { bits: 1.5f64.to_bits() }),
        Value::Timespan(Timespan::from_seconds(1)),
        Value::Timestamp(Timestamp::from_nanoseconds(1)),
        Value::Address(IpAddr::V4(1)),
        Value::Subnet(IpAddr::V4(1), 8),
        Value::Port(1, Protocol::UNKNOWN),
        Value::Port(1, Protocol::TCP),
        Value::Vector(vec![Value::Nil]),
        Value::SetOf(ValueSet::from_values(vec![Value::Nil, Value::Count(1)])),
        Value::Table(ValueTable::from_entries(vec![TableEntry {
            key: Value::String("k".into()),
            value: Value::Nil,
        }])),
        record(&[("a", 1)]),
        record(&[("a", 2)]),
        record(&[("b", 1)]),
        Value::String("s".into()),
        Value::Enum("s".into()),
        Value::Nil,
    ]
}

#[test]
fn python_values_sort() {
    let all = everything();
    for (i, a) in all.iter().enumerate() {
        for (j, b) in all.iter().enumerate() {
            let wanted = if i < j {
                Order::Less
            } else if i == j {
                Order::Equal
            } else {
                Order::Greater
            };
            assert_eq!(a.compare(b), wanted, "{a:?} {b:?}");
            assert_eq!(a == b, i == j);
        }
    }
}

#[test]
fn values_survive_python() {
    // Sets and tables sort differently on both sides.
    let v = RustValue::try_from(Value::Vector(everything())).unwrap();
    let there = Value::from(v.clone());
    assert_eq!(RustValue::try_from(there).unwrap(), v);
    let set = Value::SetOf(ValueSet::from_values(vec![
        Value::Nil,
        Value::String("s".into()),
        Value::Address(IpAddr::V4(1)),
    ]));
    let Ok(RustValue::SetOf(back)) = RustValue::try_from(set) else { panic!() };
    assert_eq!(back.items()[0], RustValue::Nil);
    assert_eq!(back.items()[1], "s".into());
}

#[test]
fn records_become_vectors() {
    assert_eq!(
        RustValue::try_from(record(&[("b", 2), ("a", 1), ("b", 3)])),
        Ok(RustValue::Vector(vec![RustValue::Count(1), RustValue::Count(3)]))
    );
    assert_eq!(
        RustValue::try_from(Value::Vector(vec![Value::Subnet(IpAddr::V4(1), 33)])),
        Err(InvalidPrefix)
    );
}

#[test]
fn extraction_tries_in_order() {
    let mut probe = Probe::first();
    let mut order = vec![probe];
    while let Step::Ask(next) = extract(probe, None) {
        probe = next;
        order.push(next);
    }
    assert_eq!(
        order,
        vec![
            Probe::Wrapped,
            Probe::Boolean,
            Probe::Real,
            Probe::Timespan,
            Probe::Timestamp,
            Probe::Address,
            Probe::Subnet,
            Probe::Port,
            Probe::Vector,
            Probe::SetOf,
            Probe::Table,
            Probe::String,
            Probe::Nothing,
            Probe::EnumMember,
            Probe::Attributes,
        ]
    );
    assert!(matches!(extract(Probe::Attributes, None), Step::Unsupported));
    let done = |a: Answer| match extract(Probe::Wrapped, Some(a)) {
        Step::Done(v) => v,
        _ => panic!(),
    };
    assert_eq!(done(Answer::Boolean(true)), Value::Boolean(true));
    assert_eq!(done(Answer::Nothing), Value::Nil);
    assert_eq!(done(Answer::EnumMember("RED".into())), Value::Enum("RED".into()));
    assert_eq!(
        done(Answer::Attributes(vec![
            RecordField { name: "y".into(), value: Value::Count(2) },
            RecordField { name: "x".into(), value: Value::Count(1) },
        ])),
        record(&[("x", 1), ("y", 2)])
    );
    assert!(matches!(
        enum_answer(true, Some("RED".into())),
        Some(Answer::EnumMember(name)) if name == "RED"
    ));
    assert!(enum_answer(false, Some("RED".into())).is_none());
    assert!(enum_answer(true, None).is_none());
    let Value::SetOf(s) = done(Answer::SetOf(vec![Value::Count(2), Value::Count(2)])) else {
        panic!()
    };
    assert_eq!(s.len(), 1);
}

#[test]
fn records_for_dataclasses() {
    let names = vec!["b".to_string(), "missing".to_string(), "a".to_string()];
    assert_eq!(
        record(&[("a", 1), ("b", 2)]).as_record(&names),
        Some(vec![(0, Value::Count(2)), (2, Value::Count(1))])
    );
    let v = Value::Vector(vec![Value::Count(5), Value::Nil]);
    assert_eq!(v.as_record(&names), Some(vec![(0, Value::Count(5)), (1, Value::Nil)]));
    let long = Value::Vector(vec![Value::Nil, Value::Nil, Value::Nil, Value::Nil]);
    assert_eq!(long.as_record(&names).unwrap().len(), 3);
    assert_eq!(Value::Nil.as_record(&names), None);
    assert_eq!(Value::Enum("RED".into()).as_enum(), Some("RED"));
    assert_eq!(Value::String("RED".into()).as_enum(), None);
    assert_eq!(classify_type(true, true, true), FieldHint::ValueType);
    assert_eq!(classify_type(false, true, true), FieldHint::Enum);
    assert_eq!(classify_type(false, false, true), FieldHint::Dataclass);
    assert_eq!(classify_type(false, false, false), FieldHint::Coerce);
}

#[test]
fn json_text() {
    let v = Value::Vector(vec![Value::Count(1), Value::Enum("e".into())]);
    let text = v.serialize_json(utc()).unwrap();
    assert_eq!(
        text,
        r#"{"@data-type":"vector","data":[{"@data-type":"count","data":1},{"@data-type":"enum-value","data":"e"}]}"#
    );
    assert_eq!(Value::deserialize_json(&text, utc()).unwrap(), v);
    assert!(matches!(
        Value::Subnet(IpAddr::V6(1), 129).serialize_json(utc()),
        Err(SerializeError::Prefix(InvalidPrefix))
    ));
    assert!(matches!(
        Value::Timestamp(Timestamp::from_nanoseconds(0)).serialize_json(None),
        Err(SerializeError::Encode(_))
    ));
    assert!(matches!(Value::deserialize_json("{", utc()), Err(ReadError::Json(_))));
    let err = Value::deserialize_json("{}", utc()).err().unwrap();
    assert_eq!(err.to_string(), "missing field `@data-type`");
}

#[test]
fn python_events() {
    let e = Event::new("e".into(), vec![Value::Count(1)], vec![Value::Nil]).unwrap();
    assert_eq!(e.name(), "e");
    assert_eq!(e.args(), vec![Value::Count(1)]);
    assert_eq!(e.metadata(), vec![Value::Nil]);
    assert!(Event::new("e".into(), vec![Value::Subnet(IpAddr::V4(0), 99)], vec![]).is_err());
    assert!(Event::new("e".into(), vec![], vec![Value::Subnet(IpAddr::V4(0), 99)]).is_err());
    let text = e.serialize_json(utc()).unwrap();
    let back = Event::deserialize_json(&text, utc()).unwrap();
    assert_eq!(back.0, e.0);
    assert!(matches!(
        Event::deserialize_json(r#"["count",1]"#, utc()),
        Err(EventError::NotAnEvent(RustValue::Count(1)))
    ));
    assert!(matches!(Event::deserialize_json("", utc()), Err(EventError::Read(_))));
}

#[test]
fn python_binding() {
    let mut b = ProtocolBinding::new(vec!["t".into()]);
    assert_eq!(b.outgoing(), Some(br#"["t"]"#.to_vec()));
    assert_eq!(b.outgoing(), None);
    let ack = br#"{"type":"ack","endpoint":"e","version":"v"}"#.to_vec();
    b.handle_incoming(&ack, utc()).unwrap();
    let err = b.handle_incoming(&ack, utc()).err().unwrap();
    assert!(matches!(err, BindingError::Protocol(ProtocolError::AlreadySubscribed)));
    assert_eq!(
        err.to_string(),
        "failed to handle message: received an ACK while already subscribed"
    );
    let err = b.handle_incoming(&b"{}".to_vec(), utc()).err().unwrap();
    assert_eq!(
        err.to_string(),
        "data payload not understood: missing field `type` at line 1 column 2"
    );
    assert!(matches!(b.receive_event(), Ok(None)));
    let e = Event::new("e".into(), vec![Value::Count(1)], vec![]).unwrap();
    b.publish_event("t", e).unwrap();
    let data = b.outgoing().unwrap();
    b.handle_incoming(&data, utc()).unwrap();
    let (topic, event) = b.receive_event().unwrap().unwrap();
    assert_eq!(topic, "t");
    assert_eq!(event.args(), vec![Value::Count(1)]);
    let error = Message::Error { code: "c".into(), context: "x".into() };
    let zeek_websocket::frame::Frame::Text(text) = error.to_frame(None).unwrap() else {
        panic!()
    };
    b.handle_incoming(&text.as_bytes().to_vec(), utc()).unwrap();
    assert!(matches!(b.receive_event(), Err(ProtocolError::ZeekError { .. })));
}

#[test]
fn parts_that_are_not_read_from_do_not_matter() {
    let deep = "[".repeat(200) + &"]".repeat(200);
    let read = |text: &str| Value::deserialize_json(text, utc());
    let one = Value::Count(1);
    for odd in [deep.as_str(), "1e999", r#""\ud800""#, r#"{"data": 1e999, "data": "\ud800"}"#] {
        assert_eq!(
            read(&format!(r#"{{"x": {odd}, "@data-type": "count", "data": 1, "y": {odd}}}"#)).unwrap(),
            one
        );
        assert_eq!(
            read(&format!(r#"{{"@data-type": "none", "data": {odd}}}"#)).unwrap(),
            Value::Nil
        );
        let table = format!(
            r#"["table", [{{"key": {{"@data-type": "count", "z": {odd}, "data": 1}}, "x": {odd}, "value": ["none", {odd}]}}]]"#
        );
        assert_eq!(
            read(&table).unwrap(),
            Value::Table(ValueTable::from_entries(vec![TableEntry {
                key: Value::Count(1),
                value: Value::Nil,
            }]))
        );
        // What is read from does matter, and so does what is kept until its tag is known.
        assert!(read(&format!(r#"{{"@data-type": "count", "data": {odd}}}"#)).is_err());
        assert!(read(&format!(r#"{{"data": {odd}, "@data-type": "none"}}"#)).is_err());
    }
    assert!(read(r#"{"x": 1e999, "@data-type": "count", "data": 1, "data": 2}"#).is_err());
    assert!(read(r#"{"x": 1e999, "@data-type": "count", "data": 1"#).is_err());
}
