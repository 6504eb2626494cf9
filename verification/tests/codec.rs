use zeek_websocket::frame::{DeserializationError, Frame};
use zeek_websocket::message::{Data, Event, Message};
use zeek_websocket::net::{IpAddr, IpNetwork};
use zeek_websocket::order::Order;
use zeek_websocket::port::{ParseError, Port, Protocol};
use zeek_websocket::scalar::{Real, Timespan, TimespanError, Timestamp, TimestampError, UtcOffset};
use zeek_websocket::sorted::Ordered;
use zeek_websocket::subscriptions::Subscriptions;
use zeek_websocket::text::{format_integer, IntegerError};
use zeek_websocket::value::{TableEntry, Value, ValueSet, ValueTable};
use zeek_websocket::wire::{DecodeError, EncodeError, Kind};

fn utc() -> Option<UtcOffset> {
    UtcOffset::from_whole_seconds(0)
}

fn tree(text: &str) -> serde_json::Value {
    serde_json::from_str(text).unwrap()
}

fn read(text: &str) -> Result<Value, DecodeError> {
    Value::from_json(&tree(text), utc())
}

fn write(v: &Value) -> String {
    serde_json::to_string(&v.to_json(utc()).unwrap()).unwrap()
}

fn number(x: f64) -> Value {
    Value::Real(Real { bits: x.to_bits() })
}

fn everything() -> Value {
    Value::Vector(vec![
        Value::Nil,
        Value::Boolean(false),
        Value::Count(u64::MAX),
        Value::Integer(i64::MIN),
        number(-0.1),
        number(1e300),
        Value::Timespan(Timespan::from_nanoseconds(-1)),
        Value::Timespan(Timespan::from_seconds(i64::MIN)),
        Value::Timestamp(Timestamp::from_nanoseconds(1_234_567_891_234_567_891)),
        Value::String("\u{0}\"\\ \u{1f980}".into()),
        Value::EnumValue("Notice::LOG".into()),
        Value::Address(IpAddr::V4(0x7f000001)),
        Value::Address(IpAddr::V6(1)),
        Value::Subnet(IpNetwork::new(IpAddr::V4(0x0a010203), 8).unwrap()),
        Value::Port(Port::new(0, Protocol::UNKNOWN)),
        Value::SetOf(ValueSet::from_values(vec![
            Value::Vector(vec![]),
            "b".into(),
            "a".into(),
            Value::Nil,
        ])),
        Value::Table(ValueTable::from_entries(vec![
            TableEntry::new("k", vec![1u8, 2]),
            TableEntry::new("a", ()),
        ])),
    ])
}

#[test]
fn everything_reads_back() {
    let v = everything();
    assert_eq!(read(&write(&v)), Ok(v.clone()));
    let m = Message::new_data("t", Event::new("e", vec![v.clone()]).with_metadata(vec![v]));
    let frame = m.to_frame(utc()).unwrap();
    assert_eq!(Message::from_frame(frame, utc()), Ok(m));
}

#[test]
fn exact_json() {
    assert_eq!(write(&Value::Nil), r#"{"@data-type":"none","data":{}}"#);
    assert_eq!(write(&number(0.1)), r#"{"@data-type":"real","data":0.1}"#);
    assert_eq!(write(&number(f64::NAN)), r#"{"@data-type":"real","data":null}"#);
    assert_eq!(write(&Value::Integer(-1)), r#"{"@data-type":"integer","data":-1}"#);
    assert_eq!(
        write(&Value::Address(IpAddr::V6(0xffff_7f00_0001))),
        r#"{"@data-type":"address","data":"::ffff:127.0.0.1"}"#
    );
    assert_eq!(
        write(&Value::Subnet(IpNetwork::new(IpAddr::V4(0x0a010203), 8).unwrap())),
        r#"{"@data-type":"subnet","data":"10.1.2.3/8"}"#
    );
    assert_eq!(
        write(&Value::Table(ValueTable::from_entries(vec![TableEntry::new(1u8, true)]))),
        r#"{"@data-type":"table","data":[{"key":{"@data-type":"count","data":1},"value":{"@data-type":"boolean","data":true}}]}"#
    );
    let ack = Message::Ack { endpoint: "e".into(), version: "v".into() };
    assert_eq!(
        ack.to_frame(None).unwrap(),
        Frame::Text(r#"{"type":"ack","endpoint":"e","version":"v"}"#.into())
    );
    let error = Message::Error { code: "c".into(), context: "x".into() };
    assert_eq!(
        error.to_frame(None).unwrap(),
        Frame::Text(r#"{"type":"error","code":"c","context":"x"}"#.into())
    );
    let data = Message::new_data("t", Data::Other(Value::Count(7)));
    assert_eq!(
        data.to_frame(None).unwrap(),
        Frame::Text(r#"{"type":"data-message","topic":"t","@data-type":"count","data":7}"#.into())
    );
    assert_eq!(
        Subscriptions::from(vec!["a", "b"]).to_frame(),
        Frame::Text(r#"["a","b"]"#.into())
    );
}

#[test]
fn other_forms_are_read() {
    assert_eq!(read(r#"["count", 1]"#), Ok(Value::Count(1)));
    assert_eq!(read(r#"["none", [1]]"#), Ok(Value::Nil));
    assert_eq!(read(r#"{"@data-type":"none"}"#), Ok(Value::Nil));
    assert_eq!(read(r#"{"data":1,"more":[],"@data-type":"count"}"#), Ok(Value::Count(1)));
    assert_eq!(read(r#"["real", 3]"#), Ok(number(3.0)));
    assert_eq!(read(r#"["real", -3]"#), Ok(number(-3.0)));
    assert_eq!(read(r#"["integer", 3]"#), Ok(Value::Integer(3)));
    assert_eq!(
        read(r#"["table", [[["count", 1], ["count", 2]]]]"#),
        Ok(Value::Table(ValueTable::from_entries(vec![TableEntry::new(1u8, 2u8)])))
    );
    let ack = tree(r#"["ack", "e", "v"]"#);
    assert_eq!(
        Message::from_json(&ack, None),
        Ok(Message::Ack { endpoint: "e".into(), version: "v".into() })
    );
    let error = tree(r#"{"message":"x","code":"c","type":"error"}"#);
    assert_eq!(
        Message::from_json(&error, None),
        Ok(Message::Error { code: "c".into(), context: "x".into() })
    );
}

#[test]
fn sets_keep_the_first_and_tables_the_last() {
    // Both zeros count as equal, and so do the keys of a table.
    let Ok(Value::SetOf(set)) = read(r#"["set", [["real", -0.0], ["real", 0.0]]]"#) else {
        panic!()
    };
    assert_eq!(set.items().len(), 1);
    assert!(matches!(set.items()[0], Value::Real(Real { bits: 0x8000_0000_0000_0000 })));
    let Ok(Value::Table(table)) =
        read(r#"["table", [[["count", 1], ["count", 2]], [["count", 1], ["count", 3]]]]"#)
    else {
        panic!()
    };
    assert_eq!(table.entries(), &vec![TableEntry::new(1u8, 3u8)]);
    let mut set = ValueSet::new();
    set.insert(number(0.0));
    set.insert(Value::Nil);
    set.insert(number(-0.0));
    assert_eq!(set.len(), 2);
    assert!(matches!(set.items()[1], Value::Real(Real { bits: 0 })));
}

#[test]
fn malformed_values() {
    let text = |text: &str| read(text).err().unwrap().to_string();
    assert_eq!(
        read("1"),
        Err(DecodeError::InvalidType(
            "invalid type: integer `1`, expected adjacently tagged enum Value".into()
        ))
    );
    assert_eq!(
        read("[]"),
        Err(DecodeError::InvalidLength(
            "invalid length 0, expected adjacently tagged enum Value".into()
        ))
    );
    assert_eq!(
        text(r#"["count"]"#),
        "invalid length 1, expected adjacently tagged enum Value"
    );
    assert_eq!(
        text(r#"["count", 1, 2]"#),
        "invalid length 3, expected fewer elements in array"
    );
    assert_eq!(read(r#"["nope", 1]"#), Err(DecodeError::UnknownVariant("nope".into())));
    assert_eq!(
        read(r#"["nope", 1]"#).err().unwrap().to_string(),
        "unknown variant `nope`, expected one of `none`, `boolean`, `count`, `integer`, `real`, `timespan`, `timestamp`, `string`, `enum-value`, `address`, `subnet`, `port`, `vector`, `set`, `table`"
    );
    assert_eq!(
        text(r#"[7, 1]"#),
        "invalid type: integer `7`, expected variant identifier"
    );
    assert_eq!(read("{}"), Err(DecodeError::MissingField("@data-type".into())));
    assert_eq!(
        read(r#"{"@data-type":"count"}"#),
        Err(DecodeError::MissingField("data".into()))
    );
    assert_eq!(
        read(r#"["count", -1]"#),
        Err(DecodeError::InvalidValue("invalid value: integer `-1`, expected u64".into()))
    );
    assert_eq!(
        text(r#"["count", 1.0]"#),
        "invalid type: floating point `1.0`, expected u64"
    );
    assert_eq!(
        text(r#"["integer", 9223372036854775808]"#),
        "invalid value: integer `9223372036854775808`, expected i64"
    );
    assert_eq!(text(r#"["integer", true]"#), "invalid type: boolean `true`, expected i64");
    assert_eq!(text(r#"["real", null]"#), "invalid type: null, expected f64");
    assert_eq!(text(r#"["boolean", 0]"#), "invalid type: integer `0`, expected a boolean");
    assert_eq!(text(r#"["string", 0]"#), "invalid type: integer `0`, expected a string");
    assert_eq!(text(r#"["address", []]"#), "invalid type: sequence, expected IP address");
    assert_eq!(text(r#"["vector", {}]"#), "invalid type: map, expected a sequence");
    assert_eq!(
        text(r#"["table", [1]]"#),
        "invalid type: integer `1`, expected struct TableEntry"
    );
    assert_eq!(
        text(r#"["table", [[]]]"#),
        "invalid length 0, expected struct TableEntry with 2 elements"
    );
    assert_eq!(
        text(r#"["table", [[["count", 1], ["count", 2], 3]]]"#),
        "invalid length 3, expected fewer elements in array"
    );
    // The fields of an entry are read in the order in which they stand.
    assert_eq!(
        text(r#"["table", [{"value": ["count", null], "key": ["count", true]}]]"#),
        "invalid type: null, expected u64"
    );
    assert_eq!(
        text(r#"["table", [{"value": ["count", 1]}]]"#),
        "missing field `key`"
    );
    assert_eq!(
        read(r#"["table", [{"key":["count",1]}]]"#).err().unwrap().to_string(),
        "missing field `value`"
    );
    assert_eq!(
        read(r#"["address", "1.2.3"]"#).err().unwrap().to_string(),
        "invalid IP address syntax"
    );
    assert_eq!(read(r#"["subnet", "1.2.3.4/33"]"#), Err(DecodeError::Subnet("1.2.3.4/33".into())));
    assert_eq!(
        read(r#"["port", "1/foo"]"#),
        Err(DecodeError::Port(ParseError::InvalidProtocol("foo".into())))
    );
    assert_eq!(
        read(r#"["vector", [["count", 1], ["count", "x"], 1]]"#),
        Err(DecodeError::InvalidType("invalid type: string \"x\", expected u64".into()))
    );
}

#[test]
fn malformed_messages() {
    let read = |text: &str| Message::from_json(&tree(text), None);
    let text = |text: &str| read(text).err().unwrap().to_string();
    assert_eq!(
        text("1"),
        "invalid type: integer `1`, expected internally tagged enum Message"
    );
    assert_eq!(text(r#"{"type":1}"#), "invalid type: integer `1`, expected variant identifier");
    // Fields are read in the order in which they stand.
    assert_eq!(
        text(r#"{"type":"ack","version":1,"endpoint":null}"#),
        "invalid type: integer `1`, expected a string"
    );
    assert_eq!(
        text(r#"{"type":"error","message":"m","code":1,"context":"c"}"#),
        "invalid type: integer `1`, expected a string"
    );
    assert_eq!(
        text(r#"{"type":"error","message":"m","context":"c","code":1}"#),
        "duplicate field `context`"
    );
    assert_eq!(
        text(r#"{"type":"data-message","topic":1}"#),
        "invalid type: integer `1`, expected a string"
    );
    assert_eq!(text(r#"{"type":"data-message"}"#), "missing field `topic`");
    assert_eq!(
        text(r#"["ack","e","v","w"]"#),
        "invalid length 3, expected 2 elements in sequence"
    );
    assert_eq!(
        text(r#"["error"]"#),
        "invalid length 0, expected struct variant Message::Error with 2 elements"
    );
    assert_eq!(read("{}"), Err(DecodeError::MissingField("type".into())));
    assert_eq!(read("[]"), Err(DecodeError::MissingField("type".into())));
    assert_eq!(read(r#"{"type":"x"}"#), Err(DecodeError::UnknownType("x".into())));
    assert_eq!(
        read(r#"{"type":"ack","version":"v"}"#),
        Err(DecodeError::MissingField("endpoint".into()))
    );
    assert_eq!(
        read(r#"{"type":"error","code":"c","context":"x","message":"y"}"#),
        Err(DecodeError::DuplicateField("context".into()))
    );
    assert_eq!(
        read(r#"{"type":"error","code":"c"}"#),
        Err(DecodeError::MissingField("context".into()))
    );
    assert_eq!(
        read(r#"{"type":"data-message","topic":"t"}"#),
        Err(DecodeError::MissingField("@data-type".into()))
    );
    assert_eq!(
        text(r#"["ack","e"]"#),
        "invalid length 1, expected struct variant Message::Ack with 2 elements"
    );
    assert_eq!(
        text(r#"["data-message","t"]"#),
        "invalid type: sequence, expected struct variant Message::DataMessage"
    );
    assert_eq!(
        Message::from_frame(Frame::Binary(b"{\"type\":\"x\"}".to_vec()), None),
        Err(DeserializationError::Json(
            "unknown variant `x`, expected one of `ack`, `error`, `data-message` at line 1 column 11"
                .into()
        ))
    );
    assert_eq!(
        Subscriptions::from_frame(Frame::Text("[1]".into())),
        Err(DeserializationError::Json(
            "invalid type: integer `1`, expected a string at line 1 column 2".into()
        ))
    );
    assert_eq!(
        Subscriptions::from_frame(Frame::Text("{}".into())),
        Err(DeserializationError::Json(
            "invalid type: map, expected a sequence at line 1 column 0".into()
        ))
    );
    assert_eq!(
        Subscriptions::from_frame(Frame::Close(None)),
        Err(DeserializationError::UnexpectedMessageType(Frame::Close(None)))
    );
}

#[test]
fn repeated_fields_are_refused() {
    let read = |text: &str| Message::from_frame(Frame::Text(text.into()), None);
    let refused = |name: &str| Err(DeserializationError::Json(format!("duplicate field `{name}`")));
    assert_eq!(
        read(r#"{"type":"ack","endpoint":"a","endpoint":"b","version":"v"}"#),
        refused("endpoint")
    );
    assert_eq!(
        read(r#"{"type":"ack","endpoint":"a","version":"v", "type" : "ack"}"#),
        Err(DeserializationError::Json(
            "duplicate field `type` at line 1 column 51".into()
        ))
    );
    assert_eq!(
        read(r#"{"type":"ack","endpoint":"a","\u0065ndpoint":"b","version":"v"}"#),
        refused("endpoint")
    );
    assert_eq!(
        read(r#"{"type":"error","code":"c","message":"a","message":"b"}"#),
        refused("context")
    );
    assert_eq!(
        read(r#"{"type":"data-message","topic":"t","@data-type":"table","data":[{"key":["count",1],"key":["count",2],"value":["count",1]}]}"#),
        refused("key")
    );
    assert_eq!(
        read(r#"{"type":"data-message","topic":"t","@data-type":{"none":null,"none":null}}"#),
        Err(DeserializationError::Json(
            "invalid value: map, expected map with a single key".into()
        ))
    );
    assert_eq!(
        read(r#"{"type":"data-message","topic":"t","@data-type":"vector","data":[{"@data-type":"count","data":1,"data":2}]}"#),
        refused("data")
    );
    // Names in texts, names of other fields, and one name in several objects are no matter.
    let ack = Message::Ack { endpoint: "\"type\":\\".into(), version: "type:".into() };
    assert_eq!(Message::from_frame(ack.to_frame(None).unwrap(), None), Ok(ack));
    assert_eq!(
        read(r#"{"type":"ack","topic":1,"topic":{"key":2,"key":3},"endpoint":"e","version":"v"}"#),
        Ok(Message::Ack { endpoint: "e".into(), version: "v".into() })
    );
    assert_eq!(
        read(r#"{"\u0074ype":"ack","endpoint":"e","version":"v"}"#),
        Ok(Message::Ack { endpoint: "e".into(), version: "v".into() })
    );
    let nested = Message::new_data("t", Event::new("e", vec![vec![1u8, 2], vec![3]]));
    assert_eq!(Message::from_frame(nested.to_frame(None).unwrap(), None), Ok(nested));
}

#[test]
fn faults_of_messages_have_places() {
    let read = |text: &str| match Message::from_frame(Frame::Text(text.into()), None) {
        Err(DeserializationError::Json(e)) => e,
        _ => panic!(),
    };
    assert_eq!(
        read("{\n \"x\": 1,\n \"type\" : [1]\n}"),
        "invalid type: sequence, expected variant identifier at line 3 column 10"
    );
    assert_eq!(read("{ }  "), "missing field `type` at line 1 column 3");
    assert_eq!(read(" []"), "missing field `type` at line 1 column 3");
    assert_eq!(
        read("[ null , 1]"),
        "invalid type: null, expected variant identifier at line 1 column 6"
    );
    assert_eq!(
        read(" 12 "),
        "invalid type: integer `12`, expected internally tagged enum Message at line 1 column 3"
    );
    assert_eq!(read(r#"{"type":"ack"}"#), "missing field `endpoint`");
    let topics = |text: &str| match Subscriptions::from_frame(Frame::Text(text.into())) {
        Err(DeserializationError::Json(e)) => e,
        _ => panic!(),
    };
    assert_eq!(
        topics(r#"["a",  {"b": 1}, 2]"#),
        "invalid type: map, expected a string at line 1 column 7"
    );
    assert_eq!(
        topics(" \"a\""),
        "invalid type: string \"a\", expected a sequence at line 1 column 4"
    );
}

#[test]
fn tags_have_several_forms() {
    let count = Ok(Value::Count(1));
    assert_eq!(read(r#"{"@data-type":{"count":null},"data":1}"#), count);
    assert_eq!(
        read(r#"{"@data-type":{"count":{}},"data":1}"#).err().unwrap().to_string(),
        "invalid type: map, expected unit"
    );
    assert_eq!(
        read(r#"{"@data-type":{},"data":1}"#).err().unwrap().to_string(),
        "invalid value: map, expected map with a single key"
    );
    assert_eq!(
        read(r#"{"@data-type":1,"data":1}"#).err().unwrap().to_string(),
        "invalid type: integer `1`, expected string or map"
    );
    // What was kept until its tag was known is read more freely.
    let one = Ok(Value::Vector(vec![Value::Count(1)]));
    assert_eq!(
        read(r#"{"data":[{"@data-type":{"count":{}},"data":1}],"@data-type":"vector"}"#),
        one
    );
    assert_eq!(read(r#"{"data":[[2,1]],"@data-type":"vector"}"#), one);
    assert!(read(r#"{"@data-type":"vector","data":[[2,1]]}"#).is_err());
    assert_eq!(
        read(r#"{"data":[[15,1]],"@data-type":"vector"}"#).err().unwrap().to_string(),
        "invalid value: integer `15`, expected variant index 0 <= i < 15"
    );
    let message = tree(r#"{"type":"data-message","topic":"t","@data-type":"vector","data":[[2,1]]}"#);
    assert_eq!(
        Message::from_json(&message, None),
        Ok(Message::new_data("t", Value::Vector(vec![Value::Count(1)])))
    );
}

#[test]
fn nesting_is_limited() {
    // Each vector takes two levels of JSON, and what it holds at least one more.
    let nested = |levels: usize| {
        let mut v = Value::Count(1);
        for _ in 0..levels {
            v = Value::Vector(vec![v]);
        }
        Message::new_data("t", Data::Other(v))
    };
    let fits = nested(63);
    assert_eq!(Message::from_frame(fits.to_frame(None).unwrap(), None), Ok(fits));
    let too_deep = nested(64).to_frame(None).unwrap();
    assert!(matches!(
        Message::from_frame(too_deep, None),
        Err(DeserializationError::Json(e)) if e.starts_with("recursion limit exceeded")
    ));
}

#[test]
fn events_in_values() {
    let with = |parts: Vec<Value>| {
        Data::from(Value::Vector(vec![9u8.into(), 1u8.into(), Value::Vector(parts)]))
    };
    let args: Value = vec![1u8].into();
    assert_eq!(
        with(vec!["e".into(), args.clone()]),
        Data::Event(Event::new("e", vec![1u8]))
    );
    assert_eq!(
        with(vec!["e".into(), args.clone(), 5u8.into(), 6u8.into()]),
        Data::Event(Event::new("e", vec![1u8]).with_metadata(vec![5u8]))
    );
    assert!(matches!(with(vec!["e".into()]), Data::Other(_)));
    assert!(matches!(with(vec![args.clone(), args]), Data::Other(_)));
    assert!(matches!(Data::from(Value::Vector(vec![])), Data::Other(_)));
    let event = Event::new("e", vec![1]).with_metadata(vec![2]);
    assert_eq!(Data::from(Value::from(Data::Event(event.clone()))), Data::Event(event));
}

#[test]
fn timespans() {
    assert_eq!(Timespan::from_str("-2min").unwrap().nanoseconds(), -120_000_000_000);
    assert_eq!(Timespan::from_str("+1s"), Err(TimespanError::Number(IntegerError::Empty)));
    assert_eq!(Timespan::from_str(""), Err(TimespanError::Number(IntegerError::Empty)));
    assert_eq!(Timespan::from_str("12"), Err(TimespanError::Number(IntegerError::Empty)));
    assert_eq!(
        Timespan::from_str("-s"),
        Err(TimespanError::Number(IntegerError::InvalidDigit))
    );
    assert_eq!(
        Timespan::from_str("9223372036854775808s"),
        Err(TimespanError::Number(IntegerError::PosOverflow))
    );
    assert_eq!(
        Timespan::from_str("-9223372036854775809s"),
        Err(TimespanError::Number(IntegerError::NegOverflow))
    );
    assert_eq!(
        Timespan::from_str("1 s"),
        Err(TimespanError::Unit(ParseError::InvalidTimespanUnit(" s".into())))
    );
    assert_eq!(Timespan::from_str("106751991167301d"), Err(TimespanError::Overflow));
    assert_eq!(
        Timespan::from_str("-106751991167300d").unwrap().nanoseconds(),
        -106_751_991_167_300 * 86_400 * 1_000_000_000
    );
    assert_eq!(Timespan::from_str("2562047788015216h"), Err(TimespanError::Overflow));
    assert_eq!(Timespan::from_str("153722867280912931min"), Err(TimespanError::Overflow));
    assert_eq!(Timespan::from_seconds(i64::MIN).to_text().unwrap(), "-9223372036854775808s");
    assert_eq!(Timespan::from_milliseconds(-1500).to_text().unwrap(), "-1500000000ns");
    assert_eq!(Timespan::from_milliseconds(-2000).to_text().unwrap(), "-2s");
    assert!(Timespan::new(i128::MAX).is_none());
    let long = Timespan::new(-9_223_372_036_854_775_809).unwrap();
    assert_eq!(
        long.to_text().err().unwrap().to_string(),
        "value not representable: '-106751d23h47m16s854ms775µs809ns' needs nanosecond accuracy but exceeds its range"
    );
}

#[test]
fn timestamps() {
    let noon = Timestamp::from_nanoseconds(43_200_000_000_000);
    let east = UtcOffset::from_whole_seconds(3_600);
    let west = UtcOffset::from_whole_seconds(-3_600);
    assert_eq!(noon.to_text(utc()).unwrap(), "1970-01-01T12:00:00.0");
    assert_eq!(noon.to_text(east).unwrap(), "1970-01-01T13:00:00.0");
    assert_eq!(Timestamp::from_str("1970-01-01T13:00:00.0", east), Ok(noon));
    assert_eq!(noon.to_text(None), Err(TimestampError::IndeterminateOffset));
    assert_eq!(
        Timestamp::from_str("1970-01-01T13:00:00.0", None),
        Err(TimestampError::IndeterminateOffset)
    );
    assert!(matches!(Timestamp::from_str("x", None), Err(TimestampError::Format(_))));
    let last = Timestamp::from_str("9999-12-31T23:59:59.999999999", utc()).unwrap();
    assert_eq!(last.nanoseconds(), 253_402_300_799_999_999_999);
    assert_eq!(last.to_text(east), Err(TimestampError::LocalRange));
    let first = Timestamp::from_str("-9999-01-01T00:00:00.0", utc()).unwrap();
    assert_eq!(first.nanoseconds(), -377_705_116_800_000_000_000);
    assert_eq!(first.to_text(utc()).unwrap(), "-9999-01-01T00:00:00.0");
    let earlier = Timestamp::from_str("-9999-01-01T00:00:00.0", east).unwrap();
    assert_eq!(earlier.to_text(utc()), Err(TimestampError::LocalRange));
    assert_eq!(
        Value::Timestamp(earlier).to_json(utc()),
        Err(EncodeError::Timestamp(TimestampError::LocalRange))
    );
    assert!(UtcOffset::from_whole_seconds(93_600).is_none());
    assert!(Timestamp::new(253_402_300_800_000_000_000).is_none());
    // Where a point was given is kept, and does not matter to its equality.
    let there = Timestamp::in_offset(noon.nanoseconds(), east.unwrap()).unwrap();
    assert_eq!(there, noon);
    assert_eq!(there.offset().whole_seconds(), 3_600);
    assert_eq!(noon.offset().whole_seconds(), 0);
    let back: Timestamp = Value::from(there).try_into().unwrap();
    assert_eq!(back.offset().whole_seconds(), 3_600);
    // Copies keep it, and what is read is given in local time.
    let Value::Timestamp(copy) = Value::Timestamp(there).clone() else { panic!() };
    assert_eq!(copy.offset().whole_seconds(), 3_600);
    let json = Value::Timestamp(there).to_json(west).unwrap();
    let Ok(Value::Timestamp(read)) = Value::from_json(&json, west) else { panic!() };
    assert_eq!(read, there);
    assert_eq!(read.offset().whole_seconds(), -3_600);
    assert_eq!(earlier.offset(), east.unwrap());
    assert!(Timestamp::in_offset(253_402_300_800_000_000_000, west.unwrap()).is_some());
}

#[test]
fn values_sort() {
    let sorted = vec![
        Value::Nil,
        Value::Boolean(false),
        Value::Boolean(true),
        Value::Count(0),
        Value::Count(u64::MAX),
        Value::Integer(i64::MIN),
        Value::Integer(1),
        number(f64::NEG_INFINITY),
        number(-1.5),
        number(-1.0),
        number(0.0),
        number(f64::MIN_POSITIVE),
        number(f64::INFINITY),
        number(f64::NAN),
        Value::Timespan(Timespan::from_seconds(-1)),
        Value::Timestamp(Timestamp::from_nanoseconds(0)),
        "".into(),
        "a".into(),
        "aa".into(),
        "b".into(),
        Value::EnumValue("".into()),
        Value::Address(IpAddr::V4(u32::MAX)),
        Value::Address(IpAddr::V6(0)),
        Value::Subnet(IpNetwork::new(IpAddr::V4(1), 8).unwrap()),
        Value::Subnet(IpNetwork::new(IpAddr::V4(1), 9).unwrap()),
        Value::Port(Port::new(1, Protocol::UDP)),
        Value::Port(Port::new(2, Protocol::TCP)),
        Value::Vector(vec![]),
        Value::Vector(vec![1u8.into()]),
        Value::Vector(vec![1u8.into(), 0u8.into()]),
        Value::Vector(vec![2u8.into()]),
        Value::SetOf(ValueSet::new()),
        Value::Table(ValueTable::new()),
        Value::Table(ValueTable::from_entries(vec![TableEntry::new(1u8, 2u8)])),
        Value::Table(ValueTable::from_entries(vec![TableEntry::new(1u8, 3u8)])),
    ];
    for (i, a) in sorted.iter().enumerate() {
        for (j, b) in sorted.iter().enumerate() {
            let wanted = if i < j {
                Order::Less
            } else if i == j {
                Order::Equal
            } else {
                Order::Greater
            };
            assert_eq!(a.compare(b), wanted, "{a:?} {b:?}");
            assert_eq!(a == b, i == j);
            assert_eq!(a < b, i < j);
            assert_eq!(a >= b, i >= j);
        }
    }
    let mut shuffled = sorted.clone();
    shuffled.reverse();
    shuffled.push(Value::Nil);
    assert_eq!(ValueSet::from_values(shuffled).items(), &sorted);
    assert_eq!(number(0.0), number(-0.0));
    assert_eq!(number(f64::NAN), number(-f64::NAN));
}

#[test]
fn texts() {
    assert_eq!(format_integer(i64::MIN), "-9223372036854775808");
    assert_eq!(format_integer(0), "0");
    assert_eq!(Subscriptions::from(&["a", "b", "c"]).to_string(), "[a, b, c]");
    assert_eq!(Subscriptions::from(&["a"][..]).to_string(), "[a]");
    assert_eq!(Subscriptions::default().to_string(), "[]");
    assert_eq!(Subscriptions::from(vec![1, 2]).0, vec!["1", "2"]);
    assert_eq!(Kind::from_name("enum-value"), Some(Kind::EnumValue));
    assert_eq!(Kind::from_name("Count"), None);
    assert_eq!(Kind::SetOf.name(), "set");
    assert_eq!(everything().kind(), Kind::Vector);
    assert_eq!("80/".parse::<Port>(), Err(ParseError::InvalidProtocol("".into())));
    assert_eq!("+80/tcp".parse::<Port>(), Ok(Port::new(80, Protocol::TCP)));
    assert_eq!(
        "-1/tcp".parse::<Port>(),
        Err(ParseError::InvalidPortNumber("-1".into()))
    );
    assert_eq!(
        ParseError::InvalidTimestamp("x".into()).to_string(),
        "invalid timestamp: x"
    );
    assert_eq!(IpAddr::from_str("::1").unwrap().to_string(), "::1");
    assert_eq!(IpNetwork::from_str("10.0.0.1/255.0.0.0").unwrap().to_string(), "10.0.0.1/8");
    assert_eq!(IpNetwork::new(IpAddr::V4(0), 33).err().unwrap().to_string(), "invalid prefix");
    assert_eq!(IpNetwork::new(IpAddr::V6(0), 128).unwrap().prefix(), 128);
}
