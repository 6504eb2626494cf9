use std::collections::{HashMap, HashSet};

use zeek_websocket::convert::ConversionError;
use zeek_websocket::frame::{DeserializationError, Frame};
use zeek_websocket::message::{Data, Event, Message};
use zeek_websocket::net::{IpAddr, IpNetwork};
use zeek_websocket::port::{ParseError, Port, Protocol};
use zeek_websocket::scalar::{Real, Timespan, Timestamp, UtcOffset};
use zeek_websocket::subscriptions::Subscriptions;
use zeek_websocket::value::{TableEntry, Value, ValueSet, ValueTable};

fn offset() -> Option<UtcOffset> {
    UtcOffset::current()
}

fn tree(text: &str) -> serde_json::Value {
    serde_json::from_str(text).unwrap()
}

fn read(text: &str) -> Value {
    Value::from_json(&tree(text), offset()).unwrap()
}

fn read_error(text: &str) -> String {
    Value::from_json(&tree(text), offset()).err().unwrap().to_string()
}

fn write(value: &Value) -> String {
    serde_json::to_string(&value.to_json(offset()).unwrap()).unwrap()
}

fn message(text: &str) -> Message {
    Message::from_json(&tree(text), offset()).unwrap()
}

fn span(d: time::Duration) -> Timespan {
    Timespan::new(d.whole_nanoseconds()).unwrap()
}

fn stamp(t: time::OffsetDateTime) -> Timestamp {
    Timestamp::new(t.unix_timestamp_nanos()).unwrap()
}

fn date(year: i32, month: time::Month, day: u8) -> time::Date {
    time::Date::from_calendar_date(year, month, day).unwrap()
}

#[test]
fn from_json() {
    assert_eq!(
        Message::Ack {
            endpoint: "925c9110-5b87-57d9-9d80-b65568e87a44".into(),
            version: "2.2.0-22".into()
        },
        message(
            r#"{
              "type": "ack",
              "endpoint": "925c9110-5b87-57d9-9d80-b65568e87a44",
              "version": "2.2.0-22"
            }"#
        )
    );

    assert_eq!(
        Message::Error {
            code: "deserialization_failed".into(),
            context: "input #1 contained malformed JSON".into()
        },
        message(
            r#"{
              "type": "error",
              "code": "deserialization_failed",
              "context": "input #1 contained malformed JSON"
            }"#
        )
    );

    assert_eq!(
        Message::new_data("/foo/bar", Event::new("pong", vec![42u64])),
        message(
            r#"{
                "type": "data-message",
                "topic": "/foo/bar",
                "@data-type": "vector",
                "data": [
                    {"@data-type": "count", "data": 1},
                    {"@data-type": "count", "data": 1},
                    {"@data-type": "vector", "data": [
                        {"@data-type": "string", "data": "pong"},
                        {"@data-type": "vector", "data": [
                            {"@data-type": "count", "data": 42}]
                        }]
                    }
                ]
            }"#
        )
    );

    assert_eq!(
        Message::new_data("/foo/bar", Data::Other(Value::Count(42))),
        message(
            r#"{
                "type": "data-message",
                "topic": "/foo/bar",
                "@data-type": "count",
                "data": 42
            }"#
        )
    );
}

#[test]
fn message_try_from_into_tungstenite() {
    let event = Message::new_data("my_topic", Event::new("my_event", vec![1]));

    let msg: Frame = event.to_frame(offset()).unwrap();
    let event2: Message = msg.try_into().unwrap();

    assert_eq!(event, event2);

    let ping = Frame::Ping(vec![]);
    assert_eq!(
        Message::try_from(ping.clone()),
        Err(DeserializationError::UnexpectedMessageType(ping))
    );
}

#[test]
fn subscriptions_try_from_into_tungstenite() {
    let subscriptions = Subscriptions::from(&["a", "b"]);

    let msg: Frame = subscriptions.clone().into();
    let subscriptions2: Subscriptions = msg.try_into().unwrap();

    assert_eq!(subscriptions, subscriptions2);
}

#[test]
fn value_from_json() {
    assert_eq!(Value::from(()), read(r#"{"@data-type": "none", "data": {}}"#));
    assert_eq!(Value::from(true), read(r#"{"@data-type": "boolean", "data": true}"#));
    assert_eq!(Value::from(123u64), read(r#"{"@data-type": "count", "data": 123}"#));
    assert_eq!(Value::from(-7), read(r#"{"@data-type": "integer", "data": -7}"#));
    assert_eq!(
        Value::from(Real { bits: 7.5f64.to_bits() }),
        read(r#"{"@data-type": "real", "data": 7.5}"#)
    );
    assert_eq!(
        Value::from(span(time::Duration::milliseconds(1500))),
        read(r#"{"@data-type": "timespan", "data": "1500ms"}"#)
    );
    assert_eq!(
        Value::from({
            // Change the offset to the local offset since Zeek interprets timestamps in local time.
            stamp(time::OffsetDateTime::new_in_offset(
                date(2022, time::Month::April, 10),
                time::Time::from_hms(7, 0, 0).unwrap(),
                time::UtcOffset::current_local_offset().unwrap(),
            ))
        }),
        read(r#"{"@data-type": "timestamp", "data": "2022-04-10T07:00:00.000"}"#)
    );
    assert_eq!(
        Value::from("Hello World!"),
        read(r#"{"@data-type": "string", "data": "Hello World!"}"#)
    );
    assert_eq!(
        Value::EnumValue("foo".into()),
        read(r#"{"@data-type": "enum-value", "data": "foo"}"#)
    );
    assert_eq!(
        Value::from(IpAddr::from_str("2001:db8::").unwrap()),
        read(r#"{"@data-type": "address", "data": "2001:db8::"}"#)
    );
    assert_eq!(
        Value::from(IpNetwork::from_str("255.255.255.0/24").unwrap()),
        read(r#"{"@data-type": "subnet", "data": "255.255.255.0/24"}"#)
    );
    assert_eq!(
        Value::from(Port::from_str("8080/tcp").unwrap()),
        read(r#"{"@data-type": "port", "data": "8080/tcp"}"#)
    );
    assert_eq!(
        Value::from(vec![Value::from(42u8), 23i32.into()]),
        read(
            r#"{
                "@data-type": "vector",
                "data": [
                  {
                    "@data-type": "count",
                    "data": 42
                  },
                  {
                    "@data-type": "integer",
                    "data": 23
                  }
            ]}"#
        )
    );
    assert_eq!(
        Value::SetOf(ValueSet::from_values(vec!["foo".into(), "bar".into()])),
        read(
            r#"{
                "@data-type": "set",
                "data": [
                  {
                    "@data-type": "string",
                    "data": "foo"
                  },
                  {
                    "@data-type": "string",
                    "data": "bar"
                  }
            ]}"#
        )
    );
    assert_eq!(
        Value::Table(ValueTable::from_entries(vec![
            TableEntry::new("first-name", "John"),
            TableEntry::new("last-name", "Doe")
        ])),
        read(
            r#"{
               "@data-type": "table",
               "data": [
                 {
                   "key": {
                     "@data-type": "string",
                     "data": "first-name"
                   },
                   "value": {
                     "@data-type": "string",
                     "data": "John"
                   }
                 },
                 {
                   "key": {
                     "@data-type": "string",
                     "data": "last-name"
                   },
                   "value": {
                     "@data-type": "string",
                     "data": "Doe"
                   }
                 }
               ]
            }"#
        )
    );

    let data = Value::Count(42);
    let json = write(&Value::from(Data::Other(data.clone())));
    assert_eq!(data, read(&json));
}

#[test]
fn try_into() {
    assert_eq!(Value::from(true).try_into(), Ok(true));
    assert_eq!(Value::from(0u64).try_into(), Ok(0u64));
    assert_eq!(Value::from(0u64).try_into(), Ok(0u32));
    assert_eq!(Value::from(0u64).try_into(), Ok(0u16));
    assert_eq!(Value::from(0u64).try_into(), Ok(0u8));
    assert_eq!(Value::from(0).try_into(), Ok(0i64));
    assert_eq!(Value::from(0).try_into(), Ok(0i32));
    assert_eq!(Value::from(0).try_into(), Ok(0i16));
    assert_eq!(Value::from(0).try_into(), Ok(0i8));
    let zero = Real { bits: 0f64.to_bits() };
    assert_eq!(Value::from(zero).try_into(), Ok(zero));

    assert_eq!(
        Value::from(span(time::Duration::seconds(1))).try_into(),
        Ok(span(time::Duration::seconds(1)))
    );
    let time = stamp(time::OffsetDateTime::new_utc(
        date(2022, time::Month::April, 10),
        time::Time::from_hms(0, 0, 0).unwrap(),
    ));
    assert_eq!(Value::from(time).try_into(), Ok(time));

    let addr = IpAddr::from_str("::0").unwrap();
    assert_eq!(Value::from(addr).try_into(), Ok(addr));

    let network = IpNetwork::new(addr, 8).unwrap();
    assert_eq!(Value::from(network).try_into(), Ok(network));

    let port = Port::new(42, Protocol::TCP);
    assert_eq!(Value::from(port).try_into(), Ok(port));

    let not_string: Result<String, _> = Value::from(0).try_into();
    assert_eq!(not_string, Err(ConversionError::MismatchedTypes));

    let outside_range: Result<i8, _> = Value::from(i64::MAX).try_into();
    let err = i8::try_from(i64::MAX).err().unwrap();
    assert_eq!(outside_range, Err(ConversionError::Domain(err)));
}

#[test]
fn port() {
    let p = Port::new(8080, Protocol::TCP);
    assert_eq!(p.number(), 8080);
    assert_eq!(p.protocol(), Protocol::TCP);

    assert_eq!(write(&Value::from(p)), r#"{"@data-type":"port","data":"8080/tcp"}"#);
    assert_eq!(p, "8080/tcp".parse().unwrap());

    assert_eq!(Err(ParseError::InvalidPort("foo".into())), "foo".parse::<Port>());
    assert_eq!(
        Err(ParseError::InvalidPortNumber("1234567890".into())),
        "1234567890/tcp".parse::<Port>()
    );
}

#[test]
fn protocol() {
    assert_eq!(Protocol::from_str("tcp"), Ok(Protocol::TCP));
    assert_eq!(Protocol::from_str("udp"), Ok(Protocol::UDP));
    assert_eq!(Protocol::from_str("icmp"), Ok(Protocol::ICMP));
    assert_eq!(Protocol::from_str("?"), Ok(Protocol::UNKNOWN));
    assert_eq!(
        Protocol::from_str("foo"),
        Err(ParseError::InvalidProtocol("foo".into()))
    );

    assert_eq!(Protocol::TCP.to_string(), "tcp");
    assert_eq!(Protocol::UDP.to_string(), "udp");
    assert_eq!(Protocol::ICMP.to_string(), "icmp");
    assert_eq!(Protocol::UNKNOWN.to_string(), "?");
}

#[test]
fn set() {
    let table: HashSet<_, _> = [1, 2, 3].iter().copied().collect();
    let Value::SetOf(xs) = Value::from(table) else {
        panic!()
    };
    assert_eq!(xs.len(), 3);
}

#[test]
fn table() {
    assert_eq!(
        read(r#"{"@data-type":"table", "data": []}"#),
        Value::Table(ValueTable::new())
    );

    assert_eq!(
        read(
            r#"{
            "@data-type":"table",
            "data": [{
                "key":{
                    "@data-type":"string",
                    "data": "one"
                },
                "value":{
                    "@data-type":"count",
                    "data": 1
                }
            }]}"#
        ),
        Value::Table(ValueTable::from_entries(vec![TableEntry::new("one", 1u8)]))
    );

    let table: HashMap<_, _> = [(1, 11), (2, 22), (3, 33)].iter().copied().collect();
    let Value::Table(xs) = Value::from(table) else {
        panic!()
    };
    assert_eq!(xs.len(), 3);
}

#[test]
fn timespan() {
    assert_eq!(
        read(r#"{ "@data-type": "timespan", "data": "1ns" }"#),
        Value::from(span(time::Duration::nanoseconds(1)))
    );
    assert_eq!(
        read(r#"{ "@data-type": "timespan", "data": "1ms" }"#),
        Value::from(span(time::Duration::milliseconds(1)))
    );
    assert_eq!(
        read(r#"{ "@data-type": "timespan", "data": "1s" }"#),
        Value::from(span(time::Duration::seconds(1)))
    );
    assert_eq!(
        read(r#"{ "@data-type": "timespan", "data": "1min" }"#),
        Value::from(span(time::Duration::minutes(1)))
    );
    assert_eq!(
        read(r#"{ "@data-type": "timespan", "data": "1h" }"#),
        Value::from(span(time::Duration::hours(1)))
    );
    assert_eq!(
        read(r#"{ "@data-type": "timespan", "data": "1d" }"#),
        Value::from(span(time::Duration::days(1)))
    );

    assert_eq!(
        read(r#"{ "@data-type": "timespan", "data": "-42s" }"#),
        Value::from(span(time::Duration::seconds(-42)))
    );

    assert_eq!(
        read_error(r#"{ "@data-type": "timespan", "data": "1us" }"#),
        r"invalid timespan unit 'us'"
    );
    assert_eq!(
        read_error(r#"{ "@data-type": "timespan", "data": "-1-1s" }"#),
        r"invalid digit found in string"
    );

    assert_eq!(
        write(&Value::from(span(time::Duration::nanoseconds(12)))),
        serde_json::to_string(&tree(r#"{"@data-type": "timespan", "data": "12ns"}"#)).unwrap()
    );
    assert_eq!(
        write(&Value::from(span(time::Duration::seconds(12)))),
        serde_json::to_string(&tree(r#"{"@data-type": "timespan", "data": "12s"}"#)).unwrap()
    );
    assert_eq!(
        Value::from(span(
            time::Duration::weeks(52 * 100_000_000) + time::Duration::nanoseconds(1)
        ))
        .to_json(offset())
        .err()
        .unwrap()
        .to_string(),
        "value not representable: '36400000000d1ns' needs nanosecond accuracy but exceeds its range"
    );
}

#[test]
fn timestamp() {
    let value = Value::from(stamp(time::OffsetDateTime::new_in_offset(
        date(2014, time::Month::August, 12),
        time::Time::from_hms_nano(1, 2, 3, 4).unwrap(),
        time::UtcOffset::current_local_offset().unwrap(),
    )));

    let json = tree(r#"{"@data-type": "timestamp", "data":"2014-08-12T01:02:03.000000004"}"#);

    assert_eq!(write(&value), serde_json::to_string(&json).unwrap());

    assert_eq!(Value::from_json(&json, offset()).unwrap(), value);

    assert_eq!(
        read_error(r#"{"@data-type": "timestamp", "data":"2014-99-99T01:02:03.000000004"}"#),
        "the 'month' component could not be parsed"
    );
}
