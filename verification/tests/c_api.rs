use zeek_websocket::c_api::{
    client_notice, client_setup, protocol_notice, publish_topic, runtime_notice, safe_string,
    Address, ClientConfig, ClientError, Event, List, Port, Protocol, Setup, Subnet, Table,
    TableEntry, Value, ValueType,
};
use zeek_websocket::client::Error;
use zeek_websocket::frame::DeserializationError;
use zeek_websocket::net::IpAddr;
use zeek_websocket::protocol::ProtocolError;
use zeek_websocket::scalar::{Real, Timespan};

fn count(n: u64) -> Value {
    Value::zws_value_new_count(n)
}

#[test]
fn scalars_come_out_as_they_went_in() {
    let (mut b, mut c, mut i, mut r) = (false, 0, 0, Real { bits: 0 });
    assert!(Value::zws_value_new_boolean(true).zws_value_as_bool(&mut b) && b);
    assert!(count(7).zws_value_as_count(&mut c) && c == 7);
    assert!(Value::zws_value_new_integer(-7).zws_value_as_integer(&mut i) && i == -7);
    let half = Real { bits: 0.5f64.to_bits() };
    assert!(Value::zws_value_new_real(half).zws_value_as_real(&mut r) && r == half);
    assert!(Value::zws_value_new_timespan(i64::MIN).zws_value_as_timespan(&mut i));
    assert_eq!(i, i64::MIN);
    let t = Value::zws_value_new_timestamp(i64::MAX).unwrap();
    assert!(t.zws_value_as_timestamp(&mut i));
    assert_eq!(i, i64::MAX);
    let s = Value::zws_value_new_string("hé\0".as_bytes()).unwrap();
    assert_eq!(s.zws_value_as_string(), Some("hé\0"));
    assert_eq!(s.zws_value_as_enumvalue(), None);
    let e = Value::zws_value_new_enum(b"e").unwrap();
    assert_eq!(e.zws_value_as_enumvalue(), Some("e"));
    assert_eq!(e.zws_value_as_string(), None);
    assert_eq!(Value::zws_value_new_string(&[0xff]), None);
    assert_eq!(Value::zws_value_new_enum(&[0xff]), None);
    let mut p = Port { number: 0, protocol: Protocol::UNKNOWN };
    let port = Port { number: 53, protocol: Protocol::UDP };
    assert!(Value::zws_value_new_port(port).zws_value_as_port(&mut p));
    assert_eq!(p, port);
}

#[test]
fn other_kinds_leave_the_result_alone() {
    let mut c = 3;
    assert!(!Value::zws_value_new_none().zws_value_as_count(&mut c));
    assert!(!Value::zws_value_new_integer(1).zws_value_as_count(&mut c));
    assert_eq!(c, 3);
    let mut n = 4;
    let long = Timespan::new(i64::MAX as i128 + 1).unwrap();
    let long = Value(zeek_websocket::value::Value::Timespan(long));
    assert!(!long.zws_value_as_timespan(&mut n));
    assert!(!count(1).zws_value_as_timestamp(&mut n));
    assert_eq!(n, 4);
    let mut list = List::zws_list_new(vec![count(1)]);
    assert!(!count(1).zws_value_as_vector(&mut list));
    assert!(!count(1).zws_value_as_set(&mut list));
    assert_eq!(list.zws_list_size(), 1);
}

#[test]
fn collections() {
    let mut list = List::zws_list_new(vec![]);
    let values = vec![count(2), count(1), count(2)];
    assert!(Value::zws_value_new_vector(&values).zws_value_as_vector(&mut list));
    assert_eq!(list.zws_list_size(), 3);
    assert_eq!(list.zws_list_entry(0), Some(&count(2)));
    assert_eq!(list.zws_list_entry(3), None);
    assert!(Value::zws_value_new_set(&values).zws_value_as_set(&mut list));
    assert_eq!(list.zws_list_size(), 2);
    assert_eq!(list.zws_list_entry(0), Some(&count(1)));

    let entries = vec![
        TableEntry { key: count(2), value: count(20) },
        TableEntry { key: count(1), value: count(10) },
        TableEntry { key: count(2), value: count(21) },
    ];
    let mut table = Table(vec![]);
    assert!(Value::zws_value_new_table(&entries).zws_value_as_table(&mut table));
    let keys = table.zws_table_keys();
    assert_eq!(keys.zws_list_size(), 2);
    assert_eq!(keys.zws_list_entry(1), Some(&count(2)));
    assert_eq!(table.zws_table_get(&count(1)), Some(&count(10)));
    assert_eq!(table.zws_table_get(&count(2)), Some(&count(21)));
    assert_eq!(table.zws_table_get(&count(3)), None);
}

#[test]
fn value_types() {
    assert_eq!(Value::zws_value_new_none().zws_value_type(), ValueType::Nil);
    assert_eq!(count(1).zws_value_type(), ValueType::Count);
    assert_eq!(Value::zws_value_new_set(&vec![]).zws_value_type(), ValueType::SetOf);
    assert_eq!(Value::zws_value_new_table(&vec![]).zws_value_type(), ValueType::Table);
}

#[test]
fn addresses() {
    let v4 = Address::zws_address_new_v4(&[127, 0, 0, 1]);
    assert_eq!(v4.0, IpAddr::V4(0x7f00_0001));
    assert!(!v4.zws_address_is_v6());
    let mut four = [0; 4];
    assert!(v4.zws_address_as_v4(&mut four));
    assert_eq!(four, [127, 0, 0, 1]);
    let mut sixteen = [9; 16];
    assert!(!v4.zws_address_as_v6(&mut sixteen));
    assert_eq!(sixteen, [9; 16]);

    let bytes = [0x20, 1, 0xd, 0xb8, 0, 0, 0, 0, 0, 0, 0, 0, 0, 0, 0, 0xff];
    let v6 = Address::zws_address_new_v6(&bytes);
    assert_eq!(v6.0, IpAddr::V6(0x2001_0db8_0000_0000_0000_0000_0000_00ff));
    assert!(v6.zws_address_is_v6());
    assert!(v6.zws_address_as_v6(&mut sixteen));
    assert_eq!(sixteen, bytes);
    assert!(!v6.zws_address_as_v4(&mut four));

    let mut out = v4;
    assert!(Value::zws_value_new_address(v6).zws_value_as_address(&mut out));
    assert_eq!(out, v6);
    let mut subnet = Subnet { addr: v6, prefix: 0 };
    let net = Value::zws_value_new_subnet(v4, 32).unwrap();
    assert!(net.zws_value_as_subnet(&mut subnet));
    assert_eq!(subnet, Subnet { addr: v4, prefix: 32 });
    assert_eq!(Value::zws_value_new_subnet(v4, 33), None);
    assert!(Value::zws_value_new_subnet(v6, 128).is_some());
}

#[test]
fn events() {
    let args = || List::zws_list_new(vec![count(1)]);
    let e = Event::zws_event_new(b"ping", args(), None).unwrap();
    assert_eq!(e.zws_event_name(), "ping");
    assert_eq!(e.zws_event_args().zws_list_entry(0), Some(&count(1)));
    assert_eq!(e.zws_event_metadata().zws_list_size(), 0);
    let e = Event::zws_event_new(b"ping", args(), Some(args())).unwrap();
    assert_eq!(e.zws_event_metadata().zws_list_size(), 1);
    assert!(Event::zws_event_new(&[0xc0], args(), None).is_none());
}

#[test]
fn configuration() {
    let config = ClientConfig::zws_clientconfig_new();
    assert_eq!(config.outbox_size, 256);
    assert_eq!(config.service_config().unwrap().outbox_size(), 256);
    assert!(ClientConfig { outbox_size: 0 }.service_config().is_none());
}

#[test]
fn notices() {
    assert_eq!(safe_string("a\0b\0"), "a");
    assert_eq!(safe_string("\0"), "");
    assert_eq!(safe_string("ab"), "ab");
    let n = protocol_notice(&ProtocolError::ZeekError { code: "c\0".into(), context: "x".into() });
    assert_eq!((n.code, n.context.as_str()), (ClientError::Zeek, "Zeek error c"));
    assert_eq!(protocol_notice(&ProtocolError::AckExpected).code, ClientError::UnexpectedMessage);
    assert_eq!(protocol_notice(&ProtocolError::AlreadySubscribed).code, ClientError::Transport);
    let n = client_notice(&Error::Transport("t".into()));
    assert_eq!(
        (n.code, n.context.as_str()),
        (ClientError::Transport, "failure in websocket transport: t")
    );
    let n = client_notice(&Error::from(DeserializationError::Json("t".into())));
    assert_eq!(n.code, ClientError::UnexpectedMessage);
    let n = runtime_notice("no");
    assert_eq!(
        (n.code, n.context.as_str()),
        (ClientError::Runtime, "could not start background thread: no")
    );
    assert_eq!(publish_topic(b"t"), Some("t".to_string()));
    assert_eq!(publish_topic(&[0xff]), None);
}

#[test]
fn setup_checks_arguments_in_order() {
    let bad = vec![0xff];
    let uri = b"ws://localhost:1";
    let topics = || vec![b"/ping".to_vec()];
    assert!(matches!(client_setup(&bad, &bad, &vec![bad.clone()]), Setup::Silent));
    let Setup::Refused(n) = client_setup(b"app", &bad, &vec![b"t".to_vec(), bad.clone()]) else {
        panic!()
    };
    assert_eq!(
        (n.code, n.context.as_str()),
        (ClientError::InvalidTopic, "one or more topic names include invalid UTF-8")
    );
    let Setup::Refused(n) = client_setup(b"app", &bad, &topics()) else { panic!() };
    assert_eq!(
        (n.code, n.context.as_str()),
        (ClientError::InvalidUri, "uri cannot contain literal NULL")
    );
    let Setup::Refused(n) = client_setup(b"app", b"ws://[", &topics()) else { panic!() };
    assert_eq!(n.code, ClientError::InvalidUri);
    assert!(n.context.starts_with("invalid uri: "));
    assert!(n.context.len() > "invalid uri: ".len());
    let Setup::Ready { app_name, topics, uri } = client_setup(b"app", uri, &topics()) else {
        panic!()
    };
    assert_eq!(app_name, "app");
    assert_eq!(topics, vec!["/ping"]);
    assert_eq!(uri, "ws://localhost:1");
}
