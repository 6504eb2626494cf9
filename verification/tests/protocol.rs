use zeek_websocket::frame::Frame;
use zeek_websocket::message::{Data, Event, Message};
use zeek_websocket::protocol::{Binding, ProtocolError};
use zeek_websocket::subscriptions::Subscriptions;
use zeek_websocket::value::Value;

fn ack() -> Message {
    Message::Ack {
        endpoint: "mock".into(),
        version: "0.1".into(),
    }
}

fn nothing() -> Vec<()> {
    vec![]
}

fn subscriptions(data: Vec<u8>) -> Subscriptions {
    Subscriptions::try_from(Frame::Binary(data)).unwrap()
}

fn message(data: Vec<u8>) -> Message {
    Message::try_from(Frame::Binary(data)).unwrap()
}

#[test]
fn recv() {
    let topic = "foo";

    let mut conn = Binding::new(&[topic]);

    // Nothing received yet,
    assert_eq!(conn.next_message(), None);

    // Handle subscription.
    subscriptions(conn.outgoing().unwrap());
    conn.handle_incoming(ack()).unwrap();

    // No new input received.
    assert_eq!(conn.next_message(), None);
    assert_eq!(conn.receive_event(), Ok(None));

    // Receive a single event.
    conn.handle_incoming(Message::new_data(topic, Event::new("ping", nothing())))
        .unwrap();

    assert!(matches!(
        conn.next_message(),
        Some(Message::DataMessage {
            data: Data::Event(..),
            ..
        })
    ));
}

#[test]
fn send() {
    let mut conn = Binding::new(&["foo"]);

    // Handle subscription.
    subscriptions(conn.outgoing().unwrap());
    conn.handle_incoming(ack()).unwrap();

    // Send an event.
    conn.publish_event("foo", Event::new("ping", nothing())).unwrap();

    // Event payload should be in outbox.
    let msg = message(conn.outgoing().unwrap());
    assert!(matches!(
        msg,
        Message::DataMessage {
            data: Data::Event(..),
            ..
        }
    ));
}

#[test]
fn split() {
    let (mut inbox, mut outbox) = Binding::new(&["foo"]).split();

    // Handle subscription.
    subscriptions(outbox.next_data().unwrap());
    inbox.handle(ack());

    assert!(matches!(inbox.next_message(), Some(Message::Ack { .. })));
}

#[test]
fn duplicate_ack() {
    let mut conn = Binding::new(&["foo"]);

    // Handle subscription. The call to `handle_incoming` consumes the ACK.
    subscriptions(conn.outgoing().unwrap());
    conn.handle_incoming(ack()).unwrap();

    // Detect if we see another, unexpected ACK.
    assert_eq!(
        conn.handle_incoming(ack()),
        Err(ProtocolError::AlreadySubscribed)
    );
}

#[test]
fn other_event_payload() {
    let mut conn = Binding::new(&["foo"]);
    conn.handle_incoming(ack()).unwrap();

    let other = Message::new_data("foo", Value::Count(42));
    assert_eq!(
        conn.handle_incoming(other),
        Err(ProtocolError::UnexpectedEventPayload(Value::Count(42)))
    );
}

#[test]
fn next_incoming() {
    let mut conn = Binding::new(Subscriptions::default());

    // Put an ACK and an event into the inbox.
    let _ = conn.handle_incoming(ack());
    let _ = conn.handle_incoming(Message::new_data("topic", Event::new("ping", nothing())));

    // Event though we have an ACK in the inbox `receive_event`
    // discards it and returns the event.
    let (topic, event) = conn.receive_event().unwrap().unwrap();
    assert_eq!(topic, "topic");
    assert_eq!(event.name, "ping");

    assert_eq!(conn.next_message(), None);
}

#[test]
fn error() {
    let mut conn = Binding::new(&["foo"]);
    conn.handle_incoming(ack()).unwrap();

    conn.handle_incoming(Message::Error {
        code: "code".to_string(),
        context: "context".to_string(),
    })
    .unwrap();

    assert_eq!(
        conn.receive_event(),
        Err(ProtocolError::ZeekError {
            code: "code".to_string(),
            context: "context".to_string()
        })
    );
}

#[test]
fn publish_event() {
    let mut conn = Binding::new(&["foo"]);
    // Consume the subscription.
    conn.outgoing().unwrap();

    conn.publish_event("foo", Event::new("ping", nothing())).unwrap();
    let message = message(conn.outgoing().unwrap());
    let Message::DataMessage {
        topic,
        data: Data::Event(event),
    } = message
    else {
        panic!()
    };
    assert_eq!(topic, "foo");
    assert_eq!(event.name, "ping");
}

#[test]
fn events_and_errors_come_in_order() {
    let mut conn = Binding::new(&["foo"]);
    let error = || Message::Error { code: "code".into(), context: "context".into() };
    conn.handle_incoming(Message::new_data("foo", Event::new("one", nothing()))).unwrap();
    conn.handle_incoming(error()).unwrap();
    conn.handle_incoming(ack()).unwrap();
    // What is refused leaves no trace.
    assert!(conn.handle_incoming(ack()).is_err());
    assert!(conn.handle_incoming(Message::new_data("foo", Value::Nil)).is_err());
    conn.handle_incoming(Message::new_data("bar", Event::new("two", nothing()))).unwrap();

    let (topic, event) = conn.receive_event().unwrap().unwrap();
    assert_eq!((topic.as_str(), event.name.as_str()), ("foo", "one"));
    assert_eq!(
        conn.receive_event().err().unwrap().to_string(),
        "Zeek error code: context"
    );
    let (topic, event) = conn.receive_event().unwrap().unwrap();
    assert_eq!((topic.as_str(), event.name.as_str()), ("bar", "two"));
    assert_eq!(conn.receive_event(), Ok(None));
    // Only the subscription waits to be sent.
    assert!(conn.outgoing().is_some());
    assert_eq!(conn.outgoing(), None);
}

#[test]
fn everything_is_sent_once_and_in_order() {
    let mut conn = Binding::new(&["foo"]);
    let event = |name: &str| Event::new(name, nothing());
    conn.publish_event("foo", event("one")).unwrap();
    assert_eq!(subscriptions(conn.outgoing().unwrap()), Subscriptions::from(&["foo"]));
    conn.handle_incoming(ack()).unwrap();
    conn.publish_event("bar", event("two")).unwrap();
    assert_eq!(message(conn.outgoing().unwrap()), Message::new_data("foo", event("one")));
    assert_eq!(conn.receive_event(), Ok(None));
    conn.publish_event("foo", event("one")).unwrap();
    assert_eq!(message(conn.outgoing().unwrap()), Message::new_data("bar", event("two")));
    assert_eq!(message(conn.outgoing().unwrap()), Message::new_data("foo", event("one")));
    assert_eq!(conn.outgoing(), None);
}
