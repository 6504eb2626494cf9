use zeek_websocket::client::{Action, Ending, Error, Incoming, ServiceConfig, Session};
use zeek_websocket::frame::{DeserializationError, Frame};
use zeek_websocket::message::{Data, Event, Message};
use zeek_websocket::mock::MockSession;
use zeek_websocket::protocol::{Inbox, Outbox, ProtocolError};
use zeek_websocket::scalar::{Timespan, UtcOffset};
use zeek_websocket::subscriptions::Subscriptions;
use zeek_websocket::value::Value;

fn utc() -> Option<UtcOffset> {
    UtcOffset::from_whole_seconds(0)
}

fn frame(text: &str) -> Frame {
    Frame::Text(text.to_owned())
}

fn ack() -> Incoming {
    Incoming::Frame(frame(r#"{"type":"ack","endpoint":"e","version":"v"}"#))
}

fn event_frame(topic: &str, event: Event) -> Frame {
    Message::new_data(topic, event).to_frame(utc()).unwrap()
}

fn connected() -> Session {
    let (mut session, _) = Session::open(&["/topic"]);
    session.on_incoming(ack(), utc());
    session
}

#[test]
fn test_echo() {
    let mut mock = MockSession::new();

    // Subscribe.
    let topic = "/topic".to_owned();
    let answer = mock.on_frame(Subscriptions::from(&[&topic]).to_frame(), utc()).unwrap();
    assert!(matches!(
        Message::from_frame(answer.unwrap(), utc()),
        Ok(Message::Ack { .. })
    ));

    // Validate that the server echos data back to us.
    let echo = Event::new("echo", vec![1]);
    let data = Message::new_data(topic.as_str(), echo);
    let answer = mock.on_frame(data.to_frame(utc()).unwrap(), utc()).unwrap();
    assert_eq!(Message::from_frame(answer.unwrap(), utc()), Ok(data));
}

#[test]
fn client_echo() {
    let topic = "/topic";
    let mut zeek = MockSession::new();
    let (mut session, actions) = Session::open(&[topic]);
    assert!(!session.is_connected());

    // The subscription goes out first and is acknowledged.
    let mut replies = vec![];
    for action in actions {
        let Action::Send(f) = action else { panic!() };
        replies.extend(zeek.on_frame(f, utc()).unwrap());
    }
    assert_eq!(replies.len(), 1);
    let actions = session.on_incoming(Incoming::Frame(replies.pop().unwrap()), utc());
    assert!(matches!(
        &actions[..],
        [Action::Connected { endpoint, version }] if endpoint == "mock-server" && version == "0.0.1"
    ));
    assert!(session.is_connected());

    // What is published comes back.
    let actions = session.on_publish(topic.to_owned(), Event::new("echo", vec![42]), utc());
    for action in actions {
        let Action::Send(f) = action else { panic!() };
        assert!(matches!(f, Frame::Binary(_)));
        replies.extend(zeek.on_frame(f, utc()).unwrap());
    }
    assert_eq!(replies.len(), 1);
    let actions = session.on_incoming(Incoming::Frame(replies.pop().unwrap()), utc());
    let [Action::Deliver(t, e)] = &actions[..] else { panic!() };
    assert_eq!(t, topic);
    assert_eq!(*e, Event::new("echo", vec![42]));
}

#[test]
fn mock_ignores_other_events_and_topics() {
    let mut mock = MockSession::new();
    let echo = Event::new("echo", vec![1]);
    assert_eq!(mock.on_frame(event_frame("/topic", echo.clone()), utc()).unwrap(), None);
    mock.on_frame(Subscriptions::from(&["/topic"]).to_frame(), utc()).unwrap();
    assert_eq!(mock.on_frame(event_frame("/other", echo.clone()), utc()).unwrap(), None);
    let ping = Event::new("ping", vec![1]);
    assert_eq!(mock.on_frame(event_frame("/topic", ping), utc()).unwrap(), None);
    assert_eq!(mock.on_frame(Frame::Ping(vec![]), utc()).unwrap(), None);
    assert_eq!(mock.on_frame(frame("garbage"), utc()).unwrap(), None);

    // A later subscription replaces an earlier one.
    mock.on_frame(Subscriptions::from(&["/other"]).to_frame(), utc()).unwrap();
    assert_eq!(mock.on_frame(event_frame("/topic", echo.clone()), utc()).unwrap(), None);
    assert!(mock.on_frame(event_frame("/other", echo), utc()).unwrap().is_some());
}

#[test]
fn mock_returns_metadata() {
    let mut mock = MockSession::new();
    mock.on_frame(Subscriptions::from(&["t"]).to_frame(), utc()).unwrap();
    let event = Event::new("echo", vec![1]).with_metadata(vec![Value::Count(7)]);
    let answer = mock.on_frame(event_frame("t", event.clone()), utc()).unwrap().unwrap();
    assert_eq!(Message::from_frame(answer, utc()), Ok(Message::new_data("t", event)));
}

#[test]
fn handshake_wants_an_ack() {
    let (mut session, _) = Session::open(&["/topic"]);
    assert!(session.on_incoming(Incoming::Frame(Frame::Ping(vec![1])), utc()).is_empty());
    let actions = session.on_incoming(
        Incoming::Frame(frame(r#"{"type":"error","code":"c","context":"x"}"#)),
        utc(),
    );
    let [Action::Finish(Ending::NotAcknowledged(m))] = &actions[..] else { panic!() };
    assert_eq!(*m, Message::Error { code: "c".into(), context: "x".into() });
    assert!(!session.is_connected());

    let actions = session.on_incoming(Incoming::Frame(Frame::Pong(vec![])), utc());
    assert!(matches!(
        &actions[..],
        [Action::Finish(Ending::Failed(Error::ProtocolError(ProtocolError::DeserializationError(
            DeserializationError::UnexpectedMessageType(Frame::Pong(_))
        ))))]
    ));
    let actions = session.on_incoming(Incoming::Closed, utc());
    assert!(matches!(&actions[..], [Action::Finish(Ending::Done)]));
}

#[test]
fn connected_session_decides() {
    let mut session = connected();
    assert!(session.on_incoming(Incoming::Frame(Frame::Ping(vec![])), utc()).is_empty());

    // What cannot be read ends the session.
    let actions = session.on_incoming(Incoming::Frame(frame("not json")), utc());
    assert!(matches!(
        &actions[..],
        [Action::Finish(Ending::Failed(Error::ProtocolError(
            ProtocolError::DeserializationError(DeserializationError::Json(_))
        )))]
    ));
    let actions = session.on_incoming(Incoming::Frame(Frame::Pong(vec![])), utc());
    assert!(matches!(
        &actions[..],
        [Action::Finish(Ending::Failed(Error::ProtocolError(
            ProtocolError::DeserializationError(DeserializationError::UnexpectedMessageType(_))
        )))]
    ));

    // An error of Zeek is reported.
    let actions = session.on_incoming(
        Incoming::Frame(frame(r#"{"type":"error","code":"c","message":"x"}"#)),
        utc(),
    );
    let [Action::Report(e)] = &actions[..] else { panic!() };
    assert_eq!(e.to_string(), "Zeek error c: x");

    // A payload that is no event ends the session.
    let other = Message::new_data("t", Data::Other(Value::Count(1)));
    let actions = session.on_incoming(Incoming::Frame(other.to_frame(utc()).unwrap()), utc());
    assert!(matches!(
        &actions[..],
        [Action::Finish(Ending::Failed(Error::ProtocolError(
            ProtocolError::UnexpectedEventPayload(Value::Count(1))
        )))]
    ));

    let actions = session.on_incoming(Incoming::Failed("broken pipe".into()), utc());
    let [Action::Finish(Ending::Failed(e))] = &actions[..] else { panic!() };
    assert_eq!(e.to_string(), "failure in websocket transport: broken pipe");

    let actions = session.on_client_gone();
    let [Action::Send(close), Action::Finish(Ending::Done)] = &actions[..] else { panic!() };
    assert_eq!(*close, Frame::Close(Some((1000, String::new()))));
}

#[test]
fn acks_in_a_connected_session() {
    let mut session = connected();
    // The ACK of the handshake does not reach the binding, so one more is accepted.
    assert!(session.on_incoming(ack(), utc()).is_empty());
    let actions = session.on_incoming(ack(), utc());
    let [Action::Finish(Ending::Failed(e))] = &actions[..] else { panic!() };
    assert_eq!(*e, Error::ProtocolError(ProtocolError::AlreadySubscribed));
    assert_eq!(
        e.to_string(),
        "protocol-related error: received an ACK while already subscribed"
    );
}

#[test]
fn unsendable_event() {
    let mut session = connected();
    let span = Timespan::new(10_000_000_000_000_000_001).unwrap();
    let actions = session.on_publish("t".into(), Event::new("e", vec![span]), utc());
    let [Action::Unsendable(e)] = &actions[..] else { panic!() };
    assert_eq!(
        e.to_string(),
        "value not representable: '115740d17h46m40s1ns' needs nanosecond accuracy but exceeds its range"
    );
    // Nothing of it is left behind.
    let actions = session.on_publish("t".into(), Event::new("e", vec![1]), utc());
    assert_eq!(actions.len(), 1);
}

#[test]
fn inbox_skips_what_is_no_event() {
    let mut inbox = Inbox::new();
    inbox.handle(Message::Ack { endpoint: "e".into(), version: "v".into() });
    inbox.handle(Message::new_data("t", Event::new("first", vec![1])));
    inbox.handle(Message::Error { code: "c".into(), context: "x".into() });
    inbox.handle(Message::new_data("t", Data::Other(Value::Count(3))));
    inbox.handle(Message::new_data("u", Event::new("second", vec![2])));
    inbox.handle(Message::Error { code: "c".into(), context: "x".into() });
    assert_eq!(inbox.next_event(), Some(("t".into(), Event::new("first", vec![1]))));
    assert_eq!(inbox.next_event(), Some(("u".into(), Event::new("second", vec![2]))));
    assert_eq!(inbox.next_event(), None);
    assert_eq!(inbox.next_message(), None);
}

#[test]
fn outbox_keeps_order() {
    let mut outbox = Outbox::new();
    assert_eq!(outbox.next_data(), None);
    outbox.enqueue(Frame::Text("ä".into()));
    outbox.enqueue(Frame::Close(Some((1000, "bye".into()))));
    outbox.enqueue(Frame::Close(None));
    outbox.enqueue_event("t", Event::new("e", vec![1])).unwrap();
    assert_eq!(outbox.next_data(), Some("ä".as_bytes().to_vec()));
    assert_eq!(outbox.next_data(), Some(b"bye".to_vec()));
    assert_eq!(outbox.next_data(), Some(vec![]));
    let data = outbox.next_data().unwrap();
    assert_eq!(
        Message::from_frame(Frame::Binary(data), utc()),
        Ok(Message::new_data("t", Event::new("e", vec![1])))
    );
}

#[test]
fn service_config() {
    assert_eq!(ServiceConfig::default().outbox_size(), 256);
    assert_eq!(ServiceConfig::new(0), None);
    assert_eq!(ServiceConfig::new(3).unwrap().outbox_size(), 3);
}

#[test]
fn error_texts() {
    assert_eq!(
        Error::from(DeserializationError::Json("x".into())).to_string(),
        "protocol-related error: could not deserialize message: could not parse message JSON: x"
    );
    assert_eq!(
        ProtocolError::from(DeserializationError::UnexpectedMessageType(Frame::Ping(vec![0xff])))
            .to_string(),
        "could not deserialize message: unexpected message type: Binary Data<length=1>"
    );
    assert_eq!(
        DeserializationError::UnexpectedMessageType(Frame::Pong("hé".into())).to_string(),
        "unexpected message type: hé"
    );
    assert_eq!(
        ProtocolError::UnexpectedEventPayload(Value::Nil).to_string(),
        "unexpected event payload received"
    );
    assert_eq!(ProtocolError::AckExpected.to_string(), "received an ACK while already subscribed");
}
