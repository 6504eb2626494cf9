//! What a mock server answers.
//!
//! The only supported event is `echo`, which is sent back if the client was subscribed to the
//! topic.
use vstd::prelude::*;

use crate::client::{ActionView, IncomingView, SessionView};
use crate::frame::{
    carries_back, frame_bytes, frame_message, localized_event, localized_message, message_encoded,
    DeserializationErrorView, Frame, FrameView,
};
use crate::json::{json_parsed, json_printed};
use crate::message::{Data, DataView, EventView, Message, MessageView};
use crate::protocol::event_message;
use crate::scalar::{offset_view, UtcOffset};
use crate::subscriptions::{frame_topics, texts, topics_decoded, Subscriptions};
use crate::text::same_text;
use crate::wire::EncodeError;

verus! {

/// The greeting of the mock server.
pub open spec fn mock_ack() -> MessageView {
    MessageView::Ack { endpoint: "mock-server"@, version: "0.0.1"@ }
}

/// What the mock server answers to a message: an ACK to topics, and the event itself to
/// an event that is to be echoed in a topic that the client is subscribed to.
pub open spec fn mock_answer(
    topics: Seq<Seq<char>>,
    f: FrameView,
    offset: Option<int>,
) -> Option<MessageView> {
    match frame_topics(f) {
        Ok(_) => Some(mock_ack()),
        Err(_) => match frame_message(f, offset) {
            Ok(MessageView::DataMessage { topic, data: DataView::Event(e) }) => if topics.contains(
                topic,
            ) && e.name == "echo"@ {
                Some(event_message(topic, e))
            } else {
                None
            },
            _ => None,
        },
    }
}

/// The topics that a client is subscribed to after a message.
pub open spec fn mock_topics(topics: Seq<Seq<char>>, f: FrameView) -> Seq<Seq<char>> {
    match frame_topics(f) {
        Ok(s) => s,
        Err(_) => topics,
    }
}

/// A client's connection to the mock server.
#[derive(Debug)]
pub struct MockSession {
    topics: Vec<String>,
}

impl View for MockSession {
    type V = Seq<Seq<char>>;

    /// The topics that the client is subscribed to.
    closed spec fn view(&self) -> Seq<Seq<char>> {
        texts(self.topics@)
    }
}

fn contains_text(topics: &Vec<String>, topic: &str) -> (r: bool)
    ensures
        r == texts(topics@).contains(topic@),
{
    let mut i: usize = 0;
    while i < topics.len()
        invariant
            i <= topics.len(),
            forall|j: int| 0 <= j < i ==> (#[trigger] topics@[j])@ != topic@,
        decreases topics.len() - i,
    {
        if same_text(topics[i].as_str(), topic) {
            assert(texts(topics@)[i as int] == topic@);
            return true;
        }
        i = i + 1;
    }
    assert forall|j: int| 0 <= j < texts(topics@).len() implies texts(topics@)[j] != topic@ by {
        assert(topics@[j]@ != topic@);
    }
    false
}

impl MockSession {
    /// A connection without subscriptions.
    pub fn new() -> (r: MockSession)
        ensures
            r@ == Seq::<Seq<char>>::empty(),
    {
        let r = MockSession { topics: Vec::new() };
        assert(r@ =~= Seq::<Seq<char>>::empty());
        r
    }

    /// Takes a message in and decides what to answer, with points in time in local time. Whoever
    /// receives the answer reads it, unless it cannot be written in full.
    pub fn on_frame(&mut self, frame: Frame, offset: Option<UtcOffset>) -> (r: Result<
        Option<Frame>,
        EncodeError,
    >)
        ensures
            final(self)@ == mock_topics(old(self)@, frame@),
            match mock_answer(old(self)@, frame@, offset_view(offset)) {
                None => r matches Ok(None),
                Some(m) => match message_encoded(m, offset_view(offset)) {
                    Ok(t) => r matches Ok(Some(f)) && f@ == FrameView::Text(json_printed(t)),
                    Err(e) => r matches Err(x) && x@ == e,
                },
            },
            match (mock_answer(old(self)@, frame@, offset_view(offset)), r) {
                (Some(m), Ok(Some(f))) => carries_back(m, offset_view(offset)) ==> frame_message(
                    f@,
                    offset_view(offset),
                ) == Ok::<MessageView, DeserializationErrorView>(
                    localized_message(m, offset_view(offset)),
                ),
                _ => true,
            },
    {
        let answer = match Subscriptions::from_frame(frame.clone()) {
            Ok(Subscriptions(topics)) => {
                self.topics = topics;
                Message::Ack { endpoint: "mock-server".to_owned(), version: "0.0.1".to_owned() }
            },
            Err(_) => match Message::from_frame(frame, offset) {
                Ok(Message::DataMessage { topic, data: Data::Event(event) }) => {
                    if !contains_text(&self.topics, topic.as_str()) || !same_text(
                        event.name.as_str(),
                        "echo",
                    ) {
                        return Ok(None);
                    }
                    Message::DataMessage { topic, data: Data::Event(event) }
                },
                _ => {
                    return Ok(None);
                },
            },
        };
        match answer.to_frame(offset) {
            Ok(f) => Ok(Some(f)),
            Err(e) => Err(e),
        }
    }
}

/// Topics are answered with the greeting of the server, and are from then on those of the client;
/// nothing else changes these.
pub proof fn topics_are_acknowledged(
    topics: Seq<Seq<char>>,
    f: FrameView,
    offset: Option<int>,
)
    ensures
        frame_topics(f) matches Ok(s) ==> mock_answer(topics, f, offset) == Some(
            MessageView::Ack { endpoint: "mock-server"@, version: "0.0.1"@ },
        ) && mock_topics(topics, f) == s,
        frame_topics(f) is Err ==> mock_topics(topics, f) == topics,
{
}

/// Nothing else than topics and events to be echoed in a topic of the client is answered.
pub proof fn others_are_not_answered(
    topics: Seq<Seq<char>>,
    f: FrameView,
    offset: Option<int>,
)
    requires
        frame_topics(f) is Err,
        !(frame_message(f, offset) matches Ok(MessageView::DataMessage {
            topic,
            data: DataView::Event(e),
        }) && topics.contains(topic) && e.name == "echo"@),
    ensures
        mock_answer(topics, f, offset) == None::<MessageView>,
{
}

/// An event to be echoed comes back as it was sent.
pub proof fn echo_returns_event(
    topics: Seq<Seq<char>>,
    topic: Seq<char>,
    event: EventView,
    f: FrameView,
    offset: Option<int>,
)
    requires
        frame_message(f, offset) == Ok::<MessageView, DeserializationErrorView>(
            event_message(topic, event),
        ),
        event.name == "echo"@,
        topics.contains(topic),
    ensures
        mock_answer(topics, f, offset) == Some(event_message(topic, event)),
{
    let t = json_parsed(frame_bytes(f)->Some_0)->Ok_0;
    assert(t is Object);
    assert(topics_decoded(t) is Err);
}

/// What a connected client publishes to be echoed in a topic that it is subscribed to is
/// delivered back to it, with its points in time given in local time.
pub proof fn echo_is_delivered(
    client: SessionView,
    topics: Seq<Seq<char>>,
    topic: Seq<char>,
    event: EventView,
    sent: FrameView,
    answer: FrameView,
    offset: Option<int>,
)
    requires
        client.idle(),
        client.connected,
        topics.contains(topic),
        event.name == "echo"@,
        frame_message(sent, offset) == Ok::<MessageView, DeserializationErrorView>(
            event_message(topic, event),
        ),
        mock_answer(topics, sent, offset) matches Some(m) ==> frame_message(answer, offset) == Ok::<
            MessageView,
            DeserializationErrorView,
        >(localized_message(m, offset)),
    ensures
        client.on_incoming(IncomingView::Frame(answer), offset).1 == seq![
            ActionView::Deliver(topic, localized_event(event, offset)),
        ],
{
    echo_returns_event(topics, topic, event, sent, offset);
    client.events_are_delivered(topic, localized_event(event, offset));
}

} // verus!
