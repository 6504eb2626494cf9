//! Sans I/O-style protocol wrapper for the Zeek API.
//!
//! Instead of providing a full-fledged client [`Binding`] encapsulates the Zeek WebSocket
//! protocol sans I/O style. It provides the following methods:
//!
//! - [`Binding::handle_incoming`] injects data received over a network connection into the
//!   `Binding` object
//! - [`Binding::receive_event`] gets the next event received from Zeek
//! - [`Binding::publish_event`] to publish an event to Zeek
//! - [`Binding::outgoing`] gets the next data payload for sending to Zeek
//!
//! A full client implementation will typically implement some form of event loop.
use std::collections::VecDeque;

use vstd::prelude::*;
use vstd::std_specs::convert::FromSpecImpl;

use crate::frame::{
    carries_back, frame_message, localized_message, message_encoded, DeserializationError,
    DeserializationErrorView, Frame, FrameView,
};
use crate::json::{json_printed, JsonView};
use crate::message::{Data, DataView, Event, EventView, Message, MessageView};
use crate::scalar::{offset_fits, offset_view, UtcOffset};
use crate::sorted::views;
use crate::subscriptions::{frame_topics, topics_encoded, Subscriptions};
use crate::text::joined;
use crate::value::{Value, ValueView};
use crate::wire::{EncodeError, EncodeErrorView};

verus! {

/// The protocol was not followed, or Zeek reported an error.
#[derive(Debug, PartialEq)]
pub enum ProtocolError {
    AckExpected,
    AlreadySubscribed,
    ZeekError { code: String, context: String },
    UnexpectedEventPayload(Value),
    DeserializationError(DeserializationError),
}

/// A [`ProtocolError`] as mathematics has it.
pub enum ProtocolErrorView {
    AckExpected,
    AlreadySubscribed,
    ZeekError { code: Seq<char>, context: Seq<char> },
    UnexpectedEventPayload(ValueView),
    DeserializationError(DeserializationErrorView),
}

impl View for ProtocolError {
    type V = ProtocolErrorView;

    open spec fn view(&self) -> ProtocolErrorView {
        match self {
            ProtocolError::AckExpected => ProtocolErrorView::AckExpected,
            ProtocolError::AlreadySubscribed => ProtocolErrorView::AlreadySubscribed,
            ProtocolError::ZeekError { code, context } => ProtocolErrorView::ZeekError {
                code: code@,
                context: context@,
            },
            ProtocolError::UnexpectedEventPayload(v) => ProtocolErrorView::UnexpectedEventPayload(
                v@,
            ),
            ProtocolError::DeserializationError(e) => ProtocolErrorView::DeserializationError(e@),
        }
    }
}

impl ProtocolErrorView {
    pub open spec fn text(self) -> Seq<char> {
        match self {
            ProtocolErrorView::AckExpected => "received an ACK while already subscribed"@,
            ProtocolErrorView::AlreadySubscribed => "received an ACK while already subscribed"@,
            ProtocolErrorView::ZeekError { code, context } => "Zeek error "@ + code + (": "@
                + context + ""@),
            ProtocolErrorView::UnexpectedEventPayload(_) => "unexpected event payload received"@,
            ProtocolErrorView::DeserializationError(e) => "could not deserialize message: "@
                + e.text() + ""@,
        }
    }
}

impl ProtocolError {
    /// Describes the error.
    pub fn to_string(&self) -> (r: String)
        ensures
            r@ == self@.text(),
    {
        match self {
            ProtocolError::AckExpected => "received an ACK while already subscribed".to_owned(),
            ProtocolError::AlreadySubscribed =>
                "received an ACK while already subscribed".to_owned(),
            ProtocolError::ZeekError { code, context } => joined(
                "Zeek error ",
                code.as_str(),
                joined(": ", context.as_str(), "").as_str(),
            ),
            ProtocolError::UnexpectedEventPayload(_) =>
                "unexpected event payload received".to_owned(),
            ProtocolError::DeserializationError(e) => joined(
                "could not deserialize message: ",
                e.to_string().as_str(),
                "",
            ),
        }
    }
}

impl From<DeserializationError> for ProtocolError {
    fn from(value: DeserializationError) -> (r: ProtocolError) {
        ProtocolError::DeserializationError(value)
    }
}

impl FromSpecImpl<DeserializationError> for ProtocolError {
    open spec fn obeys_from_spec() -> bool {
        true
    }

    open spec fn from_spec(value: DeserializationError) -> ProtocolError {
        ProtocolError::DeserializationError(value)
    }
}

/// Messages received from Zeek, the oldest first.
#[derive(Debug)]
pub struct Inbox(VecDeque<Message>);

impl ProtocolError {
    /// An error is seen as the one that it is, with what it holds.
    pub proof fn errors_are_seen(self)
        ensures
            self@ is AckExpected <==> self is AckExpected,
            self@ is AlreadySubscribed <==> self is AlreadySubscribed,
            self matches ProtocolError::ZeekError { code, context } ==> self@ == (
            ProtocolErrorView::ZeekError { code: code@, context: context@ }),
            self matches ProtocolError::UnexpectedEventPayload(v) ==> self@
                == ProtocolErrorView::UnexpectedEventPayload(v@),
            self matches ProtocolError::DeserializationError(e) ==> self@
                == ProtocolErrorView::DeserializationError(e@),
    {
    }
}

impl View for Inbox {
    type V = Seq<MessageView>;

    closed spec fn view(&self) -> Seq<MessageView> {
        views(self.0@)
    }
}

/// The topic and event of a message that carries one.
pub open spec fn event_of_message(m: MessageView) -> Option<(Seq<char>, EventView)> {
    match m {
        MessageView::DataMessage { topic, data: DataView::Event(e) } => Some((topic, e)),
        _ => None,
    }
}

/// How many messages stand in front of the first that carries an event.
pub open spec fn before_event(s: Seq<MessageView>) -> int
    decreases s.len(),
{
    if s.len() == 0 || event_of_message(s[0]) is Some {
        0
    } else {
        1 + before_event(s.drop_first())
    }
}

/// The first event among the messages.
pub open spec fn first_event(s: Seq<MessageView>) -> Option<(Seq<char>, EventView)> {
    if 0 <= before_event(s) < s.len() {
        event_of_message(s[before_event(s)])
    } else {
        None
    }
}

/// The messages behind the first that carries an event.
pub open spec fn behind_event(s: Seq<MessageView>) -> Seq<MessageView> {
    if 0 <= before_event(s) < s.len() {
        s.skip(before_event(s) + 1)
    } else {
        Seq::empty()
    }
}

/// The events among the messages, in their order.
pub open spec fn events_of(s: Seq<MessageView>) -> Seq<(Seq<char>, EventView)>
    decreases s.len(),
{
    if s.len() == 0 {
        Seq::empty()
    } else {
        match event_of_message(s[0]) {
            Some(e) => seq![e] + events_of(s.drop_first()),
            None => events_of(s.drop_first()),
        }
    }
}

/// Taking out one event after the other gives all events, each once, in the order in which they
/// came in.
pub proof fn events_come_in_order(s: Seq<MessageView>)
    ensures
        match first_event(s) {
            Some(e) => events_of(s) == seq![e] + events_of(behind_event(s)),
            None => events_of(s) == Seq::<(Seq<char>, EventView)>::empty() && behind_event(s)
                == Seq::<MessageView>::empty(),
        },
    decreases s.len(),
{
    if s.len() > 0 {
        let rest = s.drop_first();
        lemma_before_event(rest);
        if event_of_message(s[0]) is Some {
            assert(s.skip(1) =~= rest);
        } else {
            events_come_in_order(rest);
            let n = before_event(rest);
            if n < rest.len() {
                assert(rest.skip(n + 1) =~= s.skip(n + 2));
            }
        }
    }
}

/// The first event is the one that no other stands in front of, and what is left are the messages
/// behind it; messages in front of it that carry no event are passed over.
pub proof fn first_event_is_found(
    front: Seq<MessageView>,
    topic: Seq<char>,
    event: EventView,
    behind: Seq<MessageView>,
)
    requires
        forall|i: int|
            0 <= i < front.len() ==> !((#[trigger] front[i]) matches MessageView::DataMessage {
                topic: t,
                data: DataView::Event(e),
            }),
    ensures
        ({
            let m = MessageView::DataMessage { topic, data: DataView::Event(event) };
            &&& first_event(front.push(m) + behind) == Some((topic, event))
            &&& behind_event(front.push(m) + behind) == behind
            &&& first_event(front) == None::<(Seq<char>, EventView)>
            &&& behind_event(front) == Seq::<MessageView>::empty()
            &&& events_of(front.push(m) + behind) == seq![(topic, event)] + events_of(behind)
        }),
    decreases front.len(),
{
    let m = MessageView::DataMessage { topic, data: DataView::Event(event) };
    let s = front.push(m) + behind;
    if front.len() > 0 {
        let rest = front.drop_first();
        assert forall|i: int| 0 <= i < rest.len() implies !((
        #[trigger] rest[i]) matches MessageView::DataMessage {
            topic: t,
            data: DataView::Event(e),
        }) by {
            assert(rest[i] == front[i + 1]);
        }
        first_event_is_found(rest, topic, event, behind);
        assert(s.drop_first() =~= rest.push(m) + behind);
        assert(s[0] == front[0]);
        lemma_before_event(rest);
        lemma_before_event(s.drop_first());
        let n = before_event(s.drop_first());
        assert(s.skip(n + 2) =~= s.drop_first().skip(n + 1));
    } else {
        assert(s[0] == m);
        assert(s.skip(1) =~= behind);
        assert(s.drop_first() =~= behind);
    }
}

proof fn lemma_before_event(s: Seq<MessageView>)
    ensures
        0 <= before_event(s) <= s.len(),
        before_event(s) < s.len() ==> event_of_message(s[before_event(s)]) is Some,
    decreases s.len(),
{
    if s.len() > 0 {
        lemma_before_event(s.drop_first());
    }
}

/// A topic and an event, where there are any.
pub open spec fn event_view(e: Option<(String, Event)>) -> Option<(Seq<char>, EventView)> {
    match e {
        Some((topic, event)) => Some((topic@, event@)),
        None => None,
    }
}

impl Inbox {
    pub fn new() -> (r: Inbox)
        ensures
            r@ == Seq::<MessageView>::empty(),
    {
        let r = Inbox(VecDeque::new());
        assert(r@ =~= Seq::<MessageView>::empty());
        r
    }

    /// Stores a message.
    pub fn handle(&mut self, message: Message)
        ensures
            final(self)@ == old(self)@.push(message@),
    {
        self.0.push_back(message);
        assert(self@ =~= old(self)@.push(message@));
    }

    /// Takes the oldest message out.
    pub fn next_message(&mut self) -> (r: Option<Message>)
        ensures
            match r {
                Some(m) => old(self)@.len() > 0 && m@ == old(self)@[0] && final(self)@
                    == old(self)@.drop_first(),
                None => old(self)@.len() == 0 && final(self)@ == old(self)@,
            },
    {
        let r = self.0.pop_front();
        proof {
            if r is Some {
                assert(self@ =~= old(self)@.drop_first());
            }
        }
        r
    }

    /// Takes the oldest event out; messages before it that carry none are dropped.
    pub fn next_event(&mut self) -> (r: Option<(String, Event)>)
        ensures
            event_view(r) == first_event(old(self)@),
            final(self)@ == behind_event(old(self)@),
    {
        let ghost all = self@;
        let ghost mut taken: int = 0;
        assert(all.skip(0) =~= all);
        loop
            invariant
                all == old(self)@,
                0 <= taken <= all.len(),
                self@ == all.skip(taken),
                before_event(all) == taken + before_event(all.skip(taken)),
            decreases self@.len(),
        {
            let ghost rest = self@;
            proof {
                assert(rest.len() > 0 ==> rest.drop_first() =~= all.skip(taken + 1));
                assert(rest.len() > 0 ==> rest[0] == all[taken]);
            }
            match self.next_message() {
                Some(Message::DataMessage { topic, data: Data::Event(event) }) => {
                    assert(event_of_message(rest[0]) is Some);
                    return Some((topic, event));
                },
                Some(_) => {
                    proof {
                        taken = taken + 1;
                    }
                },
                None => {
                    assert(self@ =~= Seq::empty());
                    return None;
                },
            }
        }
    }
}

/// Messages to be sent to Zeek, the oldest first.
#[derive(Debug)]
pub struct Outbox(VecDeque<Frame>);

impl View for Outbox {
    type V = Seq<FrameView>;

    closed spec fn view(&self) -> Seq<FrameView> {
        views(self.0@)
    }
}

/// The message that carries an event for a topic.
pub open spec fn event_message(topic: Seq<char>, event: EventView) -> MessageView {
    MessageView::DataMessage { topic, data: DataView::Event(event) }
}

/// What sending a message leaves to be sent: the JSON text of the message behind what was there,
/// or only what was there, where the message cannot be written.
pub open spec fn enqueued(
    before: Seq<FrameView>,
    m: MessageView,
    offset: Option<int>,
    after: Seq<FrameView>,
    r: Result<(), EncodeErrorView>,
) -> bool {
    match message_encoded(m, offset) {
        Ok(t) => r is Ok && after == before.push(FrameView::Text(json_printed(t))),
        Err(e) => r == Err::<(), EncodeErrorView>(e) && after == before,
    }
}

/// What sending a message leaves to be sent, whatever the system's offset from UTC is. Whoever
/// receives what is sent reads the message, with its points in time given in local time, unless
/// it cannot be written in full.
pub open spec fn enqueued_now(
    before: Seq<FrameView>,
    m: MessageView,
    after: Seq<FrameView>,
    r: Result<(), EncodeErrorView>,
) -> bool {
    exists|offset: Option<int>| #[trigger]
        enqueued(before, m, offset, after, r) && (offset is Some ==> offset_fits(offset->Some_0))
            && (r is Ok && carries_back(m, offset) ==> frame_message(
            FrameView::Binary(after.last().data()),
            offset,
        ) == Ok::<MessageView, DeserializationErrorView>(localized_message(m, offset)))
}

/// The outcome of writing a message.
pub open spec fn outcome(r: Result<(), EncodeError>) -> Result<(), EncodeErrorView> {
    match r {
        Ok(()) => Ok(()),
        Err(e) => Err(e@),
    }
}

/// Sending a message either puts one text behind what waited, which whoever receives it reads as
/// the message in some local time, or leaves what waited as it was and says why.
pub proof fn sending_adds_one(
    before: Seq<FrameView>,
    m: MessageView,
    after: Seq<FrameView>,
    r: Result<(), EncodeErrorView>,
)
    requires
        enqueued_now(before, m, after, r),
    ensures
        r is Ok ==> after.len() == before.len() + 1 && after.drop_last() == before
            && after.last() is Text,
        r is Ok && (forall|offset: Option<int>| #[trigger] carries_back(m, offset)) ==> exists|
            offset: Option<int>,
        | #[trigger]
            frame_message(FrameView::Binary(after.last().data()), offset) == Ok::<
                MessageView,
                DeserializationErrorView,
            >(localized_message(m, offset)) && (offset matches Some(n) ==> -26 * 3_600 < n < 26
                * 3_600),
        r is Err ==> after == before,
        r matches Err(e) ==> exists|offset: Option<int>| #[trigger]
            message_encoded(m, offset) == Err::<JsonView, EncodeErrorView>(e) && (offset matches Some(
                n,
            ) ==> -26 * 3_600 < n < 26 * 3_600),
{
    let offset = choose|offset: Option<int>| #[trigger]
        enqueued(before, m, offset, after, r) && (offset is Some ==> offset_fits(offset->Some_0))
            && (r is Ok && carries_back(m, offset) ==> frame_message(
            FrameView::Binary(after.last().data()),
            offset,
        ) == Ok::<MessageView, DeserializationErrorView>(localized_message(m, offset)));
    assert(enqueued(before, m, offset, after, r));
    if r is Ok {
        assert(after.drop_last() =~= before);
    }
    if r is Ok && (forall|offset: Option<int>| #[trigger] carries_back(m, offset)) {
        assert(carries_back(m, offset));
        assert(frame_message(FrameView::Binary(after.last().data()), offset) == Ok::<
            MessageView,
            DeserializationErrorView,
        >(localized_message(m, offset)));
    }
}

/// The outcome of writing a message is what the writer says.
pub proof fn outcomes_are_kept(e: EncodeError)
    ensures
        outcome(Ok(())) == Ok::<(), EncodeErrorView>(()),
        outcome(Err(e)) == Err::<(), EncodeErrorView>(e@),
{
}

impl Outbox {
    pub fn new() -> (r: Outbox)
        ensures
            r@ == Seq::<FrameView>::empty(),
    {
        let r = Outbox(VecDeque::new());
        assert(r@ =~= Seq::<FrameView>::empty());
        r
    }

    /// Takes the bytes of the oldest message out.
    pub fn next_data(&mut self) -> (r: Option<Vec<u8>>)
        ensures
            match r {
                Some(data) => old(self)@.len() > 0 && data@ == old(self)@[0].data() && final(self)@
                    == old(self)@.drop_first(),
                None => old(self)@.len() == 0 && final(self)@ == old(self)@,
            },
    {
        match self.0.pop_front() {
            Some(frame) => {
                assert(self@ =~= old(self)@.drop_first());
                Some(frame.into_data())
            },
            None => None,
        }
    }

    /// Stores a WebSocket message for sending.
    pub fn enqueue(&mut self, frame: Frame)
        ensures
            final(self)@ == old(self)@.push(frame@),
    {
        self.0.push_back(frame);
        assert(self@ =~= old(self)@.push(frame@));
    }

    /// Stores a message for sending, with points in time in local time. Whoever receives what is
    /// sent reads the message, with its points in time given in local time, unless it cannot be
    /// written in full.
    pub fn enqueue_message(&mut self, message: &Message, offset: Option<UtcOffset>) -> (r: Result<
        (),
        EncodeError,
    >)
        ensures
            enqueued(old(self)@, message@, offset_view(offset), final(self)@, outcome(r)),
            r is Ok && carries_back(message@, offset_view(offset)) ==> frame_message(
                FrameView::Binary(final(self)@.last().data()),
                offset_view(offset),
            ) == Ok::<MessageView, DeserializationErrorView>(
                localized_message(message@, offset_view(offset)),
            ),
    {
        match message.to_frame(offset) {
            Ok(frame) => {
                proof {
                    data_reads_as_text(frame@->Text_0, offset_view(offset));
                }
                self.enqueue(frame);
                Ok(())
            },
            Err(e) => Err(e),
        }
    }

    /// Stores an event for sending, with points in time in the system's local time. How far that
    /// is from UTC depends on the machine.
    pub fn enqueue_event<S: Into<String>>(&mut self, topic: S, event: Event) -> (r: Result<
        (),
        EncodeError,
    >)
        ensures
            exists|t: String|
                #![trigger t@]
                call_ensures(S::into, (topic,), t) && enqueued_now(
                    old(self)@,
                    event_message(t@, event@),
                    final(self)@,
                    outcome(r),
                ),
    {
        let offset = UtcOffset::current();
        let topic: String = topic.into();
        let message = Message::DataMessage { topic, data: Data::Event(event) };
        let r = self.enqueue_message(&message, offset);
        assert(enqueued(
            old(self)@,
            event_message(topic@, event@),
            offset_view(offset),
            self@,
            outcome(r),
        ));
        r
    }
}

/// The bytes of a text message are read as the text is.
pub proof fn data_reads_as_text(s: Seq<char>, offset: Option<int>)
    ensures
        frame_message(FrameView::Binary(FrameView::Text(s).data()), offset) == frame_message(
            FrameView::Text(s),
            offset,
        ),
        frame_topics(FrameView::Binary(FrameView::Text(s).data())) == frame_topics(
            FrameView::Text(s),
        ),
{
}

/// A binding as mathematics has it.
pub struct BindingView {
    /// Whether Zeek has acknowledged the subscription.
    pub subscribed: bool,
    pub inbox: Seq<MessageView>,
    pub outbox: Seq<FrameView>,
}

/// Something that a binding hands out: an event or an error.
pub open spec fn deliverable(m: MessageView) -> bool {
    match m {
        MessageView::DataMessage { topic, data } => data is Event,
        MessageView::Error { .. } => true,
        MessageView::Ack { .. } => false,
    }
}

/// What is handed out for a message.
pub open spec fn delivery(m: MessageView) -> Result<
    Option<(Seq<char>, EventView)>,
    ProtocolErrorView,
> {
    match m {
        MessageView::DataMessage { topic, data: DataView::Event(e) } => Ok(Some((topic, e))),
        MessageView::Error { code, context } => Err(
            ProtocolErrorView::ZeekError { code, context },
        ),
        _ => Ok(None),
    }
}

/// An event is handed out with its topic, and an error as the error that Zeek reported, with its
/// code and its context; nothing else is handed out.
pub proof fn what_is_handed_out(a: Seq<char>, b: Seq<char>, e: EventView, v: ValueView)
    ensures
        delivery(MessageView::DataMessage { topic: a, data: DataView::Event(e) }) == Ok::<
            Option<(Seq<char>, EventView)>,
            ProtocolErrorView,
        >(Some((a, e))),
        delivery(MessageView::Error { code: a, context: b }) == Err::<
            Option<(Seq<char>, EventView)>,
            ProtocolErrorView,
        >(ProtocolErrorView::ZeekError { code: a, context: b }),
        deliverable(MessageView::DataMessage { topic: a, data: DataView::Event(e) }),
        deliverable(MessageView::Error { code: a, context: b }),
        !deliverable(MessageView::Ack { endpoint: a, version: b }),
        !deliverable(MessageView::DataMessage { topic: a, data: DataView::Other(v) }),
        event_message(a, e) == (MessageView::DataMessage { topic: a, data: DataView::Event(e) }),
{
}

/// What a reader is told of an error.
pub proof fn errors_are_described(
    a: Seq<char>,
    b: Seq<char>,
    v: ValueView,
    e: DeserializationErrorView,
)
    ensures
        ProtocolErrorView::AckExpected.text() == "received an ACK while already subscribed"@,
        ProtocolErrorView::AlreadySubscribed.text() == "received an ACK while already subscribed"@,
        (ProtocolErrorView::ZeekError { code: a, context: b }).text() == "Zeek error "@ + a + ": "@
            + b,
        ProtocolErrorView::UnexpectedEventPayload(v).text() == "unexpected event payload received"@,
        ProtocolErrorView::DeserializationError(e).text() == "could not deserialize message: "@
            + e.text(),
{
    reveal_strlit("");
    assert("Zeek error "@ + a + (": "@ + b + ""@) =~= "Zeek error "@ + a + ": "@ + b);
    assert("could not deserialize message: "@ + e.text() + ""@
        =~= "could not deserialize message: "@ + e.text());
}

/// What is sent goes behind what waits, as the text of its JSON; where it cannot be written, what
/// waits stays as it is and the reason is told.
pub proof fn sending_goes_behind(
    before: Seq<FrameView>,
    m: MessageView,
    offset: Option<int>,
    after: Seq<FrameView>,
    r: Result<(), EncodeErrorView>,
)
    requires
        enqueued(before, m, offset, after, r),
    ensures
        r is Ok <==> message_encoded(m, offset) is Ok,
        message_encoded(m, offset) matches Ok(t) ==> after.len() == before.len() + 1 && after.take(
            before.len() as int,
        ) == before && after.last() == FrameView::Text(json_printed(t)),
        message_encoded(m, offset) matches Err(e) ==> after == before && r == Err::<
            (),
            EncodeErrorView,
        >(e),
{
    if message_encoded(m, offset) is Ok {
        assert(after.take(before.len() as int) =~= before);
    }
}

impl BindingView {
    /// Every message that is kept is to be handed out.
    pub open spec fn valid(self) -> bool {
        forall|i: int| 0 <= i < self.inbox.len() ==> deliverable(#[trigger] self.inbox[i])
    }

    /// Why an incoming message is refused, where it is.
    pub open spec fn refusal(self, m: MessageView) -> Option<ProtocolErrorView> {
        match m {
            MessageView::Ack { .. } => if self.subscribed {
                Some(ProtocolErrorView::AlreadySubscribed)
            } else {
                None
            },
            MessageView::DataMessage { topic, data: DataView::Other(v) } => Some(
                ProtocolErrorView::UnexpectedEventPayload(v),
            ),
            _ => None,
        }
    }

    /// The state after an incoming message: an ACK completes the subscription, events and errors
    /// are kept, and what is refused changes nothing.
    pub open spec fn after(self, m: MessageView) -> BindingView {
        if self.refusal(m) is Some {
            self
        } else if m is Ack {
            BindingView { subscribed: true, ..self }
        } else {
            BindingView { inbox: self.inbox.push(m), ..self }
        }
    }

    /// The state after several incoming messages.
    pub open spec fn after_all(self, ms: Seq<MessageView>) -> BindingView
        decreases ms.len(),
    {
        if ms.len() == 0 {
            self
        } else {
            self.after_all(ms.drop_last()).after(ms.last())
        }
    }

    /// A refused message leaves the binding as it was, and no message touches what is to be sent.
    pub proof fn refusal_changes_nothing(self, m: MessageView)
        ensures
            self.refusal(m) is Some ==> self.after(m) == self,
            self.after(m).outbox == self.outbox,
    {
    }

    /// An ACK is refused where one came before, and so is a payload that is no event, which is handed
    /// back; nothing else is refused.
    pub proof fn refusals_are_told(self, a: Seq<char>, b: Seq<char>, v: ValueView, e: EventView)
        ensures
            self.refusal(MessageView::Ack { endpoint: a, version: b }) == if self.subscribed {
                Some(ProtocolErrorView::AlreadySubscribed)
            } else {
                None
            },
            self.refusal(MessageView::DataMessage { topic: a, data: DataView::Other(v) }) == Some(
                ProtocolErrorView::UnexpectedEventPayload(v),
            ),
            self.refusal(MessageView::DataMessage { topic: a, data: DataView::Event(e) }) == None::<
                ProtocolErrorView,
            >,
            self.refusal(MessageView::Error { code: a, context: b }) == None::<ProtocolErrorView>,
    {
    }

    /// The first ACK completes the subscription and nothing else does; events and errors are kept
    /// behind what is there, whether or not the subscription is complete.
    pub proof fn messages_are_kept(self, a: Seq<char>, b: Seq<char>, v: ValueView, e: EventView)
        ensures
            self.after(MessageView::Ack { endpoint: a, version: b }) == (BindingView {
                subscribed: true,
                inbox: self.inbox,
                outbox: self.outbox,
            }),
            self.after(MessageView::DataMessage { topic: a, data: DataView::Event(e) }) == (
            BindingView {
                subscribed: self.subscribed,
                inbox: self.inbox.push(
                    MessageView::DataMessage { topic: a, data: DataView::Event(e) },
                ),
                outbox: self.outbox,
            }),
            self.after(MessageView::Error { code: a, context: b }) == (BindingView {
                subscribed: self.subscribed,
                inbox: self.inbox.push(MessageView::Error { code: a, context: b }),
                outbox: self.outbox,
            }),
            self.after(MessageView::DataMessage { topic: a, data: DataView::Other(v) }) == self,
    {
    }

    /// Taking something out takes the oldest out and leaves the rest as it is.
    pub proof fn oldest_first(self)
        ensures
            self.inbox.len() > 0 ==> self.step(BindingStep::Receive) == (BindingView {
                subscribed: self.subscribed,
                inbox: self.inbox.skip(1),
                outbox: self.outbox,
            }),
            self.inbox.len() == 0 ==> self.step(BindingStep::Receive) == self,
            self.outbox.len() > 0 ==> self.step(BindingStep::Outgoing) == (BindingView {
                subscribed: self.subscribed,
                inbox: self.inbox,
                outbox: self.outbox.skip(1),
            }) && self.next_data() == Some(self.outbox[0].data()),
            self.outbox.len() == 0 ==> self.step(BindingStep::Outgoing) == self
                && self.next_data() == None::<Seq<u8>>,
            forall|m: MessageView| #[trigger] self.step(BindingStep::Handle(m)) == self.after(m),
    {
        if self.inbox.len() > 0 {
            assert(self.inbox.drop_first() =~= self.inbox.skip(1));
        }
        if self.outbox.len() > 0 {
            assert(self.outbox.drop_first() =~= self.outbox.skip(1));
        }
    }

    /// Only messages that are to be handed out are ever kept.
    pub proof fn after_all_valid(self, ms: Seq<MessageView>)
        requires
            self.valid(),
        ensures
            self.after_all(ms).valid(),
        decreases ms.len(),
    {
        if ms.len() > 0 {
            self.after_all_valid(ms.drop_last());
        }
    }

    /// Whatever comes in, the first ACK completes the subscription for good, and every later one
    /// is refused.
    pub proof fn subscription_lasts(
        self,
        ms: Seq<MessageView>,
        endpoint: Seq<char>,
        version: Seq<char>,
    )
        requires
            self.subscribed,
        ensures
            self.after_all(ms).subscribed,
            self.after_all(ms).refusal(MessageView::Ack { endpoint, version }) == Some(
                ProtocolErrorView::AlreadySubscribed,
            ),
        decreases ms.len(),
    {
        if ms.len() > 0 {
            self.subscription_lasts(ms.drop_last(), endpoint, version);
        }
    }

    /// Events and errors are handed out in the order in which they came in, and none is lost.
    pub proof fn kept_in_order(self, ms: Seq<MessageView>)
        ensures
            self.after_all(ms).inbox == self.inbox + ms.filter(|m: MessageView| deliverable(m)),
        decreases ms.len(),
    {
        let keep = |m: MessageView| deliverable(m);
        if ms.len() > 0 {
            let front = ms.drop_last();
            self.kept_in_order(front);
            reveal(Seq::filter);
            assert(ms.filter(keep) == if keep(ms.last()) {
                front.filter(keep).push(ms.last())
            } else {
                front.filter(keep)
            });
            assert(self.after_all(ms).inbox =~= self.inbox + ms.filter(keep));
        } else {
            reveal(Seq::filter);
            assert(self.after_all(ms).inbox =~= self.inbox + ms.filter(keep));
        }
    }
}

/// Something that is done with a binding.
pub enum BindingStep {
    /// A message comes in.
    Handle(MessageView),
    /// The next event or error is taken out.
    Receive,
    /// An event is published, where local time is so many seconds ahead of UTC.
    Publish { topic: Seq<char>, event: EventView, offset: Option<int> },
    /// The next data to be sent is taken out.
    Outgoing,
}

/// The bytes of several WebSocket messages.
pub open spec fn frames_data(s: Seq<FrameView>) -> Seq<Seq<u8>> {
    Seq::new(s.len(), |i: int| s[i].data())
}

/// What publishing leaves to be sent behind everything else: the message of an event that can be
/// written.
pub open spec fn published(step: BindingStep) -> Seq<FrameView> {
    match step {
        BindingStep::Publish { topic, event, offset } => match message_encoded(
            event_message(topic, event),
            offset,
        ) {
            Ok(t) => seq![FrameView::Text(json_printed(t))],
            Err(_) => Seq::empty(),
        },
        _ => Seq::empty(),
    }
}

/// What is published in several steps, in their order.
pub open spec fn all_published(steps: Seq<BindingStep>) -> Seq<FrameView>
    decreases steps.len(),
{
    if steps.len() == 0 {
        Seq::empty()
    } else {
        all_published(steps.drop_last()) + published(steps.last())
    }
}

impl BindingView {
    /// A binding that is about to subscribe to these topics.
    pub open spec fn fresh(topics: Seq<Seq<char>>) -> BindingView {
        BindingView {
            subscribed: false,
            inbox: Seq::empty(),
            outbox: seq![FrameView::Text(json_printed(topics_encoded(topics)))],
        }
    }

    /// The next data to be sent, where anything waits.
    pub open spec fn next_data(self) -> Option<Seq<u8>> {
        if self.outbox.len() == 0 {
            None
        } else {
            Some(self.outbox[0].data())
        }
    }

    /// The binding without the next event or error.
    pub open spec fn received(self) -> BindingView {
        if self.inbox.len() == 0 {
            self
        } else {
            BindingView { inbox: self.inbox.drop_first(), ..self }
        }
    }

    /// The binding without the next data to be sent.
    pub open spec fn sent(self) -> BindingView {
        if self.outbox.len() == 0 {
            self
        } else {
            BindingView { outbox: self.outbox.drop_first(), ..self }
        }
    }

    /// The binding after a step.
    pub open spec fn step(self, step: BindingStep) -> BindingView {
        match step {
            BindingStep::Handle(m) => self.after(m),
            BindingStep::Receive => self.received(),
            BindingStep::Publish { .. } => BindingView {
                outbox: self.outbox + published(step),
                ..self
            },
            BindingStep::Outgoing => self.sent(),
        }
    }

    /// The binding after several steps.
    pub open spec fn steps(self, steps: Seq<BindingStep>) -> BindingView
        decreases steps.len(),
    {
        if steps.len() == 0 {
            self
        } else {
            self.steps(steps.drop_last()).step(steps.last())
        }
    }

    /// The data that is taken out for sending in several steps, in its order.
    pub open spec fn taken_out(self, steps: Seq<BindingStep>) -> Seq<Seq<u8>>
        decreases steps.len(),
    {
        if steps.len() == 0 {
            Seq::empty()
        } else {
            let before = self.taken_out(steps.drop_last());
            match (steps.last(), self.steps(steps.drop_last()).next_data()) {
                (BindingStep::Outgoing, Some(data)) => before.push(data),
                _ => before,
            }
        }
    }

    /// A binding that is about to subscribe has only its topics to send, as the text of an array.
    pub proof fn starts_with_topics(topics: Seq<Seq<char>>)
        ensures
            !BindingView::fresh(topics).subscribed,
            BindingView::fresh(topics).inbox == Seq::<MessageView>::empty(),
            BindingView::fresh(topics).outbox.len() == 1,
            BindingView::fresh(topics).outbox[0] == FrameView::Text(
                json_printed(
                    JsonView::Array(topics.map_values(|s: Seq<char>| JsonView::Text(s))),
                ),
            ),
    {
        assert(topics_encoded(topics)->Array_0 =~= topics.map_values(
            |s: Seq<char>| JsonView::Text(s),
        ));
    }

    /// Publishing an event leaves one message behind everything else, and no other step does.
    pub proof fn publishing_adds_one(
        self,
        topic: Seq<char>,
        event: EventView,
        offset: Option<int>,
        t: JsonView,
    )
        requires
            message_encoded(
                MessageView::DataMessage { topic, data: DataView::Event(event) },
                offset,
            ) == Ok::<JsonView, EncodeErrorView>(t),
        ensures
            self.step(BindingStep::Publish { topic, event, offset }) == (BindingView {
                subscribed: self.subscribed,
                inbox: self.inbox,
                outbox: self.outbox.push(FrameView::Text(json_printed(t))),
            }),
            published(BindingStep::Receive) == Seq::<FrameView>::empty(),
            published(BindingStep::Outgoing) == Seq::<FrameView>::empty(),
            forall|m: MessageView| #[trigger]
                published(BindingStep::Handle(m)) == Seq::<FrameView>::empty(),
    {
        assert(self.outbox + seq![FrameView::Text(json_printed(t))] =~= self.outbox.push(
            FrameView::Text(json_printed(t)),
        ));
    }

    /// Publishing an event is a step: what can be written waits behind everything else, and what
    /// cannot leaves the binding as it was.
    pub proof fn publishing_is_a_step(
        self,
        topic: Seq<char>,
        event: EventView,
        offset: Option<int>,
        after: Seq<FrameView>,
        r: Result<(), EncodeErrorView>,
    )
        requires
            enqueued(self.outbox, event_message(topic, event), offset, after, r),
        ensures
            (BindingView { outbox: after, ..self }) == self.step(
                BindingStep::Publish { topic, event, offset },
            ),
    {
        assert(after =~= self.outbox + published(BindingStep::Publish { topic, event, offset }));
    }

    /// Whatever is done with a binding, what was taken out for sending and what still waits are
    /// together what waited at first and what was published, each once and in this order.
    pub proof fn kept_for_sending(self, steps: Seq<BindingStep>)
        ensures
            self.taken_out(steps) + frames_data(self.steps(steps).outbox) == frames_data(
                self.outbox + all_published(steps),
            ),
        decreases steps.len(),
    {
        let all = self.outbox + all_published(steps);
        let out = self.taken_out(steps);
        let rest = frames_data(self.steps(steps).outbox);
        if steps.len() > 0 {
            let front = steps.drop_last();
            let before = self.steps(front);
            self.kept_for_sending(front);
            let known = self.outbox + all_published(front);
            let taken = self.taken_out(front);
            match steps.last() {
                BindingStep::Outgoing => {
                    if before.outbox.len() > 0 {
                        assert(frames_data(before.outbox) =~= seq![before.outbox[0].data()]
                            + frames_data(before.outbox.drop_first()));
                    }
                    assert(all =~= known);
                    assert(out + rest =~= taken + frames_data(before.outbox));
                },
                BindingStep::Publish { .. } => {
                    let p = published(steps.last());
                    assert(all =~= known + p);
                    assert(frames_data(known + p) =~= frames_data(known) + frames_data(p));
                    assert(frames_data(before.outbox + p) =~= frames_data(before.outbox)
                        + frames_data(p));
                    assert(out + rest =~= taken + frames_data(before.outbox) + frames_data(p));
                },
                BindingStep::Handle(m) => {
                    before.refusal_changes_nothing(m);
                    assert(all =~= known);
                },
                BindingStep::Receive => {
                    assert(all =~= known);
                },
            }
        } else {
            assert(all =~= self.outbox);
            assert(out + rest =~= rest);
        }
    }

    /// Of a binding that was made for topics, the topics are taken out for sending first, then
    /// each published event, each once and in the order in which they were published; nothing is
    /// left to be taken out exactly if all of it was.
    pub proof fn sent_in_order(topics: Seq<Seq<char>>, steps: Seq<BindingStep>)
        ensures
            ({
                let all = frames_data(
                    seq![FrameView::Text(json_printed(topics_encoded(topics)))] + all_published(
                        steps,
                    ),
                );
                let out = BindingView::fresh(topics).taken_out(steps);
                &&& out.len() <= all.len()
                &&& out == all.take(out.len() as int)
                &&& BindingView::fresh(topics).steps(steps).next_data() == if out.len()
                    < all.len() {
                    Some(all[out.len() as int])
                } else {
                    None
                }
                &&& BindingView::fresh(topics).steps(steps).next_data() is None <==> out == all
            }),
    {
        let start = BindingView::fresh(topics);
        start.kept_for_sending(steps);
        let all = frames_data(start.outbox + all_published(steps));
        let out = start.taken_out(steps);
        let end = start.steps(steps);
        assert(all == out + frames_data(end.outbox));
        assert(out =~= all.take(out.len() as int));
        if end.outbox.len() > 0 {
            assert(all[out.len() as int] == frames_data(end.outbox)[0]);
        } else {
            assert(out =~= all);
        }
    }
}

/// State of a client of the Zeek API: what was received but not handed out, and what is to be
/// sent.
#[derive(Debug)]
pub struct Binding {
    state: State,
    inbox: Inbox,
    outbox: Outbox,
}

#[derive(Debug, Clone, Copy, PartialEq, Eq, Structural)]
enum State {
    Subscribing,
    Subscribed,
}

impl View for Binding {
    type V = BindingView;

    closed spec fn view(&self) -> BindingView {
        BindingView {
            subscribed: self.state == State::Subscribed,
            inbox: self.inbox@,
            outbox: self.outbox@,
        }
    }
}

/// A refusal, where there is one.
pub open spec fn refused(r: Result<(), ProtocolError>) -> Option<ProtocolErrorView> {
    match r {
        Ok(()) => None,
        Err(e) => Some(e@),
    }
}

/// What was handed out.
pub open spec fn delivered(r: Result<Option<(String, Event)>, ProtocolError>) -> Result<
    Option<(Seq<char>, EventView)>,
    ProtocolErrorView,
> {
    match r {
        Ok(e) => Ok(event_view(e)),
        Err(e) => Err(e@),
    }
}

impl Binding {
    #[verifier::type_invariant]
    spec fn valid(self) -> bool {
        self@.valid()
    }

    fn take_inbox(&mut self) -> (r: Inbox)
        ensures
            r@ == old(self)@.inbox,
            final(self)@ == (BindingView { inbox: Seq::empty(), ..old(self)@ }),
    {
        proof {
            use_type_invariant(&*self);
        }
        let mut inbox = Inbox::new();
        std::mem::swap(&mut self.inbox, &mut inbox);
        inbox
    }

    fn take_outbox(&mut self) -> (r: Outbox)
        ensures
            r@ == old(self)@.outbox,
            final(self)@ == (BindingView { outbox: Seq::empty(), ..old(self)@ }),
            final(self)@.valid(),
    {
        proof {
            use_type_invariant(&*self);
        }
        let mut outbox = Outbox::new();
        std::mem::swap(&mut self.outbox, &mut outbox);
        outbox
    }

    /// A binding that is about to subscribe: the topics are the first thing to be sent.
    pub fn new<S: Into<Subscriptions>>(subscriptions: S) -> (r: Binding)
        ensures
            !r@.subscribed,
            r@.inbox == Seq::<MessageView>::empty(),
            exists|s: Subscriptions|
                #![trigger s@]
                call_ensures(S::into, (subscriptions,), s) && r@ == BindingView::fresh(s@)
                    && frame_topics(FrameView::Binary(r@.outbox[0].data())) == Ok::<
                    Seq<Seq<char>>,
                    DeserializationErrorView,
                >(s@),
    {
        let subscriptions: Subscriptions = subscriptions.into();
        Binding::subscribing(&subscriptions)
    }

    /// A binding that is about to subscribe to these topics.
    pub fn subscribing(subscriptions: &Subscriptions) -> (r: Binding)
        ensures
            r@ == BindingView::fresh(subscriptions@),
            frame_topics(FrameView::Binary(r@.outbox[0].data())) == Ok::<
                Seq<Seq<char>>,
                DeserializationErrorView,
            >(subscriptions@),
    {
        let frame = subscriptions.to_frame();
        let ghost f = frame@;
        proof {
            data_reads_as_text(f->Text_0, None);
        }
        let mut outbox = Outbox::new();
        outbox.enqueue(frame);
        assert(outbox@ =~= seq![f]);
        let r = Binding { state: State::Subscribing, inbox: Inbox::new(), outbox };
        assert(r@.outbox[0] == f);
        r
    }

    /// Handles a message received from Zeek.
    pub fn handle_incoming(&mut self, message: Message) -> (r: Result<(), ProtocolError>)
        ensures
            final(self)@ == old(self)@.step(BindingStep::Handle(message@)),
            refused(r) == old(self)@.refusal(message@),
    {
        proof {
            use_type_invariant(&*self);
        }
        match &message {
            Message::Ack { endpoint: _, version: _ } => match self.state {
                State::Subscribing => {
                    self.state = State::Subscribed;
                    Ok(())
                },
                State::Subscribed => Err(ProtocolError::AlreadySubscribed),
            },
            Message::DataMessage { topic: _, data: Data::Other(unexpected) } => Err(
                ProtocolError::UnexpectedEventPayload(unexpected.clone()),
            ),
            _ => {
                let mut inbox = self.take_inbox();
                inbox.handle(message);
                self.inbox = inbox;
                Ok(())
            },
        }
    }

    /// Takes out the next data to be sent.
    pub fn outgoing(&mut self) -> (r: Option<Vec<u8>>)
        ensures
            match r {
                Some(data) => old(self)@.next_data() == Some(data@),
                None => old(self)@.next_data() is None,
            },
            final(self)@ == old(self)@.step(BindingStep::Outgoing),
    {
        proof {
            use_type_invariant(&*self);
        }
        let mut outbox = self.take_outbox();
        let r = outbox.next_data();
        self.outbox = outbox;
        r
    }

    /// Takes out the next event, or the next error that Zeek reported.
    pub fn receive_event(&mut self) -> (r: Result<Option<(String, Event)>, ProtocolError>)
        ensures
            if old(self)@.inbox.len() == 0 {
                delivered(r) == Ok::<Option<(Seq<char>, EventView)>, ProtocolErrorView>(None)
            } else {
                delivered(r) == delivery(old(self)@.inbox[0]) && !(r matches Ok(None))
            },
            final(self)@ == old(self)@.step(BindingStep::Receive),
    {
        proof {
            use_type_invariant(&*self);
            assert(self@.inbox.len() > 0 ==> deliverable(self@.inbox[0]));
        }
        let mut inbox = self.take_inbox();
        let next = inbox.next_message();
        self.inbox = inbox;
        match next {
            Some(Message::DataMessage { topic, data: Data::Event(event) }) => Ok(
                Some((topic, event)),
            ),
            Some(Message::Error { code, context }) => Err(
                ProtocolError::ZeekError { code, context },
            ),
            _ => Ok(None),
        }
    }

    /// Takes out the next message that was received.
    pub fn next_message(&mut self) -> (r: Option<Message>)
        ensures
            match r {
                Some(m) => old(self)@.inbox.len() > 0 && m@ == old(self)@.inbox[0] && final(self)@
                    == (BindingView { inbox: old(self)@.inbox.drop_first(), ..old(self)@ }),
                None => old(self)@.inbox.len() == 0 && final(self)@ == old(self)@,
            },
    {
        proof {
            use_type_invariant(&*self);
        }
        let mut inbox = self.take_inbox();
        let r = inbox.next_message();
        self.inbox = inbox;
        r
    }

    /// Stores a message for sending, with points in time in local time. Whoever receives what is
    /// sent reads the message, with its points in time given in local time, unless it cannot be
    /// written in full.
    pub fn enqueue(&mut self, message: &Message, offset: Option<UtcOffset>) -> (r: Result<
        (),
        EncodeError,
    >)
        ensures
            enqueued(
                old(self)@.outbox,
                message@,
                offset_view(offset),
                final(self)@.outbox,
                outcome(r),
            ),
            final(self)@ == (BindingView { outbox: final(self)@.outbox, ..old(self)@ }),
            r is Ok && carries_back(message@, offset_view(offset)) ==> frame_message(
                FrameView::Binary(final(self)@.outbox.last().data()),
                offset_view(offset),
            ) == Ok::<MessageView, DeserializationErrorView>(
                localized_message(message@, offset_view(offset)),
            ),
    {
        proof {
            use_type_invariant(&*self);
        }
        let mut outbox = self.take_outbox();
        let r = outbox.enqueue_message(message, offset);
        self.outbox = outbox;
        r
    }

    /// Stores an event for sending, with points in time in the system's local time. How far that
    /// is from UTC depends on the machine.
    pub fn publish_event<S: Into<String>>(&mut self, topic: S, event: Event) -> (r: Result<
        (),
        EncodeError,
    >)
        ensures
            final(self)@ == (BindingView { outbox: final(self)@.outbox, ..old(self)@ }),
            exists|t: String|
                #![trigger t@]
                call_ensures(S::into, (topic,), t) && enqueued_now(
                    old(self)@.outbox,
                    event_message(t@, event@),
                    final(self)@.outbox,
                    outcome(r),
                ),
    {
        proof {
            use_type_invariant(&*self);
        }
        let mut outbox = self.take_outbox();
        let r = outbox.enqueue_event(topic, event);
        self.outbox = outbox;
        r
    }

    /// The two halves of the binding.
    pub fn split(self) -> (r: (Inbox, Outbox))
        ensures
            r.0@ == self@.inbox,
            r.1@ == self@.outbox,
    {
        (self.inbox, self.outbox)
    }
}

} // verus!
