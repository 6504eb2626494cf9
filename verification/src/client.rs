//! What a client does with what it receives: the decisions of an event loop, without the loop.
//!
//! A [`Session`] is told what came in from the server or from the application, and answers with
//! the [`Action`]s that whoever owns the connection has to perform, in their order.
use vstd::prelude::*;
use vstd::std_specs::convert::FromSpecImpl;

use crate::frame::{
    carries_back, frame_message, localized_message, message_encoded, DeserializationError,
    DeserializationErrorView, Frame, FrameView,
};
use crate::json::json_printed;
use crate::message::{Data, DataView, Event, EventView, Message, MessageView};
use crate::protocol::{
    delivery, event_message, Binding, BindingView, ProtocolError, ProtocolErrorView,
};
use crate::scalar::{offset_view, UtcOffset};
use crate::sorted::views;
use crate::subscriptions::{topics_encoded, Subscriptions};
use crate::text::joined;
use crate::value::ValueView;
use crate::wire::{EncodeError, EncodeErrorView};

verus! {

/// Configuration of a client service.
#[derive(Debug, PartialEq)]
pub struct ServiceConfig {
    outbox_size: usize,
}

impl ServiceConfig {
    #[verifier::type_invariant]
    spec fn valid(self) -> bool {
        self.outbox_size > 0
    }

    /// How many events the application may hand over before one is sent.
    pub closed spec fn spec_outbox_size(self) -> usize {
        self.outbox_size
    }

    /// A configuration with room for so many events; there has to be room for one.
    pub fn new(outbox_size: usize) -> (r: Option<ServiceConfig>)
        ensures
            match r {
                Some(c) => c.spec_outbox_size() == outbox_size && outbox_size > 0,
                None => outbox_size == 0,
            },
    {
        if outbox_size > 0 {
            Some(ServiceConfig { outbox_size })
        } else {
            None
        }
    }

    pub fn outbox_size(&self) -> (r: usize)
        ensures
            r == self.spec_outbox_size(),
            r > 0,
    {
        proof {
            use_type_invariant(self);
        }
        self.outbox_size
    }
}

impl Default for ServiceConfig {
    fn default() -> (r: ServiceConfig)
        ensures
            r.spec_outbox_size() == 256,
    {
        ServiceConfig { outbox_size: 256 }
    }
}

/// A client cannot go on.
#[derive(Debug, PartialEq)]
pub enum Error {
    Transport(String),
    ProtocolError(ProtocolError),
}

/// An [`Error`] as mathematics has it.
pub enum ErrorView {
    Transport(Seq<char>),
    ProtocolError(ProtocolErrorView),
}

impl View for Error {
    type V = ErrorView;

    open spec fn view(&self) -> ErrorView {
        match self {
            Error::Transport(s) => ErrorView::Transport(s@),
            Error::ProtocolError(e) => ErrorView::ProtocolError(e@),
        }
    }
}

impl ErrorView {
    pub open spec fn text(self) -> Seq<char> {
        match self {
            ErrorView::Transport(s) => "failure in websocket transport: "@ + s + ""@,
            ErrorView::ProtocolError(e) => "protocol-related error: "@ + e.text() + ""@,
        }
    }
}

impl Error {
    /// Describes the error.
    pub fn to_string(&self) -> (r: String)
        ensures
            r@ == self@.text(),
    {
        match self {
            Error::Transport(s) => joined("failure in websocket transport: ", s.as_str(), ""),
            Error::ProtocolError(e) => joined(
                "protocol-related error: ",
                e.to_string().as_str(),
                "",
            ),
        }
    }
}

impl From<ProtocolError> for Error {
    fn from(value: ProtocolError) -> (r: Error) {
        Error::ProtocolError(value)
    }
}

impl FromSpecImpl<ProtocolError> for Error {
    open spec fn obeys_from_spec() -> bool {
        true
    }

    open spec fn from_spec(value: ProtocolError) -> Error {
        Error::ProtocolError(value)
    }
}

impl From<DeserializationError> for Error {
    fn from(value: DeserializationError) -> (r: Error) {
        Error::ProtocolError(ProtocolError::DeserializationError(value))
    }
}

impl FromSpecImpl<DeserializationError> for Error {
    open spec fn obeys_from_spec() -> bool {
        true
    }

    open spec fn from_spec(value: DeserializationError) -> Error {
        Error::ProtocolError(ProtocolError::DeserializationError(value))
    }
}

/// What comes in from the server.
#[derive(Debug)]
pub enum Incoming {
    /// A WebSocket message.
    Frame(Frame),
    /// The transport failed, and why.
    Failed(String),
    /// The server closed the connection.
    Closed,
}

/// What comes in from the server, as mathematics has it.
pub enum IncomingView {
    Frame(FrameView),
    Failed(Seq<char>),
    Closed,
}

impl View for Incoming {
    type V = IncomingView;

    open spec fn view(&self) -> IncomingView {
        match self {
            Incoming::Frame(f) => IncomingView::Frame(f@),
            Incoming::Failed(s) => IncomingView::Failed(s@),
            Incoming::Closed => IncomingView::Closed,
        }
    }
}

/// How a session ends.
#[derive(Debug)]
pub enum Ending {
    /// The server or the application closed the connection.
    Done,
    /// The session cannot go on.
    Failed(Error),
    /// The server answered the subscription with something else than an ACK.
    NotAcknowledged(Message),
}

/// How a session ends, as mathematics has it.
pub enum EndingView {
    Done,
    Failed(ErrorView),
    NotAcknowledged(MessageView),
}

impl View for Ending {
    type V = EndingView;

    open spec fn view(&self) -> EndingView {
        match self {
            Ending::Done => EndingView::Done,
            Ending::Failed(e) => EndingView::Failed(e@),
            Ending::NotAcknowledged(m) => EndingView::NotAcknowledged(m@),
        }
    }
}

/// What is to be done next.
#[derive(Debug)]
pub enum Action {
    /// Send a WebSocket message to the server.
    Send(Frame),
    /// Tell the application that the server acknowledged the subscription.
    Connected { endpoint: String, version: String },
    /// Hand an event to the application.
    Deliver(String, Event),
    /// Tell the application of an error.
    Report(ProtocolError),
    /// The application handed over an event that cannot be written.
    Unsendable(EncodeError),
    /// Leave the event loop.
    Finish(Ending),
}

/// What is to be done next, as mathematics has it.
pub enum ActionView {
    Send(FrameView),
    Connected { endpoint: Seq<char>, version: Seq<char> },
    Deliver(Seq<char>, EventView),
    Report(ProtocolErrorView),
    Unsendable(EncodeErrorView),
    Finish(EndingView),
}

impl View for Action {
    type V = ActionView;

    open spec fn view(&self) -> ActionView {
        match self {
            Action::Send(f) => ActionView::Send(f@),
            Action::Connected { endpoint, version } => ActionView::Connected {
                endpoint: endpoint@,
                version: version@,
            },
            Action::Deliver(topic, event) => ActionView::Deliver(topic@, event@),
            Action::Report(e) => ActionView::Report(e@),
            Action::Unsendable(e) => ActionView::Unsendable(e@),
            Action::Finish(e) => ActionView::Finish(e@),
        }
    }
}

/// Everything that waits to be sent, in its order.
pub open spec fn sends(outbox: Seq<FrameView>) -> Seq<ActionView> {
    Seq::new(outbox.len(), |i: int| ActionView::Send(FrameView::Binary(outbox[i].data())))
}

/// The only thing to do is to send something that whoever receives it reads as the message, with
/// its points in time given in local time.
pub open spec fn sends_one(actions: Seq<ActionView>, m: MessageView, offset: Option<int>) -> bool {
    actions.len() == 1 && (actions[0] matches ActionView::Send(f) && frame_message(f, offset)
        == Ok::<MessageView, DeserializationErrorView>(localized_message(m, offset)))
}

/// Where one message is sent, there is nothing else to do, and what is sent is read as the message.
pub proof fn one_message_is_sent(
    actions: Seq<ActionView>,
    f: FrameView,
    m: MessageView,
    offset: Option<int>,
)
    ensures
        sends_one(actions, m, offset) ==> actions.len() == 1 && actions[0] is Send,
        sends_one(seq![ActionView::Send(f)], m, offset) <==> frame_message(f, offset) == Ok::<
            MessageView,
            DeserializationErrorView,
        >(localized_message(m, offset)),
{
}

/// What is done with something that a binding hands out.
pub open spec fn handed_out(m: MessageView) -> ActionView {
    match delivery(m) {
        Ok(Some((topic, event))) => ActionView::Deliver(topic, event),
        Ok(None) => ActionView::Finish(EndingView::Done),
        Err(e) => ActionView::Report(e),
    }
}

/// Everything that waits to be handed out, in its order.
pub open spec fn deliveries(inbox: Seq<MessageView>) -> Seq<ActionView> {
    Seq::new(inbox.len(), |i: int| handed_out(inbox[i]))
}

/// The WebSocket message that closes a connection normally.
pub open spec fn closing() -> FrameView {
    FrameView::Close(Some((1000, ""@)))
}

/// A session as mathematics has it.
pub struct SessionView {
    /// Whether the server has acknowledged the subscription.
    pub connected: bool,
    pub binding: BindingView,
}

impl SessionView {
    /// Nothing waits to be sent or handed out.
    pub open spec fn idle(self) -> bool {
        self.binding.inbox.len() == 0 && self.binding.outbox.len() == 0
    }

    /// What is done when something comes in from the server, and the session after that.
    pub open spec fn on_incoming(self, input: IncomingView, offset: Option<int>) -> (
        SessionView,
        Seq<ActionView>,
    ) {
        match input {
            IncomingView::Closed => (self, seq![ActionView::Finish(EndingView::Done)]),
            IncomingView::Failed(s) => (
                self,
                seq![ActionView::Finish(EndingView::Failed(ErrorView::Transport(s)))],
            ),
            IncomingView::Frame(FrameView::Ping(_)) => (self, Seq::empty()),
            IncomingView::Frame(f) => match frame_message(f, offset) {
                Err(e) => self.on_garbage(ProtocolErrorView::DeserializationError(e)),
                Ok(m) => self.on_message(m),
            },
        }
    }

    /// Something that cannot be read ends the session.
    pub open spec fn on_garbage(self, e: ProtocolErrorView) -> (SessionView, Seq<ActionView>) {
        (self, seq![ActionView::Finish(EndingView::Failed(ErrorView::ProtocolError(e)))])
    }

    /// The first message has to be an ACK; later ones go through the binding.
    pub open spec fn on_message(self, m: MessageView) -> (SessionView, Seq<ActionView>) {
        if !self.connected {
            match m {
                MessageView::Ack { endpoint, version } => (
                    SessionView { connected: true, ..self },
                    seq![ActionView::Connected { endpoint, version }],
                ),
                _ => (self, seq![ActionView::Finish(EndingView::NotAcknowledged(m))]),
            }
        } else {
            match self.binding.refusal(m) {
                Some(e) => (
                    self,
                    seq![ActionView::Finish(EndingView::Failed(ErrorView::ProtocolError(e)))],
                ),
                None => (
                    SessionView {
                        binding: BindingView { inbox: Seq::empty(), ..self.binding.after(m) },
                        ..self
                    },
                    deliveries(self.binding.after(m).inbox),
                ),
            }
        }
    }

    /// What is done when the application hands over an event, and the session after that.
    pub open spec fn on_publish(
        self,
        topic: Seq<char>,
        event: EventView,
        offset: Option<int>,
    ) -> (SessionView, Seq<ActionView>) {
        match message_encoded(event_message(topic, event), offset) {
            Err(e) => (self, seq![ActionView::Unsendable(e)]),
            Ok(t) => (
                SessionView {
                    binding: BindingView { outbox: Seq::empty(), ..self.binding },
                    ..self
                },
                sends(self.binding.outbox.push(FrameView::Text(json_printed(t)))),
            ),
        }
    }

    /// Nothing is held back: after whatever comes in, nothing waits to be sent or handed out.
    pub proof fn stays_idle(
        self,
        input: IncomingView,
        topic: Seq<char>,
        event: EventView,
        offset: Option<int>,
    )
        requires
            self.idle(),
        ensures
            self.on_incoming(input, offset).0.idle(),
            self.on_publish(topic, event, offset).0.idle(),
    {
    }

    /// In a connected session each event that comes in is handed to the application at once, as
    /// it is.
    pub proof fn events_are_delivered(self, topic: Seq<char>, event: EventView)
        requires
            self.idle(),
            self.connected,
        ensures
            self.on_message(event_message(topic, event)).1 == seq![
                ActionView::Deliver(topic, event),
            ],
    {
        let m = event_message(topic, event);
        assert(self.binding.after(m).inbox =~= seq![m]);
        assert(deliveries(seq![m]) =~= seq![ActionView::Deliver(topic, event)]);
    }

    /// Whether or not the session is connected, a message that cannot be read ends it with the
    /// error.
    pub proof fn garbage_ends_session(
        self,
        f: FrameView,
        offset: Option<int>,
        e: DeserializationErrorView,
    )
        requires
            !(f is Ping),
            frame_message(f, offset) == Err::<MessageView, DeserializationErrorView>(e),
        ensures
            self.on_incoming(IncomingView::Frame(f), offset).1 == seq![
                ActionView::Finish(
                    EndingView::Failed(
                        ErrorView::ProtocolError(ProtocolErrorView::DeserializationError(e)),
                    ),
                ),
            ],
    {
    }

    /// Where the server closes the connection the session is done, where the transport fails it ends
    /// with the reason, and pings change nothing and ask for nothing.
    pub proof fn connections_end(self, s: Seq<char>, b: Seq<u8>, offset: Option<int>)
        ensures
            self.on_incoming(IncomingView::Closed, offset) == (
                self,
                seq![ActionView::Finish(EndingView::Done)],
            ),
            self.on_incoming(IncomingView::Failed(s), offset) == (
                self,
                seq![ActionView::Finish(EndingView::Failed(ErrorView::Transport(s)))],
            ),
            self.on_incoming(IncomingView::Frame(FrameView::Ping(b)), offset) == (
                self,
                Seq::<ActionView>::empty(),
            ),
    {
    }

    /// What comes in as a frame is done with as with the message that it carries.
    pub proof fn frames_carry_messages(
        self,
        f: FrameView,
        m: MessageView,
        offset: Option<int>,
    )
        requires
            !(f is Ping),
            frame_message(f, offset) == Ok::<MessageView, DeserializationErrorView>(m),
        ensures
            self.on_incoming(IncomingView::Frame(f), offset) == self.on_message(m),
    {
    }

    /// The first ACK connects the session, and the application is told what the server said of
    /// itself; any other message in its place ends the session with that message.
    pub proof fn acks_connect(self, a: Seq<char>, b: Seq<char>, m: MessageView)
        requires
            !self.connected,
        ensures
            self.on_message(MessageView::Ack { endpoint: a, version: b }) == (
                SessionView { connected: true, binding: self.binding },
                seq![ActionView::Connected { endpoint: a, version: b }],
            ),
            !(m is Ack) ==> self.on_message(m) == (
                self,
                seq![ActionView::Finish(EndingView::NotAcknowledged(m))],
            ),
    {
    }

    /// In a connected session an error that comes in is reported to the application with its code
    /// and its context, and a payload that is no event ends the session with that payload.
    pub proof fn errors_are_reported(self, a: Seq<char>, b: Seq<char>, v: ValueView)
        requires
            self.idle(),
            self.connected,
        ensures
            self.on_message(MessageView::Error { code: a, context: b }).1 == seq![
                ActionView::Report(ProtocolErrorView::ZeekError { code: a, context: b }),
            ],
            self.on_message(MessageView::DataMessage { topic: a, data: DataView::Other(v) }) == (
                self,
                seq![
                    ActionView::Finish(
                        EndingView::Failed(
                            ErrorView::ProtocolError(
                                ProtocolErrorView::UnexpectedEventPayload(v),
                            ),
                        ),
                    ),
                ],
            ),
    {
        let m = MessageView::Error { code: a, context: b };
        assert(self.binding.after(m).inbox =~= seq![m]);
        assert(deliveries(seq![m]) =~= seq![
            ActionView::Report(ProtocolErrorView::ZeekError { code: a, context: b }),
        ]);
    }

    /// Once the binding has seen an ACK, a further one ends the session.
    pub proof fn second_acks_end_sessions(self, a: Seq<char>, b: Seq<char>)
        requires
            self.connected,
            self.binding.subscribed,
        ensures
            self.on_message(MessageView::Ack { endpoint: a, version: b }) == (
                self,
                seq![
                    ActionView::Finish(
                        EndingView::Failed(
                            ErrorView::ProtocolError(ProtocolErrorView::AlreadySubscribed),
                        ),
                    ),
                ],
            ),
    {
    }

    /// An event that the application hands over is sent as the bytes of the text of its message,
    /// behind all that waited; one that cannot be written is handed back with the reason, and
    /// nothing is sent.
    pub proof fn events_are_sent(
        self,
        topic: Seq<char>,
        event: EventView,
        offset: Option<int>,
    )
        requires
            self.idle(),
        ensures
            match message_encoded(
                MessageView::DataMessage { topic, data: DataView::Event(event) },
                offset,
            ) {
                Ok(t) => self.on_publish(topic, event, offset).0 == self && self.on_publish(
                    topic,
                    event,
                    offset,
                ).1 == seq![
                    ActionView::Send(FrameView::Binary(vstd::utf8::encode_utf8(json_printed(t)))),
                ],
                Err(e) => self.on_publish(topic, event, offset) == (
                    self,
                    seq![ActionView::Unsendable(e)],
                ),
            },
    {
        let m = event_message(topic, event);
        if let Ok(t) = message_encoded(m, offset) {
            let f = FrameView::Text(json_printed(t));
            assert(self.binding.outbox =~= Seq::empty());
            assert(self.binding.outbox.push(f) =~= seq![f]);
            assert(sends(seq![f]) =~= seq![
                ActionView::Send(FrameView::Binary(vstd::utf8::encode_utf8(json_printed(t)))),
            ]);
        }
    }

    /// A session becomes connected by an ACK and by nothing else, and stays connected.
    pub proof fn connects_by_ack(self, input: IncomingView, offset: Option<int>)
        ensures
            self.connected ==> self.on_incoming(input, offset).0.connected,
            !self.connected && self.on_incoming(input, offset).0.connected ==> (input matches
                IncomingView::Frame(f) && frame_message(f, offset) matches Ok(m) && m is Ack),
    {
    }
}

/// What waits is sent message by message, and handed out message by message, each in its place: an
/// event to the application, and an error as a report.
pub proof fn nothing_is_reordered(
    outbox: Seq<FrameView>,
    inbox: Seq<MessageView>,
    i: int,
    a: Seq<char>,
    b: Seq<char>,
    e: EventView,
)
    ensures
        sends(outbox).len() == outbox.len(),
        0 <= i < outbox.len() ==> sends(outbox)[i] == ActionView::Send(
            FrameView::Binary(outbox[i].data()),
        ),
        deliveries(inbox).len() == inbox.len(),
        0 <= i < inbox.len() && inbox[i] == (MessageView::DataMessage {
            topic: a,
            data: DataView::Event(e),
        }) ==> deliveries(inbox)[i] == ActionView::Deliver(a, e),
        0 <= i < inbox.len() && inbox[i] == (MessageView::Error { code: a, context: b })
            ==> deliveries(inbox)[i] == ActionView::Report(
            ProtocolErrorView::ZeekError { code: a, context: b },
        ),
{
}

/// A connection is closed with the code for a normal end, and without a reason.
pub proof fn closing_is_normal()
    ensures
        closing() == FrameView::Close(Some((1000, Seq::empty()))),
{
    reveal_strlit("");
    assert(""@ =~= Seq::<char>::empty());
}

/// What a reader is told of an error that ends a client.
pub proof fn errors_are_described(s: Seq<char>, e: ProtocolErrorView)
    ensures
        ErrorView::Transport(s).text() == "failure in websocket transport: "@ + s,
        ErrorView::ProtocolError(e).text() == "protocol-related error: "@ + e.text(),
{
    reveal_strlit("");
    assert("failure in websocket transport: "@ + s + ""@ =~= "failure in websocket transport: "@
        + s);
    assert("protocol-related error: "@ + e.text() + ""@ =~= "protocol-related error: "@ + e.text());
}

/// A connection to the server, as far as it has decisions to make.
#[derive(Debug)]
pub struct Session {
    connected: bool,
    binding: Binding,
}

impl Action {
    /// An action is seen as the one that it is, with what it holds, and so is the error with which
    /// it ends a session.
    pub proof fn actions_are_seen(self)
        ensures
            self matches Action::Send(f) ==> self@ == ActionView::Send(f@),
            self matches Action::Connected { endpoint, version } ==> self@ == (
            ActionView::Connected { endpoint: endpoint@, version: version@ }),
            self matches Action::Deliver(topic, event) ==> self@ == ActionView::Deliver(
                topic@,
                event@,
            ),
            self matches Action::Report(e) ==> self@ == ActionView::Report(e@),
            self matches Action::Unsendable(e) ==> self@ == ActionView::Unsendable(e@),
            self matches Action::Finish(Ending::Done) ==> self@ == ActionView::Finish(
                EndingView::Done,
            ),
            self matches Action::Finish(Ending::Failed(Error::Transport(s))) ==> self@
                == ActionView::Finish(EndingView::Failed(ErrorView::Transport(s@))),
            self matches Action::Finish(Ending::Failed(Error::ProtocolError(e))) ==> self@
                == ActionView::Finish(EndingView::Failed(ErrorView::ProtocolError(e@))),
            self matches Action::Finish(Ending::NotAcknowledged(m)) ==> self@ == ActionView::Finish(
                EndingView::NotAcknowledged(m@),
            ),
    {
    }
}

impl Incoming {
    /// What comes in is seen as what it is.
    pub proof fn incoming_is_seen(self)
        ensures
            self matches Incoming::Frame(f) ==> self@ == IncomingView::Frame(f@),
            self matches Incoming::Failed(s) ==> self@ == IncomingView::Failed(s@),
            self is Closed ==> self@ == IncomingView::Closed,
    {
    }
}

impl View for Session {
    type V = SessionView;

    closed spec fn view(&self) -> SessionView {
        SessionView { connected: self.connected, binding: self.binding@ }
    }
}

impl Session {
    /// Opens a session: the topics are to be sent first.
    pub fn open<S: Into<Subscriptions>>(subscriptions: S) -> (r: (Session, Vec<Action>))
        ensures
            !r.0@.connected,
            r.0@.idle(),
            !r.0@.binding.subscribed,
            exists|s: Subscriptions|
                #![trigger s@]
                call_ensures(S::into, (subscriptions,), s) && views(r.1@) == sends(
                    seq![FrameView::Text(json_printed(topics_encoded(s@)))],
                ),
    {
        let subscriptions: Subscriptions = subscriptions.into();
        Session::subscribing(&subscriptions)
    }

    /// Opens a session for these topics.
    pub fn subscribing(subscriptions: &Subscriptions) -> (r: (Session, Vec<Action>))
        ensures
            !r.0@.connected,
            r.0@.idle(),
            !r.0@.binding.subscribed,
            views(r.1@) == sends(
                seq![FrameView::Text(json_printed(topics_encoded(subscriptions@)))],
            ),
    {
        let mut session = Session {
            connected: false,
            binding: Binding::subscribing(subscriptions),
        };
        let actions = session.flush();
        (session, actions)
    }

    /// Whether the server has acknowledged the subscription.
    pub fn is_connected(&self) -> (r: bool)
        ensures
            r == self@.connected,
    {
        self.connected
    }

    fn flush(&mut self) -> (r: Vec<Action>)
        ensures
            views(r@) == sends(old(self)@.binding.outbox),
            final(self)@ == (SessionView {
                binding: BindingView { outbox: Seq::empty(), ..old(self)@.binding },
                ..old(self)@
            }),
    {
        let ghost all = self@.binding.outbox;
        let ghost before = self@;
        let mut out: Vec<Action> = Vec::new();
        assert(all.skip(0) =~= all);
        loop
            invariant
                before == old(self)@,
                all == before.binding.outbox,
                out.len() <= all.len(),
                self@ == (SessionView {
                    binding: BindingView {
                        outbox: all.skip(out.len() as int),
                        ..before.binding
                    },
                    ..before
                }),
                views(out@) == sends(all).take(out.len() as int),
            decreases self@.binding.outbox.len(),
        {
            let ghost n = out.len() as int;
            match self.binding.outgoing() {
                Some(data) => {
                    let action = Action::Send(Frame::Binary(data));
                    assert(all.skip(n)[0] == all[n]);
                    assert(all.skip(n).drop_first() =~= all.skip(n + 1));
                    out.push(action);
                    assert(views(out@) =~= sends(all).take(n + 1));
                },
                None => {
                    assert(all.skip(n) =~= Seq::empty());
                    assert(sends(all).take(n) =~= sends(all));
                    return out;
                },
            }
        }
    }

    fn hand_out(&mut self) -> (r: Vec<Action>)
        ensures
            views(r@) == deliveries(old(self)@.binding.inbox),
            final(self)@ == (SessionView {
                binding: BindingView { inbox: Seq::empty(), ..old(self)@.binding },
                ..old(self)@
            }),
    {
        let ghost all = self@.binding.inbox;
        let ghost before = self@;
        let mut out: Vec<Action> = Vec::new();
        assert(all.skip(0) =~= all);
        loop
            invariant
                before == old(self)@,
                all == before.binding.inbox,
                out.len() <= all.len(),
                self@ == (SessionView {
                    binding: BindingView {
                        inbox: all.skip(out.len() as int),
                        ..before.binding
                    },
                    ..before
                }),
                views(out@) == deliveries(all).take(out.len() as int),
            decreases self@.binding.inbox.len(),
        {
            let ghost n = out.len() as int;
            proof {
                if n < all.len() {
                    assert(all.skip(n)[0] == all[n]);
                    assert(all.skip(n).drop_first() =~= all.skip(n + 1));
                }
            }
            match self.binding.receive_event() {
                Ok(Some((topic, event))) => {
                    out.push(Action::Deliver(topic, event));
                    assert(views(out@) =~= deliveries(all).take(n + 1));
                },
                Err(e) => {
                    out.push(Action::Report(e));
                    assert(views(out@) =~= deliveries(all).take(n + 1));
                },
                Ok(None) => {
                    assert(all.skip(n) =~= Seq::empty());
                    assert(deliveries(all).take(n) =~= deliveries(all));
                    return out;
                },
            }
        }
    }

    /// Decides what to do when something comes in from the server.
    pub fn on_incoming(&mut self, input: Incoming, offset: Option<UtcOffset>) -> (r: Vec<Action>)
        ensures
            (final(self)@, views(r@)) == old(self)@.on_incoming(input@, offset_view(offset)),
    {
        match input {
            Incoming::Closed => one(Action::Finish(Ending::Done)),
            Incoming::Failed(s) => one(Action::Finish(Ending::Failed(Error::Transport(s)))),
            Incoming::Frame(Frame::Ping(_)) => none(),
            Incoming::Frame(f) => match Message::from_frame(f, offset) {
                Err(e) => {
                    let e = ProtocolError::DeserializationError(e);
                    one(Action::Finish(Ending::Failed(Error::ProtocolError(e))))
                },
                Ok(m) => self.on_message(m),
            },
        }
    }

    /// Decides what to do with a message from the server.
    pub fn on_message(&mut self, m: Message) -> (r: Vec<Action>)
        ensures
            (final(self)@, views(r@)) == old(self)@.on_message(m@),
    {
        if !self.connected {
            match m {
                Message::Ack { endpoint, version } => {
                    self.connected = true;
                    one(Action::Connected { endpoint, version })
                },
                m => one(Action::Finish(Ending::NotAcknowledged(m))),
            }
        } else {
            match self.binding.handle_incoming(m) {
                Err(e) => one(Action::Finish(Ending::Failed(Error::ProtocolError(e)))),
                Ok(()) => self.hand_out(),
            }
        }
    }

    /// Decides what to do with an event that the application hands over: it is sent, and
    /// whoever receives it reads it, unless it cannot be written in full.
    pub fn on_publish(
        &mut self,
        topic: String,
        event: Event,
        offset: Option<UtcOffset>,
    ) -> (r: Vec<Action>)
        ensures
            (final(self)@, views(r@)) == old(self)@.on_publish(
                topic@,
                event@,
                offset_view(offset),
            ),
            old(self)@.idle() && message_encoded(
                event_message(topic@, event@),
                offset_view(offset),
            ) is Ok && carries_back(event_message(topic@, event@), offset_view(offset))
                ==> sends_one(views(r@), event_message(topic@, event@), offset_view(offset)),
    {
        let ghost before = self@;
        let message = Message::DataMessage { topic, data: Data::Event(event) };
        match self.binding.enqueue(&message, offset) {
            Ok(()) => {
                proof {
                    if before.idle() {
                        assert(self@.binding.outbox =~= seq![self@.binding.outbox.last()]);
                    }
                }
                self.flush()
            },
            Err(e) => one(Action::Unsendable(e)),
        }
    }

    /// Decides what to do when the application is gone: the connection is closed normally.
    pub fn on_client_gone(&self) -> (r: Vec<Action>)
        ensures
            views(r@) == seq![ActionView::Send(closing()), ActionView::Finish(EndingView::Done)],
    {
        let mut out: Vec<Action> = Vec::new();
        out.push(Action::Send(Frame::Close(Some((1000, "".to_owned())))));
        out.push(Action::Finish(Ending::Done));
        assert(views(out@) =~= seq![
            ActionView::Send(closing()),
            ActionView::Finish(EndingView::Done),
        ]);
        out
    }
}

fn one(action: Action) -> (r: Vec<Action>)
    ensures
        views(r@) == seq![action@],
{
    let mut out: Vec<Action> = Vec::new();
    out.push(action);
    assert(views(out@) =~= seq![action@]);
    out
}

fn none() -> (r: Vec<Action>)
    ensures
        views(r@) == Seq::<ActionView>::empty(),
{
    let out: Vec<Action> = Vec::new();
    assert(views(out@) =~= Seq::<ActionView>::empty());
    out
}

} // verus!
