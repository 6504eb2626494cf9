//! Events, and the messages that carry them.
use vstd::prelude::*;
use vstd::std_specs::convert::FromSpecImpl;

use crate::convert::{convert_all, converted};
use crate::sorted::views;
use crate::value::{copy_values, lemma_view, order_keys, same_value, same_values, Value, ValueView};

verus! {

/// A Zeek event.
#[derive(Debug)]
pub struct Event {
    /// Name of the event.
    pub name: String,
    /// Arguments of the event.
    pub args: Vec<Value>,
    /// Event metadata.
    pub metadata: Vec<Value>,
}

/// An event as mathematics has it.
pub struct EventView {
    pub name: Seq<char>,
    pub args: Seq<ValueView>,
    pub metadata: Seq<ValueView>,
}

impl View for Event {
    type V = EventView;

    open spec fn view(&self) -> EventView {
        EventView {
            name: self.name@,
            args: views(self.args@),
            metadata: views(self.metadata@),
        }
    }
}

impl EventView {
    /// Two events count as equal where their names agree and their values count as equal.
    pub open spec fn same(self, other: EventView) -> bool {
        self.name == other.name && order_keys(self.args) == order_keys(other.args) && order_keys(
            self.metadata,
        ) == order_keys(other.metadata)
    }

    /// The value that an event is carried as: a format number, a type number, and a vector of
    /// its name, its arguments and its metadata.
    pub open spec fn value(self) -> ValueView {
        ValueView::Vector(
            seq![
                ValueView::Count(FORMAT_NR),
                ValueView::Count(EVENT_TYPE),
                ValueView::Vector(
                    seq![
                        ValueView::String(self.name),
                        ValueView::Vector(self.args),
                        ValueView::Vector(self.metadata),
                    ],
                ),
            ],
        )
    }
}

impl Event {
    /// An event without metadata.
    pub fn new<N: Into<String>, A: Into<Value>>(name: N, args: Vec<A>) -> (r: Event)
        ensures
            call_ensures(N::into, (name,), r.name),
            converted(args@, r.args@),
            r.metadata@ == Seq::<Value>::empty(),
    {
        Event { name: name.into(), args: convert_all(args), metadata: Vec::new() }
    }

    /// The event with this metadata in place of its own.
    pub fn with_metadata<M: Into<Value>>(self, metadata: Vec<M>) -> (r: Event)
        ensures
            r.name == self.name,
            r.args == self.args,
            converted(metadata@, r.metadata@),
    {
        Event { name: self.name, args: self.args, metadata: convert_all(metadata) }
    }
}

impl Clone for Event {
    fn clone(&self) -> (r: Event)
        ensures
            r@ == self@,
    {
        Event {
            name: self.name.clone(),
            args: copy_values(&self.args),
            metadata: copy_values(&self.metadata),
        }
    }
}

impl PartialEq for Event {
    fn eq(&self, other: &Event) -> (r: bool) {
        self.name == other.name && same_values(&self.args, &other.args) && same_values(
            &self.metadata,
            &other.metadata,
        )
    }
}

impl vstd::std_specs::cmp::PartialEqSpecImpl for Event {
    open spec fn obeys_eq_spec() -> bool {
        true
    }

    open spec fn eq_spec(&self, other: &Event) -> bool {
        self@.same(other@)
    }
}

/// Data payload of a Zeek API message.
#[derive(Debug)]
pub enum Data {
    /// A Zeek event.
    Event(Event),
    /// Anything else.
    Other(Value),
}

/// A payload as mathematics has it.
pub enum DataView {
    Event(EventView),
    Other(ValueView),
}

impl View for Data {
    type V = DataView;

    open spec fn view(&self) -> DataView {
        match self {
            Data::Event(e) => DataView::Event(e@),
            Data::Other(v) => DataView::Other(v@),
        }
    }
}

/// The number that marks the type of events.
pub const EVENT_TYPE: u64 = 1;

/// The number of the format in which events are carried.
pub const FORMAT_NR: u64 = 1;

/// The metadata that the third part of an event holds: the values of a vector, or a single value.
pub open spec fn metadata_in(data: Seq<ValueView>) -> Seq<ValueView> {
    if data.len() <= 2 {
        Seq::empty()
    } else {
        match data[2] {
            ValueView::Vector(xs) => xs,
            x => seq![x],
        }
    }
}

/// The event that a value carries: a vector whose second part is the type number of events, and
/// whose third part is a vector that starts with a name and a vector of arguments.
pub open spec fn event_in(v: ValueView) -> Option<EventView> {
    match v {
        ValueView::Vector(xs) => if xs.len() > 2 && xs[1] == ValueView::Count(EVENT_TYPE) {
            match xs[2] {
                ValueView::Vector(data) => if data.len() > 1 {
                    match (data[0], data[1]) {
                        (ValueView::String(name), ValueView::Vector(args)) => Some(
                            EventView { name, args, metadata: metadata_in(data) },
                        ),
                        _ => None,
                    }
                } else {
                    None
                },
                _ => None,
            }
        } else {
            None
        },
        _ => None,
    }
}

impl DataView {
    /// The payload that a value stands for: the event that it carries, else the value itself.
    pub open spec fn of(v: ValueView) -> DataView {
        match event_in(v) {
            Some(e) => DataView::Event(e),
            None => DataView::Other(v),
        }
    }

    /// The value that stands for a payload.
    pub open spec fn value(self) -> ValueView {
        match self {
            DataView::Event(e) => e.value(),
            DataView::Other(v) => v,
        }
    }

    pub open spec fn same(self, other: DataView) -> bool {
        match (self, other) {
            (DataView::Event(a), DataView::Event(b)) => a.same(b),
            (DataView::Other(a), DataView::Other(b)) => same_value(a, b),
            _ => false,
        }
    }

    /// An event, or a value that carries none.
    pub open spec fn unambiguous(self) -> bool {
        self matches DataView::Other(v) ==> event_in(v) is None
    }

    /// A payload is found again in the value that stands for it, unless it is a value that
    /// carries an event but was not recognised as one.
    pub proof fn value_reads_back(self)
        requires
            self.unambiguous(),
        ensures
            DataView::of(self.value()) == self,
    {
    }

    /// No event is lost in the value that stands for it.
    pub proof fn event_reads_back(e: EventView)
        ensures
            event_in(e.value()) == Some(e),
    {
    }

    /// A value that carries no event stands for itself.
    pub proof fn other_values_are_kept(v: ValueView)
        ensures
            DataView::of(v) == match event_in(v) {
                Some(e) => DataView::Event(e),
                None => DataView::Other(v),
            },
            DataView::Other(v).value() == v,
    {
    }

    /// Events count as equal to events whose parts count as equal, and other values to values
    /// that count as equal; an event never counts as equal to another value.
    pub proof fn same_by_parts(a: EventView, b: EventView, v: ValueView, w: ValueView)
        ensures
            DataView::Event(a).same(DataView::Event(b)) <==> a.name == b.name && all_same(
                a.args,
                b.args,
            ) && all_same(a.metadata, b.metadata),
            DataView::Other(v).same(DataView::Other(w)) <==> same_value(v, w),
            !DataView::Event(a).same(DataView::Other(v)),
            !DataView::Other(v).same(DataView::Event(a)),
    {
        lemma_all_same(a.args, b.args);
        lemma_all_same(a.metadata, b.metadata);
    }
}

/// The values count as equal, one by one.
pub open spec fn all_same(s: Seq<ValueView>, t: Seq<ValueView>) -> bool {
    s.len() == t.len() && forall|i: int| 0 <= i < s.len() ==> same_value(#[trigger] s[i], t[i])
}

proof fn lemma_all_same(s: Seq<ValueView>, t: Seq<ValueView>)
    ensures
        order_keys(s) == order_keys(t) <==> all_same(s, t),
{
    if order_keys(s) == order_keys(t) {
        assert(order_keys(s).len() == order_keys(t).len());
        assert forall|i: int| 0 <= i < s.len() implies same_value(#[trigger] s[i], t[i]) by {
            assert(order_keys(s)[i] == order_keys(t)[i]);
        }
    }
    if all_same(s, t) {
        assert forall|i: int| 0 <= i < s.len() implies order_keys(s)[i] == order_keys(t)[i] by {
            assert(same_value(s[i], t[i]));
        }
        assert(order_keys(s) =~= order_keys(t));
    }
}

/// A vector whose second part is the count one, and whose third part is a vector of a name and
/// arguments, carries the event with exactly that name and all of those arguments in their order,
/// and without metadata. What the first part is, and what stands behind the third, does not
/// matter.
pub proof fn event_without_metadata(
    first: ValueView,
    name: Seq<char>,
    args: Seq<ValueView>,
    behind: Seq<ValueView>,
)
    ensures
        event_in(
            ValueView::Vector(
                seq![
                    first,
                    ValueView::Count(1),
                    ValueView::Vector(seq![ValueView::String(name), ValueView::Vector(args)]),
                ] + behind,
            ),
        ) == Some(EventView { name, args, metadata: Seq::empty() }),
{
    let data = seq![ValueView::String(name), ValueView::Vector(args)];
    let parts = seq![first, ValueView::Count(1), ValueView::Vector(data)] + behind;
    assert(parts[1] == ValueView::Count(1));
    assert(parts[2] == ValueView::Vector(data));
    assert(data[0] == ValueView::String(name));
    assert(data[1] == ValueView::Vector(args));
}

/// What stands behind the arguments is the metadata: the values of a vector in their order, or
/// the one value where it is no vector. What stands behind the metadata does not matter.
pub proof fn event_with_metadata(
    first: ValueView,
    name: Seq<char>,
    args: Seq<ValueView>,
    metadata: ValueView,
    surplus: Seq<ValueView>,
    behind: Seq<ValueView>,
)
    ensures
        event_in(
            ValueView::Vector(
                seq![
                    first,
                    ValueView::Count(1),
                    ValueView::Vector(
                        seq![ValueView::String(name), ValueView::Vector(args), metadata] + surplus,
                    ),
                ] + behind,
            ),
        ) == Some(
            EventView {
                name,
                args,
                metadata: if metadata is Vector {
                    metadata->Vector_0
                } else {
                    seq![metadata]
                },
            },
        ),
{
    let data = seq![ValueView::String(name), ValueView::Vector(args), metadata] + surplus;
    let parts = seq![first, ValueView::Count(1), ValueView::Vector(data)] + behind;
    assert(parts[1] == ValueView::Count(1));
    assert(parts[2] == ValueView::Vector(data));
    assert(data[0] == ValueView::String(name));
    assert(data[1] == ValueView::Vector(args));
    assert(data[2] == metadata);
}

/// Nothing else carries an event: where one is found, the value is a vector with the count one in
/// its second place, and with a vector in its third place that starts with the name and the
/// arguments of the event.
pub proof fn events_have_one_shape(v: ValueView)
    ensures
        event_in(v) is Some <==> {
            &&& v is Vector
            &&& v->Vector_0.len() >= 3
            &&& v->Vector_0[1] == ValueView::Count(1)
            &&& v->Vector_0[2] is Vector
            &&& v->Vector_0[2]->Vector_0.len() >= 2
            &&& v->Vector_0[2]->Vector_0[0] is String
            &&& v->Vector_0[2]->Vector_0[1] is Vector
        },
        event_in(v) matches Some(e) ==> v->Vector_0[2]->Vector_0[0] == ValueView::String(e.name)
            && v->Vector_0[2]->Vector_0[1] == ValueView::Vector(e.args),
{
}

/// An event is carried as a vector of the counts one and one, and of a vector of its name, its
/// arguments and its metadata.
pub proof fn event_is_carried(e: EventView)
    ensures
        e.value() is Vector,
        e.value()->Vector_0.len() == 3,
        e.value()->Vector_0[0] == ValueView::Count(1),
        e.value()->Vector_0[1] == ValueView::Count(1),
        e.value()->Vector_0[2] is Vector,
        e.value()->Vector_0[2]->Vector_0.len() == 3,
        e.value()->Vector_0[2]->Vector_0[0] == ValueView::String(e.name),
        e.value()->Vector_0[2]->Vector_0[1] == ValueView::Vector(e.args),
        e.value()->Vector_0[2]->Vector_0[2] == ValueView::Vector(e.metadata),
        DataView::Event(e).value() == e.value(),
{
}

fn metadata_of(data: &Vec<Value>) -> (r: Vec<Value>)
    ensures
        views(r@) == metadata_in(views(data@)),
{
    broadcast use lemma_view;

    let mut out: Vec<Value> = Vec::new();
    if data.len() <= 2 {
        assert(views(out@) =~= Seq::empty());
        out
    } else {
        assert(views(data@)[2] == data@[2]@);
        match &data[2] {
            Value::Vector(xs) => copy_values(xs),
            x => {
                out.push(x.clone());
                assert(views(out@) =~= seq![x@]);
                out
            },
        }
    }
}

/// The event that a value carries.
pub fn event_of(value: &Value) -> (r: Option<Event>)
    ensures
        match r {
            Some(e) => event_in(value@) == Some(e@),
            None => event_in(value@) == None::<EventView>,
        },
{
    broadcast use lemma_view;

    if let Value::Vector(xs) = value {
        if xs.len() > 2 {
            assert(views(xs@)[1] == xs@[1]@);
            assert(views(xs@)[2] == xs@[2]@);
            if let (Value::Count(event_type), Value::Vector(data)) = (&xs[1], &xs[2]) {
                if *event_type == EVENT_TYPE && data.len() > 1 {
                    assert(views(data@)[0] == data@[0]@);
                    assert(views(data@)[1] == data@[1]@);
                    if let (Value::String(name), Value::Vector(args)) = (&data[0], &data[1]) {
                        return Some(
                            Event {
                                name: name.clone(),
                                args: copy_values(args),
                                metadata: metadata_of(data),
                            },
                        );
                    }
                }
            }
        }
    }
    None
}

impl From<Event> for Data {
    fn from(value: Event) -> (r: Data) {
        Data::Event(value)
    }
}

impl FromSpecImpl<Event> for Data {
    open spec fn obeys_from_spec() -> bool {
        true
    }

    open spec fn from_spec(value: Event) -> Data {
        Data::Event(value)
    }
}

impl From<Value> for Data {
    fn from(value: Value) -> (r: Data)
        ensures
            r@ == DataView::of(value@),
    {
        match event_of(&value) {
            Some(e) => Data::Event(e),
            None => Data::Other(value),
        }
    }
}

impl FromSpecImpl<Value> for Data {
    open spec fn obeys_from_spec() -> bool {
        false
    }

    open spec fn from_spec(value: Value) -> Data {
        arbitrary()
    }
}

impl From<Data> for Value {
    fn from(value: Data) -> (r: Value)
        ensures
            r@ == value@.value(),
    {
        broadcast use lemma_view;

        match value {
            Data::Event(event) => {
                let ghost e = event@;
                let mut data: Vec<Value> = Vec::new();
                data.push(Value::String(event.name));
                data.push(Value::Vector(event.args));
                data.push(Value::Vector(event.metadata));
                assert(views(data@) =~= seq![
                    ValueView::String(e.name),
                    ValueView::Vector(e.args),
                    ValueView::Vector(e.metadata),
                ]);
                let mut parts: Vec<Value> = Vec::new();
                parts.push(Value::Count(FORMAT_NR));
                parts.push(Value::Count(EVENT_TYPE));
                parts.push(Value::Vector(data));
                assert(views(parts@) =~= e.value()->Vector_0);
                Value::Vector(parts)
            },
            Data::Other(value) => value,
        }
    }
}

impl FromSpecImpl<Data> for Value {
    open spec fn obeys_from_spec() -> bool {
        false
    }

    open spec fn from_spec(value: Data) -> Value {
        arbitrary()
    }
}

impl Clone for Data {
    fn clone(&self) -> (r: Data)
        ensures
            r@ == self@,
    {
        match self {
            Data::Event(e) => Data::Event(e.clone()),
            Data::Other(v) => Data::Other(v.clone()),
        }
    }
}

impl PartialEq for Data {
    fn eq(&self, other: &Data) -> (r: bool) {
        match (self, other) {
            (Data::Event(a), Data::Event(b)) => *a == *b,
            (Data::Other(a), Data::Other(b)) => *a == *b,
            _ => false,
        }
    }
}

impl vstd::std_specs::cmp::PartialEqSpecImpl for Data {
    open spec fn obeys_eq_spec() -> bool {
        true
    }

    open spec fn eq_spec(&self, other: &Data) -> bool {
        self@.same(other@)
    }
}

/// Data messages of the Zeek API.
#[derive(Debug)]
pub enum Message {
    /// An ACK message typically sent by the server on successful subscription.
    Ack {
        /// Endpoint ID assigned by the server for this client.
        endpoint: String,
        /// Zeek version of the server.
        version: String,
    },
    /// An error sent by the server.
    Error {
        /// Zeek-assigned kind of the error.
        code: String,
        /// Additional context.
        context: String,
    },
    /// Message received over a topic.
    DataMessage {
        /// Topic of the message.
        topic: String,
        /// Data payload of the message.
        data: Data,
    },
}

/// A message as mathematics has it.
pub enum MessageView {
    Ack { endpoint: Seq<char>, version: Seq<char> },
    Error { code: Seq<char>, context: Seq<char> },
    DataMessage { topic: Seq<char>, data: DataView },
}

impl Message {
    /// A message is seen as the one that it is, with what it holds.
    pub proof fn messages_are_seen(self)
        ensures
            self matches Message::Ack { endpoint, version } ==> self@ == (MessageView::Ack {
                endpoint: endpoint@,
                version: version@,
            }),
            self matches Message::Error { code, context } ==> self@ == (MessageView::Error {
                code: code@,
                context: context@,
            }),
            self matches Message::DataMessage { topic, data: Data::Event(e) } ==> self@ == (
            MessageView::DataMessage {
                topic: topic@,
                data: DataView::Event(
                    EventView {
                        name: e.name@,
                        args: views(e.args@),
                        metadata: views(e.metadata@),
                    },
                ),
            }),
            self matches Message::DataMessage { topic, data: Data::Other(v) } ==> self@ == (
            MessageView::DataMessage { topic: topic@, data: DataView::Other(v@) }),
    {
    }
}

impl View for Message {
    type V = MessageView;

    open spec fn view(&self) -> MessageView {
        match self {
            Message::Ack { endpoint, version } => MessageView::Ack {
                endpoint: endpoint@,
                version: version@,
            },
            Message::Error { code, context } => MessageView::Error {
                code: code@,
                context: context@,
            },
            Message::DataMessage { topic, data } => MessageView::DataMessage {
                topic: topic@,
                data: data@,
            },
        }
    }
}

impl MessageView {
    pub open spec fn same(self, other: MessageView) -> bool {
        match (self, other) {
            (
                MessageView::DataMessage { topic: s, data: a },
                MessageView::DataMessage { topic: t, data: b },
            ) => s == t && a.same(b),
            _ => self == other,
        }
    }

    /// Messages count as equal where they are of one type and their texts agree; of data messages
    /// the payloads have to count as equal.
    pub proof fn same_by_fields(a: Seq<char>, b: Seq<char>, other: MessageView)
        ensures
            (MessageView::Ack { endpoint: a, version: b }).same(other) <==> (other matches
                MessageView::Ack { endpoint, version } && endpoint == a && version == b),
            (MessageView::Error { code: a, context: b }).same(other) <==> (other matches
                MessageView::Error { code, context } && code == a && context == b),
    {
    }

    /// Data messages count as equal where their topics agree and their payloads count as equal.
    pub proof fn same_data(topic: Seq<char>, data: DataView, other: MessageView)
        ensures
            (MessageView::DataMessage { topic, data }).same(other) <==> (other matches
                MessageView::DataMessage { topic: t, data: d } && t == topic && data.same(d)),
    {
    }
}

impl Message {
    /// A message with a payload for a topic.
    pub fn new_data<T: Into<String>, D: Into<Data>>(topic: T, data: D) -> (r: Message)
        ensures
            r matches Message::DataMessage { topic: t, data: d } && call_ensures(
                T::into,
                (topic,),
                t,
            ) && call_ensures(D::into, (data,), d),
    {
        Message::DataMessage { topic: topic.into(), data: data.into() }
    }
}

impl Clone for Message {
    fn clone(&self) -> (r: Message)
        ensures
            r@ == self@,
    {
        match self {
            Message::Ack { endpoint, version } => Message::Ack {
                endpoint: endpoint.clone(),
                version: version.clone(),
            },
            Message::Error { code, context } => Message::Error {
                code: code.clone(),
                context: context.clone(),
            },
            Message::DataMessage { topic, data } => Message::DataMessage {
                topic: topic.clone(),
                data: data.clone(),
            },
        }
    }
}

impl PartialEq for Message {
    fn eq(&self, other: &Message) -> (r: bool) {
        match (self, other) {
            (Message::Ack { endpoint: a, version: b }, Message::Ack { endpoint: c, version: d }) =>
            *a == *c && *b == *d,
            (Message::Error { code: a, context: b }, Message::Error { code: c, context: d }) => *a
                == *c && *b == *d,
            (
                Message::DataMessage { topic: a, data: b },
                Message::DataMessage { topic: c, data: d },
            ) => *a == *c && *b == *d,
            _ => false,
        }
    }
}

impl vstd::std_specs::cmp::PartialEqSpecImpl for Message {
    open spec fn obeys_eq_spec() -> bool {
        true
    }

    open spec fn eq_spec(&self, other: &Message) -> bool {
        self@.same(other@)
    }
}

} // verus!
