//! Messages in JSON, and WebSocket frames that carry them.
use vstd::prelude::*;
use vstd::std_specs::convert::TryFromSpecImpl;
use vstd::utf8::encode_utf8;

use serde_json::Value as JsonValue;

use crate::json::{
    depth_within, entry_views, field_at, fields_are_found, find_entry, invalid_type, json_entries, json_fields,
    json_invalid_type, json_object, json_print, json_printed, json_text, json_tree, json_trees,
    max_depth, JsonView,
};
use crate::read::{message_read, message_text_reads_back};
use crate::message::{
    event_in, event_without_metadata, metadata_in, Data, DataView, EventView, Message, MessageView,
};
use crate::scalar::{offset_fits, offset_view, Real, UtcOffset};
use crate::text::{copy_bytes, decimal, format_unsigned, joined, same_text, utf8_decoded, utf8_text};
use crate::value::{lemma_order_key, Value, ValueView};
use crate::wire::{
    all_finite, decode_buffered, decoded, describe_length, encode_data, encoded,
    encoding_reads_back, fields_in_any_order, finite_by_parts, lemma_tagged, localized,
    localized_all, localized_is_same, scalars_are_read, sequences_are_read, settled, tagged,
    wrong_length, DecodeError, DecodeErrorView, EncodeError, EncodeErrorView, Kind,
};

verus! {

/// A WebSocket message.
#[derive(Debug, PartialEq)]
pub enum Frame {
    Text(String),
    Binary(Vec<u8>),
    Ping(Vec<u8>),
    Pong(Vec<u8>),
    /// A closing handshake, with a code and a reason where the peer gives them.
    Close(Option<(u16, String)>),
    /// A raw frame: its payload, and its length with its header.
    Raw(Vec<u8>, u64),
}

/// A WebSocket message as mathematics has it.
pub enum FrameView {
    Text(Seq<char>),
    Binary(Seq<u8>),
    Ping(Seq<u8>),
    Pong(Seq<u8>),
    Close(Option<(u16, Seq<char>)>),
    Raw(Seq<u8>, u64),
}

impl View for Frame {
    type V = FrameView;

    open spec fn view(&self) -> FrameView {
        match self {
            Frame::Text(s) => FrameView::Text(s@),
            Frame::Binary(b) => FrameView::Binary(b@),
            Frame::Ping(b) => FrameView::Ping(b@),
            Frame::Pong(b) => FrameView::Pong(b@),
            Frame::Close(None) => FrameView::Close(None),
            Frame::Close(Some((code, reason))) => FrameView::Close(Some((*code, reason@))),
            Frame::Raw(b, len) => FrameView::Raw(b@, *len),
        }
    }
}

/// How bytes are shown: as the text that they encode, else by their length.
pub open spec fn bytes_text(bytes: Seq<u8>, len: nat) -> Seq<char> {
    match utf8_decoded(bytes) {
        Some(s) => s,
        None => "Binary Data<length="@ + decimal(len) + ">"@,
    }
}

fn show_bytes(bytes: &Vec<u8>, len: u64) -> (r: String)
    ensures
        r@ == bytes_text(bytes@, len as nat),
{
    match utf8_text(bytes.as_slice()) {
        Some(s) => s,
        None => joined("Binary Data<length=", format_unsigned(len as u128).as_str(), ">"),
    }
}

impl FrameView {
    /// The bytes that the message carries.
    pub open spec fn data(self) -> Seq<u8> {
        match self {
            FrameView::Text(s) => encode_utf8(s),
            FrameView::Binary(b) => b,
            FrameView::Ping(b) => b,
            FrameView::Pong(b) => b,
            FrameView::Close(None) => Seq::empty(),
            FrameView::Close(Some((_, reason))) => encode_utf8(reason),
            FrameView::Raw(b, _) => b,
        }
    }

    /// How the message is shown.
    pub open spec fn text(self) -> Seq<char> {
        match self {
            FrameView::Text(s) => s,
            FrameView::Binary(b) => bytes_text(b, b.len()),
            FrameView::Ping(b) => bytes_text(b, b.len()),
            FrameView::Pong(b) => bytes_text(b, b.len()),
            FrameView::Close(None) => ""@,
            FrameView::Close(Some((_, reason))) => reason,
            FrameView::Raw(b, len) => bytes_text(b, len as nat),
        }
    }
}

impl Frame {
    /// The bytes that the message carries.
    pub fn into_data(self) -> (r: Vec<u8>)
        ensures
            r@ == self@.data(),
    {
        match self {
            Frame::Text(s) => s.as_str().as_bytes_vec(),
            Frame::Binary(b) => b,
            Frame::Ping(b) => b,
            Frame::Pong(b) => b,
            Frame::Close(None) => {
                let out: Vec<u8> = Vec::new();
                assert(out@ =~= Seq::<u8>::empty());
                out
            },
            Frame::Close(Some((_, reason))) => reason.as_str().as_bytes_vec(),
            Frame::Raw(b, _) => b,
        }
    }

    /// Shows the message.
    pub fn to_string(&self) -> (r: String)
        ensures
            r@ == self@.text(),
    {
        match self {
            Frame::Text(s) => s.clone(),
            Frame::Binary(b) => show_bytes(b, b.len() as u64),
            Frame::Ping(b) => show_bytes(b, b.len() as u64),
            Frame::Pong(b) => show_bytes(b, b.len() as u64),
            Frame::Close(None) => "".to_owned(),
            Frame::Close(Some((_, reason))) => reason.clone(),
            Frame::Raw(b, len) => show_bytes(b, *len),
        }
    }
}

impl Clone for Frame {
    fn clone(&self) -> (r: Frame)
        ensures
            r@ == self@,
    {
        match self {
            Frame::Text(s) => Frame::Text(s.clone()),
            Frame::Binary(b) => Frame::Binary(copy_bytes(b)),
            Frame::Ping(b) => Frame::Ping(copy_bytes(b)),
            Frame::Pong(b) => Frame::Pong(copy_bytes(b)),
            Frame::Close(None) => Frame::Close(None),
            Frame::Close(Some((code, reason))) => Frame::Close(Some((*code, reason.clone()))),
            Frame::Raw(b, len) => Frame::Raw(copy_bytes(b), *len),
        }
    }
}

/// A WebSocket message does not hold what was to be read from it.
#[derive(Debug, PartialEq)]
pub enum DeserializationError {
    /// The message is neither text nor binary.
    UnexpectedMessageType(Frame),
    /// What the message carries cannot be read, and why.
    Json(String),
}

/// A [`DeserializationError`] as mathematics has it.
pub enum DeserializationErrorView {
    UnexpectedMessageType(FrameView),
    Json(Seq<char>),
}

impl Frame {
    /// A frame is seen as the one that it is, with what it holds.
    pub proof fn frames_are_seen(self)
        ensures
            self matches Frame::Text(s) ==> self@ == FrameView::Text(s@),
            self matches Frame::Binary(b) ==> self@ == FrameView::Binary(b@),
            self matches Frame::Ping(b) ==> self@ == FrameView::Ping(b@),
            self matches Frame::Pong(b) ==> self@ == FrameView::Pong(b@),
            self matches Frame::Close(None) ==> self@ == FrameView::Close(None),
            self matches Frame::Close(Some((code, reason))) ==> self@ == FrameView::Close(
                Some((code, reason@)),
            ),
            self matches Frame::Raw(b, len) ==> self@ == FrameView::Raw(b@, len),
    {
    }
}

impl View for DeserializationError {
    type V = DeserializationErrorView;

    open spec fn view(&self) -> DeserializationErrorView {
        match self {
            DeserializationError::UnexpectedMessageType(f) =>
                DeserializationErrorView::UnexpectedMessageType(f@),
            DeserializationError::Json(s) => DeserializationErrorView::Json(s@),
        }
    }
}

impl DeserializationErrorView {
    pub open spec fn text(self) -> Seq<char> {
        match self {
            DeserializationErrorView::UnexpectedMessageType(f) => "unexpected message type: "@
                + f.text() + ""@,
            DeserializationErrorView::Json(s) => "could not parse message JSON: "@ + s + ""@,
        }
    }
}

impl DeserializationError {
    /// Describes the error.
    pub fn to_string(&self) -> (r: String)
        ensures
            r@ == self@.text(),
    {
        match self {
            DeserializationError::UnexpectedMessageType(f) => joined(
                "unexpected message type: ",
                f.to_string().as_str(),
                "",
            ),
            DeserializationError::Json(s) => joined(
                "could not parse message JSON: ",
                s.as_str(),
                "",
            ),
        }
    }
}

/// The bytes of a WebSocket message that is text or binary.
pub open spec fn frame_bytes(f: FrameView) -> Option<Seq<u8>> {
    match f {
        FrameView::Text(s) => Some(encode_utf8(s)),
        FrameView::Binary(b) => Some(b),
        _ => None,
    }
}

/// Takes the bytes out of a WebSocket message that is text or binary.
pub(crate) fn take_bytes(frame: Frame) -> (r: Result<Vec<u8>, DeserializationError>)
    ensures
        match r {
            Ok(b) => frame_bytes(frame@) == Some(b@),
            Err(e) => frame_bytes(frame@) is None && e@
                == DeserializationErrorView::UnexpectedMessageType(frame@),
        },
{
    match frame {
        Frame::Text(s) => Ok(s.as_str().as_bytes_vec()),
        Frame::Binary(b) => Ok(b),
        x => Err(DeserializationError::UnexpectedMessageType(x)),
    }
}

/// An object with a type and two texts.
pub open spec fn two_texts(
    name: Seq<char>,
    first: Seq<char>,
    a: Seq<char>,
    second: Seq<char>,
    b: Seq<char>,
) -> JsonView {
    JsonView::Object(
        seq![
            ("type"@, JsonView::Text(name)),
            (first, JsonView::Text(a)),
            (second, JsonView::Text(b)),
        ],
    )
}

/// The fields in front of a payload.
pub open spec fn data_head(topic: Seq<char>) -> Seq<(Seq<char>, JsonView)> {
    seq![("type"@, JsonView::Text("data-message"@)), ("topic"@, JsonView::Text(topic))]
}

/// How a message is written as JSON. The fields of a payload stand beside its topic.
pub open spec fn message_encoded(m: MessageView, offset: Option<int>) -> Result<
    JsonView,
    EncodeErrorView,
> {
    match m {
        MessageView::Ack { endpoint, version } => Ok(
            two_texts("ack"@, "endpoint"@, endpoint, "version"@, version),
        ),
        MessageView::Error { code, context } => Ok(
            two_texts("error"@, "code"@, code, "context"@, context),
        ),
        MessageView::DataMessage { topic, data } => match encoded(data.value(), offset) {
            Ok(t) => Ok(JsonView::Object(data_head(topic) + t->Object_0)),
            Err(e) => Err(e),
        },
    }
}

/// A field stands among the fields.
pub open spec fn has_field(fields: Seq<(Seq<char>, JsonView)>, name: Seq<char>) -> bool {
    0 <= field_at(fields, name) < fields.len()
}

/// A field stands among the fields and holds no text.
pub open spec fn bad_text(fields: Seq<(Seq<char>, JsonView)>, name: Seq<char>) -> bool {
    has_field(fields, name) && !(fields[field_at(fields, name)].1 is Text)
}

/// How something that is not text is described.
pub open spec fn not_text(t: JsonView) -> DecodeErrorView {
    DecodeErrorView::InvalidType(invalid_type(t, "a string"@))
}

/// The texts of two fields, which are read in the order in which they stand.
pub open spec fn two_fields(
    fields: Seq<(Seq<char>, JsonView)>,
    first: Seq<char>,
    second: Seq<char>,
) -> Result<(Seq<char>, Seq<char>), DecodeErrorView> {
    let i = field_at(fields, first);
    let j = field_at(fields, second);
    if bad_text(fields, first) && !(bad_text(fields, second) && j < i) {
        Err(not_text(fields[i].1))
    } else if bad_text(fields, second) {
        Err(not_text(fields[j].1))
    } else if !has_field(fields, first) {
        Err(DecodeErrorView::MissingField(first))
    } else if !has_field(fields, second) {
        Err(DecodeErrorView::MissingField(second))
    } else {
        Ok((fields[i].1->Text_0, fields[j].1->Text_0))
    }
}

/// The name under which the context of an error stands first.
pub open spec fn context_name(fields: Seq<(Seq<char>, JsonView)>) -> Seq<char> {
    if has_field(fields, "message"@) && !(has_field(fields, "context"@) && field_at(
        fields,
        "context"@,
    ) < field_at(fields, "message"@)) {
        "message"@
    } else {
        "context"@
    }
}

/// The code and the context of an error. The context has two names, of which one may be used.
pub open spec fn error_fields(fields: Seq<(Seq<char>, JsonView)>) -> Result<
    (Seq<char>, Seq<char>),
    DecodeErrorView,
> {
    let name = context_name(fields);
    let i = field_at(fields, "code"@);
    let j = field_at(fields, name);
    let both = has_field(fields, "context"@) && has_field(fields, "message"@);
    let k = if name == "message"@ {
        field_at(fields, "context"@)
    } else {
        field_at(fields, "message"@)
    };
    if bad_text(fields, "code"@) && !(bad_text(fields, name) && j < i) && !(both && k < i) {
        Err(not_text(fields[i].1))
    } else if bad_text(fields, name) {
        Err(not_text(fields[j].1))
    } else if both {
        Err(DecodeErrorView::DuplicateField("context"@))
    } else if !has_field(fields, "code"@) {
        Err(DecodeErrorView::MissingField("code"@))
    } else if !has_field(fields, name) {
        Err(DecodeErrorView::MissingField("context"@))
    } else {
        Ok((fields[i].1->Text_0, fields[j].1->Text_0))
    }
}

/// The two texts behind the type in an array.
pub open spec fn two_items(items: Seq<JsonView>, expected: Seq<char>) -> Result<
    (Seq<char>, Seq<char>),
    DecodeErrorView,
> {
    if items.len() < 2 {
        Err(DecodeErrorView::InvalidLength(wrong_length(0, expected)))
    } else if !(items[1] is Text) {
        Err(not_text(items[1]))
    } else if items.len() < 3 {
        Err(DecodeErrorView::InvalidLength(wrong_length(1, expected)))
    } else if !(items[2] is Text) {
        Err(not_text(items[2]))
    } else if items.len() > 3 {
        Err(
            DecodeErrorView::InvalidLength(
                wrong_length((items.len() - 1) as nat, "2 elements in sequence"@),
            ),
        )
    } else {
        Ok((items[1]->Text_0, items[2]->Text_0))
    }
}

/// An ACK of two texts.
pub open spec fn ack_of(r: Result<(Seq<char>, Seq<char>), DecodeErrorView>) -> Result<
    MessageView,
    DecodeErrorView,
> {
    match r {
        Err(e) => Err(e),
        Ok(p) => Ok(MessageView::Ack { endpoint: p.0, version: p.1 }),
    }
}

/// An error of two texts.
pub open spec fn error_of(r: Result<(Seq<char>, Seq<char>), DecodeErrorView>) -> Result<
    MessageView,
    DecodeErrorView,
> {
    match r {
        Err(e) => Err(e),
        Ok(p) => Ok(MessageView::Error { code: p.0, context: p.1 }),
    }
}

/// The type that a tag of a message stands for.
pub open spec fn type_named(t: JsonView) -> Result<Seq<char>, DecodeErrorView> {
    match t {
        JsonView::Text(name) => if name == "ack"@ || name == "error"@ || name == "data-message"@ {
            Ok(name)
        } else {
            Err(DecodeErrorView::UnknownType(name))
        },
        _ => Err(DecodeErrorView::InvalidType(invalid_type(t, "variant identifier"@))),
    }
}

/// The type of a message: what its field of that name holds, or its first item.
pub open spec fn message_type(t: JsonView) -> Result<Seq<char>, DecodeErrorView> {
    match t {
        JsonView::Object(fields) => if has_field(fields, "type"@) {
            type_named(fields[field_at(fields, "type"@)].1)
        } else {
            Err(DecodeErrorView::MissingField("type"@))
        },
        JsonView::Array(items) => if items.len() > 0 {
            type_named(items[0])
        } else {
            Err(DecodeErrorView::MissingField("type"@))
        },
        _ => Err(DecodeErrorView::InvalidType(invalid_type(t, "internally tagged enum Message"@))),
    }
}

/// The topic and the payload of a data message. The payload is read from fields beside the topic.
pub open spec fn data_message(
    t: JsonView,
    fields: Seq<(Seq<char>, JsonView)>,
    offset: Option<int>,
) -> Result<MessageView, DecodeErrorView> {
    if bad_text(fields, "topic"@) {
        Err(not_text(fields[field_at(fields, "topic"@)].1))
    } else if !has_field(fields, "topic"@) {
        Err(DecodeErrorView::MissingField("topic"@))
    } else {
        match decoded(t, true, offset) {
            Err(e) => Err(e),
            Ok(v) => Ok(
                MessageView::DataMessage {
                    topic: fields[field_at(fields, "topic"@)].1->Text_0,
                    data: DataView::of(v),
                },
            ),
        }
    }
}

/// What a message is read from: an object with a type. An ACK or an error may also be an array
/// of the type and the two texts. All but the type is kept until the type is known.
pub open spec fn message_decoded(t: JsonView, offset: Option<int>) -> Result<
    MessageView,
    DecodeErrorView,
> {
    match message_type(t) {
        Err(e) => Err(e),
        Ok(name) => match t {
            JsonView::Object(fields) => if name == "ack"@ {
                ack_of(two_fields(fields, "endpoint"@, "version"@))
            } else if name == "error"@ {
                error_of(error_fields(fields))
            } else {
                data_message(t, fields, offset)
            },
            JsonView::Array(items) => if name == "ack"@ {
                ack_of(two_items(items, "struct variant Message::Ack with 2 elements"@))
            } else if name == "error"@ {
                error_of(two_items(items, "struct variant Message::Error with 2 elements"@))
            } else {
                Err(
                    DecodeErrorView::InvalidType(
                        "invalid type: sequence, expected struct variant Message::DataMessage"@,
                    ),
                )
            },
            _ => Err(DecodeErrorView::MissingField("type"@)),
        },
    }
}

fn read_type(j: &JsonValue) -> (r: Result<String, DecodeError>)
    ensures
        match r {
            Ok(s) => type_named(json_tree(*j)) == Ok::<Seq<char>, DecodeErrorView>(s@),
            Err(e) => type_named(json_tree(*j)) == Err::<Seq<char>, DecodeErrorView>(e@),
        },
{
    match j.as_str() {
        Some(s) => if same_text(s, "ack") || same_text(s, "error") || same_text(s, "data-message") {
            Ok(s.to_owned())
        } else {
            Err(DecodeError::UnknownType(s.to_owned()))
        },
        None => Err(DecodeError::InvalidType(json_invalid_type(j, "variant identifier"))),
    }
}

/// Reads the type of a message.
pub(crate) fn read_message_type(j: &JsonValue) -> (r: Result<String, DecodeError>)
    ensures
        match r {
            Ok(s) => message_type(json_tree(*j)) == Ok::<Seq<char>, DecodeErrorView>(s@),
            Err(e) => message_type(json_tree(*j)) == Err::<Seq<char>, DecodeErrorView>(e@),
        },
{
    if let Some(items) = j.as_array() {
        if items.len() == 0 {
            return Err(DecodeError::MissingField("type".to_owned()));
        }
        assert(json_tree(*j)->Array_0[0] == json_tree(items@[0]));
        read_type(&items[0])
    } else if let Some(entries) = json_entries(j) {
        let i: usize = find_entry(&entries, "type");
        if i >= entries.len() {
            return Err(DecodeError::MissingField("type".to_owned()));
        }
        assert(json_tree(*j)->Object_0[i as int].1 == json_tree(*entries@[i as int].1));
        read_type(entries[i].1)
    } else {
        Err(DecodeError::InvalidType(json_invalid_type(j, "internally tagged enum Message")))
    }
}

fn describe_not_text(j: &JsonValue) -> (e: DecodeError)
    ensures
        e@ == not_text(json_tree(*j)),
{
    DecodeError::InvalidType(json_invalid_type(j, "a string"))
}

fn read_two_fields(entries: &Vec<(&String, &JsonValue)>, first: &str, second: &str) -> (r: Result<
    (String, String),
    DecodeError,
>)
    ensures
        match r {
            Ok(p) => two_fields(entry_views(entries@), first@, second@) == Ok::<
                (Seq<char>, Seq<char>),
                DecodeErrorView,
            >((p.0@, p.1@)),
            Err(e) => two_fields(entry_views(entries@), first@, second@) == Err::<
                (Seq<char>, Seq<char>),
                DecodeErrorView,
            >(e@),
        },
{
    let ghost fields = entry_views(entries@);
    let i: usize = find_entry(entries, first);
    let j: usize = find_entry(entries, second);
    let n: usize = entries.len();
    proof {
        if i < n {
            assert(fields[i as int].1 == json_tree(*entries@[i as int].1));
        }
        if j < n {
            assert(fields[j as int].1 == json_tree(*entries@[j as int].1));
        }
    }
    let a: Option<&str> = if i < n {
        entries[i].1.as_str()
    } else {
        None
    };
    let b: Option<&str> = if j < n {
        entries[j].1.as_str()
    } else {
        None
    };
    let bad_first = i < n && a.is_none();
    let bad_second = j < n && b.is_none();
    if bad_first && !(bad_second && j < i) {
        return Err(describe_not_text(entries[i].1));
    }
    if bad_second {
        return Err(describe_not_text(entries[j].1));
    }
    match a {
        None => Err(DecodeError::MissingField(first.to_owned())),
        Some(a) => match b {
            None => Err(DecodeError::MissingField(second.to_owned())),
            Some(b) => Ok((a.to_owned(), b.to_owned())),
        },
    }
}

fn read_error_fields(entries: &Vec<(&String, &JsonValue)>) -> (r: Result<
    (String, String),
    DecodeError,
>)
    ensures
        match r {
            Ok(p) => error_fields(entry_views(entries@)) == Ok::<
                (Seq<char>, Seq<char>),
                DecodeErrorView,
            >((p.0@, p.1@)),
            Err(e) => error_fields(entry_views(entries@)) == Err::<
                (Seq<char>, Seq<char>),
                DecodeErrorView,
            >(e@),
        },
{
    proof {
        lemma_field_names();
    }
    let ghost fields = entry_views(entries@);
    let n: usize = entries.len();
    let i: usize = find_entry(entries, "code");
    let c: usize = find_entry(entries, "context");
    let m: usize = find_entry(entries, "message");
    let by_message = m < n && !(c < n && c < m);
    let (j, k): (usize, usize) = if by_message {
        (m, c)
    } else {
        (c, m)
    };
    let both = c < n && m < n;
    proof {
        if i < n {
            assert(fields[i as int].1 == json_tree(*entries@[i as int].1));
        }
        if j < n {
            assert(fields[j as int].1 == json_tree(*entries@[j as int].1));
        }
    }
    let a: Option<&str> = if i < n {
        entries[i].1.as_str()
    } else {
        None
    };
    let b: Option<&str> = if j < n {
        entries[j].1.as_str()
    } else {
        None
    };
    let bad_code = i < n && a.is_none();
    let bad_context = j < n && b.is_none();
    if bad_code && !(bad_context && j < i) && !(both && k < i) {
        return Err(describe_not_text(entries[i].1));
    }
    if bad_context {
        return Err(describe_not_text(entries[j].1));
    }
    if both {
        return Err(DecodeError::DuplicateField("context".to_owned()));
    }
    match a {
        None => Err(DecodeError::MissingField("code".to_owned())),
        Some(a) => match b {
            None => Err(DecodeError::MissingField("context".to_owned())),
            Some(b) => Ok((a.to_owned(), b.to_owned())),
        },
    }
}

fn read_two_items(items: &Vec<JsonValue>, expected: &str) -> (r: Result<
    (String, String),
    DecodeError,
>)
    ensures
        match r {
            Ok(p) => two_items(json_trees(items@), expected@) == Ok::<
                (Seq<char>, Seq<char>),
                DecodeErrorView,
            >((p.0@, p.1@)),
            Err(e) => two_items(json_trees(items@), expected@) == Err::<
                (Seq<char>, Seq<char>),
                DecodeErrorView,
            >(e@),
        },
{
    let n: usize = items.len();
    if n < 2 {
        return Err(DecodeError::InvalidLength(describe_length(0, expected)));
    }
    assert(json_trees(items@)[1] == json_tree(items@[1]));
    let a = match items[1].as_str() {
        Some(a) => a.to_owned(),
        None => {
            return Err(describe_not_text(&items[1]));
        },
    };
    if n < 3 {
        return Err(DecodeError::InvalidLength(describe_length(1, expected)));
    }
    assert(json_trees(items@)[2] == json_tree(items@[2]));
    let b = match items[2].as_str() {
        Some(b) => b.to_owned(),
        None => {
            return Err(describe_not_text(&items[2]));
        },
    };
    if n > 3 {
        return Err(DecodeError::InvalidLength(describe_length(n - 1, "2 elements in sequence")));
    }
    Ok((a, b))
}

fn pair_json(name: &str, first: &str, a: &str, second: &str, b: &str) -> (r: JsonValue)
    requires
        first@ != "type"@,
        second@ != "type"@,
        first@ != second@,
    ensures
        json_tree(r) == two_texts(name@, first@, a@, second@, b@),
{
    let mut fields: Vec<(String, JsonValue)> = Vec::new();
    fields.push(("type".to_owned(), json_text(name)));
    fields.push((first.to_owned(), json_text(a)));
    fields.push((second.to_owned(), json_text(b)));
    assert(json_fields(fields@) =~= two_texts(name@, first@, a@, second@, b@)->Object_0);
    json_object(fields)
}

/// The names of fields differ.
proof fn lemma_field_names()
    ensures
        "type"@ != "endpoint"@,
        "type"@ != "version"@,
        "endpoint"@ != "version"@,
        "type"@ != "code"@,
        "type"@ != "context"@,
        "code"@ != "context"@,
        "type"@ != "topic"@,
        "type"@ != "message"@,
        "code"@ != "message"@,
        "context"@ != "message"@,
        "@data-type"@ != "data"@,
        "type"@ != "@data-type"@,
        "topic"@ != "@data-type"@,
        "type"@ != "data"@,
        "topic"@ != "data"@,
        "ack"@ != "error"@,
        "ack"@ != "data-message"@,
        "error"@ != "data-message"@,
{
    reveal_strlit("type");
    reveal_strlit("endpoint");
    reveal_strlit("version");
    reveal_strlit("code");
    reveal_strlit("context");
    reveal_strlit("message");
    reveal_strlit("topic");
    reveal_strlit("@data-type");
    reveal_strlit("data");
    reveal_strlit("ack");
    reveal_strlit("error");
    reveal_strlit("data-message");
    assert("type"@[0] != "code"@[0]);
    assert("type"@[0] != "data"@[0]);
    assert("context"@[0] != "message"@[0]);
    assert("endpoint"@.len() == 8);
    assert("type"@.len() == 4);
    assert("version"@.len() == 7);
    assert("context"@.len() == 7);
    assert("code"@.len() == 4);
    assert("topic"@.len() == 5);
    assert("message"@.len() == 7);
    assert("@data-type"@.len() == 10);
    assert("data"@.len() == 4);
    assert("ack"@.len() == 3);
    assert("error"@.len() == 5);
    assert("data-message"@.len() == 12);
}

/// Fields behind others that are not meant are found where they were.
proof fn lemma_field_behind(
    head: Seq<(Seq<char>, JsonView)>,
    rest: Seq<(Seq<char>, JsonView)>,
    name: Seq<char>,
)
    requires
        forall|i: int| 0 <= i < head.len() ==> (#[trigger] head[i]).0 != name,
    ensures
        field_at(head + rest, name) == head.len() + field_at(rest, name),
    decreases head.len(),
{
    if head.len() > 0 {
        assert((head + rest).drop_first() =~= head.drop_first() + rest);
        lemma_field_behind(head.drop_first(), rest, name);
    } else {
        assert(head + rest =~= rest);
    }
}

/// The three fields of an ACK or an error.
proof fn lemma_two_texts(
    name: Seq<char>,
    first: Seq<char>,
    a: Seq<char>,
    second: Seq<char>,
    b: Seq<char>,
)
    requires
        first != "type"@,
        second != "type"@,
        first != second,
    ensures
        ({
            let fields = two_texts(name, first, a, second, b)->Object_0;
            &&& field_at(fields, "type"@) == 0
            &&& field_at(fields, first) == 1
            &&& field_at(fields, second) == 2
            &&& forall|other: Seq<char>|
                other != "type"@ && other != first && other != second ==> #[trigger] field_at(
                    fields,
                    other,
                ) == 3
        }),
{
    let f0 = two_texts(name, first, a, second, b)->Object_0;
    let f1 = f0.drop_first();
    let f2 = f1.drop_first();
    let f3 = f2.drop_first();
    assert(f1[0] == (first, JsonView::Text(a)));
    assert(f2[0] == (second, JsonView::Text(b)));
    assert(f3.len() == 0);
    assert forall|n: Seq<char>| #[trigger] field_at(f0, n) == if n == "type"@ {
        0int
    } else if n == first {
        1
    } else if n == second {
        2
    } else {
        3
    } by {
        reveal_with_fuel(field_at, 4);
    }
}

/// The event with its points in time given in local time.
pub open spec fn localized_event(e: EventView, offset: Option<int>) -> EventView {
    EventView {
        name: e.name,
        args: localized_all(e.args, offset),
        metadata: localized_all(e.metadata, offset),
    }
}

/// The payload with its points in time given in local time.
pub open spec fn localized_data(d: DataView, offset: Option<int>) -> DataView {
    match d {
        DataView::Event(e) => DataView::Event(localized_event(e, offset)),
        DataView::Other(v) => DataView::Other(localized(v, offset)),
    }
}

/// The message with its points in time given in local time.
pub open spec fn localized_message(m: MessageView, offset: Option<int>) -> MessageView {
    match m {
        MessageView::DataMessage { topic, data } => MessageView::DataMessage {
            topic,
            data: localized_data(data, offset),
        },
        _ => m,
    }
}

/// Where its points in time are given does not matter to whether a message counts as equal.
pub proof fn localized_message_is_same(m: MessageView, offset: Option<int>)
    ensures
        localized_message(m, offset).same(m),
{
    match m {
        MessageView::DataMessage { topic, data: DataView::Event(e) } => {
            localized_is_same(ValueView::Vector(e.args), offset);
            localized_is_same(ValueView::Vector(e.metadata), offset);
            lemma_order_key(ValueView::Vector(e.args));
            lemma_order_key(ValueView::Vector(localized_all(e.args, offset)));
            lemma_order_key(ValueView::Vector(e.metadata));
            lemma_order_key(ValueView::Vector(localized_all(e.metadata, offset)));
        },
        MessageView::DataMessage { topic, data: DataView::Other(v) } => {
            localized_is_same(v, offset);
        },
        _ => {},
    }
}

/// The event that a value carries does not depend on where points in time are given.
proof fn lemma_localized_event(v: ValueView, offset: Option<int>)
    ensures
        event_in(localized(v, offset)) == match event_in(v) {
            Some(e) => Some(localized_event(e, offset)),
            None => None,
        },
{
    if let ValueView::Vector(xs) = v {
        let ys = localized_all(xs, offset);
        if xs.len() > 2 {
            assert(ys[1] == localized(xs[1], offset));
            assert(ys[2] == localized(xs[2], offset));
            if let ValueView::Vector(data) = xs[2] {
                let local = localized_all(data, offset);
                if data.len() > 1 {
                    assert(local[0] == localized(data[0], offset));
                    assert(local[1] == localized(data[1], offset));
                    if data.len() > 2 {
                        assert(local[2] == localized(data[2], offset));
                        assert(localized_all(seq![data[2]], offset) =~= seq![local[2]]);
                    }
                    assert(localized_all(Seq::empty(), offset) =~= Seq::empty());
                    assert(metadata_in(local) =~= localized_all(metadata_in(data), offset));
                }
            }
        }
    }
}

/// The payload in a value that stands for one, with points in time given in local time.
proof fn lemma_localized_data(d: DataView, offset: Option<int>)
    requires
        d.unambiguous(),
    ensures
        DataView::of(localized(d.value(), offset)) == localized_data(d, offset),
{
    lemma_localized_event(d.value(), offset);
    d.value_reads_back();
}

/// What is written of a message is read back as the message, with its points in time given in
/// local time, unless a number in it is an infinity or a NaN, or its payload is a value that
/// carries an event but was not recognised as one.
pub proof fn message_reads_back(m: MessageView, offset: Option<int>)
    requires
        message_encoded(m, offset) is Ok,
        m matches MessageView::DataMessage { topic, data } ==> data.unambiguous() && settled(
            data.value(),
            offset,
        ) && all_finite(data.value()),
    ensures
        message_decoded(message_encoded(m, offset)->Ok_0, offset) == Ok::<
            MessageView,
            DecodeErrorView,
        >(localized_message(m, offset)),
{
    lemma_field_names();
    let t = message_encoded(m, offset)->Ok_0;
    match m {
        MessageView::Ack { endpoint, version } => {
            lemma_two_texts("ack"@, "endpoint"@, endpoint, "version"@, version);
        },
        MessageView::Error { code, context } => {
            lemma_two_texts("error"@, "code"@, code, "context"@, context);
            assert(!has_field(t->Object_0, "message"@));
        },
        MessageView::DataMessage { topic, data } => {
            let v = data.value();
            let inner = encoded(v, offset)->Ok_0;
            let fields = t->Object_0;
            let head = data_head(topic);
            encoding_reads_back(v, true, offset);
            lemma_localized_data(data, offset);
            lemma_encoded_tagged(v, offset);
            lemma_tagged(Kind::of(v), inner->Object_0[1].1);
            lemma_field_behind(head, inner->Object_0, "@data-type"@);
            lemma_field_behind(head, inner->Object_0, "data"@);
            assert(fields[2] == inner->Object_0[0]);
            assert(fields[3] == inner->Object_0[1]);
            assert(decoded(t, true, offset) == decoded(inner, true, offset));
            assert(fields[0].0 == "type"@);
            assert(fields.drop_first()[0] == fields[1]);
            reveal_with_fuel(field_at, 2);
            assert(field_at(fields, "type"@) == 0);
            assert(field_at(fields, "topic"@) == 1);
        },
    }
}

/// An ACK is written as an object of its type and its two texts, an error likewise, and a data
/// message as an object of its type, its topic, and the tag and the data of its payload.
pub proof fn messages_in_writing(
    a: Seq<char>,
    b: Seq<char>,
    data: DataView,
    offset: Option<int>,
)
    ensures
        message_encoded(MessageView::Ack { endpoint: a, version: b }, offset) == Ok::<
            JsonView,
            EncodeErrorView,
        >(
            JsonView::Object(
                seq![
                    ("type"@, JsonView::Text("ack"@)),
                    ("endpoint"@, JsonView::Text(a)),
                    ("version"@, JsonView::Text(b)),
                ],
            ),
        ),
        message_encoded(MessageView::Error { code: a, context: b }, offset) == Ok::<
            JsonView,
            EncodeErrorView,
        >(
            JsonView::Object(
                seq![
                    ("type"@, JsonView::Text("error"@)),
                    ("code"@, JsonView::Text(a)),
                    ("context"@, JsonView::Text(b)),
                ],
            ),
        ),
        forall|tag: JsonView, d: JsonView|
            encoded(data.value(), offset) == Ok::<JsonView, EncodeErrorView>(
                JsonView::Object(#[trigger] seq![("@data-type"@, tag), ("data"@, d)]),
            ) ==> message_encoded(MessageView::DataMessage { topic: a, data }, offset) == Ok::<
                JsonView,
                EncodeErrorView,
            >(
                JsonView::Object(
                    seq![
                        ("type"@, JsonView::Text("data-message"@)),
                        ("topic"@, JsonView::Text(a)),
                        ("@data-type"@, tag),
                        ("data"@, d),
                    ],
                ),
            ),
        encoded(data.value(), offset) matches Err(e) ==> message_encoded(
            MessageView::DataMessage { topic: a, data },
            offset,
        ) == Err::<JsonView, EncodeErrorView>(e),
{
    assert forall|tag: JsonView, d: JsonView|
        encoded(data.value(), offset) == Ok::<JsonView, EncodeErrorView>(
            JsonView::Object(#[trigger] seq![("@data-type"@, tag), ("data"@, d)]),
        ) implies message_encoded(MessageView::DataMessage { topic: a, data }, offset) == Ok::<
        JsonView,
        EncodeErrorView,
    >(
        JsonView::Object(
            seq![
                ("type"@, JsonView::Text("data-message"@)),
                ("topic"@, JsonView::Text(a)),
                ("@data-type"@, tag),
                ("data"@, d),
            ],
        ),
    ) by {
        assert(data_head(a) + seq![("@data-type"@, tag), ("data"@, d)] =~= seq![
            ("type"@, JsonView::Text("data-message"@)),
            ("topic"@, JsonView::Text(a)),
            ("@data-type"@, tag),
            ("data"@, d),
        ]);
    }
}

/// A field stands first at a place.
pub open spec fn stands_at(
    fields: Seq<(Seq<char>, JsonView)>,
    name: Seq<char>,
    at: int,
    t: JsonView,
) -> bool {
    0 <= at < fields.len() && fields[at] == (name, t) && forall|i: int|
        0 <= i < at ==> (#[trigger] fields[i]).0 != name
}

/// A field does not stand among the fields.
pub open spec fn stands_nowhere(fields: Seq<(Seq<char>, JsonView)>, name: Seq<char>) -> bool {
    forall|i: int| 0 <= i < fields.len() ==> (#[trigger] fields[i]).0 != name
}

proof fn lemma_stands(fields: Seq<(Seq<char>, JsonView)>, name: Seq<char>, at: int, t: JsonView)
    requires
        stands_at(fields, name, at, t),
    ensures
        field_at(fields, name) == at,
        has_field(fields, name),
        fields[field_at(fields, name)].1 == t,
{
    fields_are_found(fields, name, at);
}

proof fn lemma_stands_nowhere(fields: Seq<(Seq<char>, JsonView)>, name: Seq<char>)
    requires
        stands_nowhere(fields, name),
    ensures
        field_at(fields, name) == fields.len(),
        !has_field(fields, name),
{
    fields_are_found(fields, name, fields.len() as int);
}

/// A message is read by its type from the fields that it has, wherever they stand among others. An
/// ACK has an endpoint and a version.
pub proof fn acks_are_read(
    fields: Seq<(Seq<char>, JsonView)>,
    at: (int, int, int),
    endpoint: Seq<char>,
    version: Seq<char>,
    offset: Option<int>,
)
    requires
        stands_at(fields, "type"@, at.0, JsonView::Text("ack"@)),
        stands_at(fields, "endpoint"@, at.1, JsonView::Text(endpoint)),
        stands_at(fields, "version"@, at.2, JsonView::Text(version)),
    ensures
        message_decoded(JsonView::Object(fields), offset) == Ok::<MessageView, DecodeErrorView>(
            MessageView::Ack { endpoint, version },
        ),
{
    lemma_field_names();
    lemma_stands(fields, "type"@, at.0, JsonView::Text("ack"@));
    lemma_stands(fields, "endpoint"@, at.1, JsonView::Text(endpoint));
    lemma_stands(fields, "version"@, at.2, JsonView::Text(version));
}

/// An error has a code and a context, which may be named a message instead.
pub proof fn errors_are_read(
    fields: Seq<(Seq<char>, JsonView)>,
    at: (int, int, int),
    code: Seq<char>,
    context: Seq<char>,
    offset: Option<int>,
)
    requires
        stands_at(fields, "type"@, at.0, JsonView::Text("error"@)),
        stands_at(fields, "code"@, at.1, JsonView::Text(code)),
        (stands_at(fields, "context"@, at.2, JsonView::Text(context)) && stands_nowhere(
            fields,
            "message"@,
        )) || (stands_at(fields, "message"@, at.2, JsonView::Text(context)) && stands_nowhere(
            fields,
            "context"@,
        )),
    ensures
        message_decoded(JsonView::Object(fields), offset) == Ok::<MessageView, DecodeErrorView>(
            MessageView::Error { code, context },
        ),
{
    lemma_field_names();
    lemma_stands(fields, "type"@, at.0, JsonView::Text("error"@));
    lemma_stands(fields, "code"@, at.1, JsonView::Text(code));
    if stands_nowhere(fields, "message"@) {
        lemma_stands(fields, "context"@, at.2, JsonView::Text(context));
        lemma_stands_nowhere(fields, "message"@);
    } else {
        lemma_stands(fields, "message"@, at.2, JsonView::Text(context));
        lemma_stands_nowhere(fields, "context"@);
    }
}

/// A data message has a topic and, beside it, the tag and the data of a value: it carries the event
/// that the value carries, or the value itself where it carries none. What is wrong with the value
/// is wrong with the message.
pub proof fn data_is_read(
    fields: Seq<(Seq<char>, JsonView)>,
    at: (int, int),
    topic: Seq<char>,
    offset: Option<int>,
)
    requires
        stands_at(fields, "type"@, at.0, JsonView::Text("data-message"@)),
        stands_at(fields, "topic"@, at.1, JsonView::Text(topic)),
    ensures
        match decoded(JsonView::Object(fields), true, offset) {
            Ok(v) => message_decoded(JsonView::Object(fields), offset) == Ok::<
                MessageView,
                DecodeErrorView,
            >(
                MessageView::DataMessage {
                    topic,
                    data: match event_in(v) {
                        Some(e) => DataView::Event(e),
                        None => DataView::Other(v),
                    },
                },
            ),
            Err(e) => message_decoded(JsonView::Object(fields), offset) == Err::<
                MessageView,
                DecodeErrorView,
            >(e),
        },
{
    lemma_field_names();
    lemma_stands(fields, "type"@, at.0, JsonView::Text("data-message"@));
    lemma_stands(fields, "topic"@, at.1, JsonView::Text(topic));
}

/// An event without metadata that comes in a data message is read with its topic, its name and all
/// of its arguments in their order.
pub proof fn plain_events_are_read(
    topic: Seq<char>,
    name: Seq<char>,
    args: Seq<JsonView>,
    offset: Option<int>,
)
    requires
        forall|i: int| 0 <= i < args.len() ==> decoded(#[trigger] args[i], true, offset) is Ok,
    ensures
        ({
            let value = |kind: Seq<char>, d: JsonView|
                JsonView::Object(seq![("@data-type"@, JsonView::Text(kind)), ("data"@, d)]);
            let one = value("count"@, JsonView::Unsigned(1));
            let event = value(
                "vector"@,
                JsonView::Array(
                    seq![
                        value("string"@, JsonView::Text(name)),
                        value("vector"@, JsonView::Array(args)),
                    ],
                ),
            );
            message_decoded(
                JsonView::Object(
                    seq![
                        ("type"@, JsonView::Text("data-message"@)),
                        ("topic"@, JsonView::Text(topic)),
                        ("@data-type"@, JsonView::Text("vector"@)),
                        ("data"@, JsonView::Array(seq![one, one, event])),
                    ],
                ),
                offset,
            ) == Ok::<MessageView, DecodeErrorView>(
                MessageView::DataMessage {
                    topic,
                    data: DataView::Event(
                        EventView {
                            name,
                            args: Seq::new(
                                args.len(),
                                |i: int| decoded(args[i], true, offset)->Ok_0,
                            ),
                            metadata: Seq::empty(),
                        },
                    ),
                },
            )
        }),
{
    let value = |kind: Seq<char>, d: JsonView|
        JsonView::Object(seq![("@data-type"@, JsonView::Text(kind)), ("data"@, d)]);
    let one = value("count"@, JsonView::Unsigned(1));
    let text = value("string"@, JsonView::Text(name));
    let list = value("vector"@, JsonView::Array(args));
    let event = value("vector"@, JsonView::Array(seq![text, list]));
    let items = seq![one, one, event];
    let values = Seq::new(args.len(), |i: int| decoded(args[i], true, offset)->Ok_0);
    let v_one = ValueView::Count(1);
    let v_text = ValueView::String(name);
    let v_list = ValueView::Vector(values);
    let v_event = ValueView::Vector(seq![v_text, v_list]);
    let zero = Real { bits: 0 };
    assert(decoded(one, true, offset) == Ok::<ValueView, DecodeErrorView>(v_one) && decoded(
        text,
        true,
        offset,
    ) == Ok::<ValueView, DecodeErrorView>(v_text)) by {
        scalars_are_read(true, 1, i64::MIN, zero, name, JsonView::Null, true, offset);
    }
    lemma_vector_read(args, values, offset);
    lemma_vector_read(seq![text, list], seq![v_text, v_list], offset);
    lemma_vector_read(items, seq![v_one, v_one, v_event], offset);
    lemma_event_message(topic, name, values, items, offset);
}

/// A vector is read from an array of what its values are read from.
proof fn lemma_vector_read(items: Seq<JsonView>, values: Seq<ValueView>, offset: Option<int>)
    requires
        items.len() == values.len(),
        forall|i: int|
            0 <= i < items.len() ==> decoded(#[trigger] items[i], true, offset) == Ok::<
                ValueView,
                DecodeErrorView,
            >(values[i]),
    ensures
        decoded(
            JsonView::Object(
                seq![
                    ("@data-type"@, JsonView::Text("vector"@)),
                    ("data"@, JsonView::Array(items)),
                ],
            ),
            true,
            offset,
        ) == Ok::<ValueView, DecodeErrorView>(ValueView::Vector(values)),
{
    sequences_are_read(items, true, offset);
    assert(Seq::new(items.len(), |i: int| decoded(items[i], true, offset)->Ok_0) =~= values);
}

/// A message whose payload is read as what carries an event without metadata.
proof fn lemma_event_message(
    topic: Seq<char>,
    name: Seq<char>,
    args: Seq<ValueView>,
    items: Seq<JsonView>,
    offset: Option<int>,
)
    requires
        decoded(
            JsonView::Object(
                seq![
                    ("@data-type"@, JsonView::Text("vector"@)),
                    ("data"@, JsonView::Array(items)),
                ],
            ),
            true,
            offset,
        ) == Ok::<ValueView, DecodeErrorView>(
            ValueView::Vector(
                seq![
                    ValueView::Count(1),
                    ValueView::Count(1),
                    ValueView::Vector(seq![ValueView::String(name), ValueView::Vector(args)]),
                ],
            ),
        ),
    ensures
        message_decoded(
            JsonView::Object(
                seq![
                    ("type"@, JsonView::Text("data-message"@)),
                    ("topic"@, JsonView::Text(topic)),
                    ("@data-type"@, JsonView::Text("vector"@)),
                    ("data"@, JsonView::Array(items)),
                ],
            ),
            offset,
        ) == Ok::<MessageView, DecodeErrorView>(
            MessageView::DataMessage {
                topic,
                data: DataView::Event(EventView { name, args, metadata: Seq::empty() }),
            },
        ),
{
    let fields = seq![
        ("type"@, JsonView::Text("data-message"@)),
        ("topic"@, JsonView::Text(topic)),
        ("@data-type"@, JsonView::Text("vector"@)),
        ("data"@, JsonView::Array(items)),
    ];
    let parts = seq![
        ValueView::Count(1),
        ValueView::Count(1),
        ValueView::Vector(seq![ValueView::String(name), ValueView::Vector(args)]),
    ];
    lemma_field_names();
    fields_in_any_order(fields, 2, 3, true, offset);
    assert(parts + Seq::<ValueView>::empty() =~= parts);
    event_without_metadata(ValueView::Count(1), name, args, Seq::empty());
    data_is_read(fields, (0, 1), topic, offset);
}

/// An array of the type and two texts stands for an ACK or an error; no array stands for a data
/// message, and arrays of other lengths are refused.
pub proof fn arrays_are_read(
    a: Seq<char>,
    b: Seq<char>,
    items: Seq<JsonView>,
    offset: Option<int>,
)
    ensures
        message_decoded(
            JsonView::Array(
                seq![JsonView::Text("ack"@), JsonView::Text(a), JsonView::Text(b)],
            ),
            offset,
        ) == Ok::<MessageView, DecodeErrorView>(MessageView::Ack { endpoint: a, version: b }),
        message_decoded(
            JsonView::Array(
                seq![JsonView::Text("error"@), JsonView::Text(a), JsonView::Text(b)],
            ),
            offset,
        ) == Ok::<MessageView, DecodeErrorView>(MessageView::Error { code: a, context: b }),
        items.len() != 3 ==> message_decoded(JsonView::Array(items), offset) is Err,
        items.len() > 0 && items[0] == JsonView::Text("data-message"@) ==> message_decoded(
            JsonView::Array(items),
            offset,
        ) is Err,
{
    lemma_field_names();
    let ack = seq![JsonView::Text("ack"@), JsonView::Text(a), JsonView::Text(b)];
    let error = seq![JsonView::Text("error"@), JsonView::Text(a), JsonView::Text(b)];
    assert(ack[0] == JsonView::Text("ack"@) && ack[1] == JsonView::Text(a) && ack[2]
        == JsonView::Text(b));
    assert(error[0] == JsonView::Text("error"@) && error[1] == JsonView::Text(a) && error[2]
        == JsonView::Text(b));
}

/// A message needs a type, of which there are three, and the fields of its type; what is missing
/// or wrong is named.
pub proof fn message_fields_are_required(
    fields: Seq<(Seq<char>, JsonView)>,
    at: int,
    name: Seq<char>,
    offset: Option<int>,
)
    ensures
        stands_nowhere(fields, "type"@) ==> message_decoded(JsonView::Object(fields), offset)
            == Err::<MessageView, DecodeErrorView>(DecodeErrorView::MissingField("type"@)),
        stands_at(fields, "type"@, at, JsonView::Text(name)) && name != "ack"@ && name != "error"@
            && name != "data-message"@ ==> message_decoded(JsonView::Object(fields), offset)
            == Err::<MessageView, DecodeErrorView>(DecodeErrorView::UnknownType(name)),
        stands_at(fields, "type"@, at, JsonView::Text("ack"@)) && stands_nowhere(
            fields,
            "endpoint"@,
        ) && stands_nowhere(fields, "version"@) ==> message_decoded(
            JsonView::Object(fields),
            offset,
        ) == Err::<MessageView, DecodeErrorView>(DecodeErrorView::MissingField("endpoint"@)),
        stands_at(fields, "type"@, at, JsonView::Text("error"@)) && stands_nowhere(fields, "code"@)
            && stands_nowhere(fields, "context"@) && stands_nowhere(fields, "message"@)
            ==> message_decoded(JsonView::Object(fields), offset) == Err::<
            MessageView,
            DecodeErrorView,
        >(DecodeErrorView::MissingField("code"@)),
        stands_at(fields, "type"@, at, JsonView::Text("data-message"@)) && stands_nowhere(
            fields,
            "topic"@,
        ) ==> message_decoded(JsonView::Object(fields), offset) == Err::<
            MessageView,
            DecodeErrorView,
        >(DecodeErrorView::MissingField("topic"@)),
{
    lemma_field_names();
    if stands_nowhere(fields, "type"@) {
        lemma_stands_nowhere(fields, "type"@);
    }
    if stands_at(fields, "type"@, at, JsonView::Text(name)) {
        lemma_stands(fields, "type"@, at, JsonView::Text(name));
    }
    if stands_at(fields, "type"@, at, JsonView::Text("ack"@)) && stands_nowhere(
        fields,
        "endpoint"@,
    ) && stands_nowhere(fields, "version"@) {
        lemma_stands(fields, "type"@, at, JsonView::Text("ack"@));
        lemma_stands_nowhere(fields, "endpoint"@);
        lemma_stands_nowhere(fields, "version"@);
    }
    if stands_at(fields, "type"@, at, JsonView::Text("error"@)) && stands_nowhere(fields, "code"@)
        && stands_nowhere(fields, "context"@) && stands_nowhere(fields, "message"@) {
        lemma_stands(fields, "type"@, at, JsonView::Text("error"@));
        lemma_stands_nowhere(fields, "code"@);
        lemma_stands_nowhere(fields, "context"@);
        lemma_stands_nowhere(fields, "message"@);
    }
    if stands_at(fields, "type"@, at, JsonView::Text("data-message"@)) && stands_nowhere(
        fields,
        "topic"@,
    ) {
        lemma_stands(fields, "type"@, at, JsonView::Text("data-message"@));
        lemma_stands_nowhere(fields, "topic"@);
    }
}

/// Of the two fields of an ACK or an error one does not stand for the other: where only one of them
/// is there, the other is missing; and a context under both of its names is one too many.
pub proof fn half_messages_are_refused(
    fields: Seq<(Seq<char>, JsonView)>,
    at: (int, int, int, int),
    s: Seq<char>,
    t: Seq<char>,
    u: Seq<char>,
    offset: Option<int>,
)
    ensures
        stands_at(fields, "type"@, at.0, JsonView::Text("ack"@)) && stands_at(
            fields,
            "endpoint"@,
            at.1,
            JsonView::Text(s),
        ) && stands_nowhere(fields, "version"@) ==> message_decoded(
            JsonView::Object(fields),
            offset,
        ) == Err::<MessageView, DecodeErrorView>(DecodeErrorView::MissingField("version"@)),
        stands_at(fields, "type"@, at.0, JsonView::Text("error"@)) && stands_at(
            fields,
            "code"@,
            at.1,
            JsonView::Text(s),
        ) && stands_nowhere(fields, "context"@) && stands_nowhere(fields, "message"@)
            ==> message_decoded(JsonView::Object(fields), offset) == Err::<
            MessageView,
            DecodeErrorView,
        >(DecodeErrorView::MissingField("context"@)),
        stands_at(fields, "type"@, at.0, JsonView::Text("error"@)) && stands_at(
            fields,
            "code"@,
            at.1,
            JsonView::Text(s),
        ) && stands_at(fields, "context"@, at.2, JsonView::Text(t)) && stands_at(
            fields,
            "message"@,
            at.3,
            JsonView::Text(u),
        ) ==> message_decoded(JsonView::Object(fields), offset) == Err::<
            MessageView,
            DecodeErrorView,
        >(DecodeErrorView::DuplicateField("context"@)),
{
    lemma_field_names();
    if stands_at(fields, "type"@, at.0, JsonView::Text("ack"@)) && stands_at(
        fields,
        "endpoint"@,
        at.1,
        JsonView::Text(s),
    ) && stands_nowhere(fields, "version"@) {
        lemma_stands(fields, "type"@, at.0, JsonView::Text("ack"@));
        lemma_stands(fields, "endpoint"@, at.1, JsonView::Text(s));
        lemma_stands_nowhere(fields, "version"@);
    }
    if stands_at(fields, "type"@, at.0, JsonView::Text("error"@)) && stands_at(
        fields,
        "code"@,
        at.1,
        JsonView::Text(s),
    ) {
        lemma_stands(fields, "type"@, at.0, JsonView::Text("error"@));
        lemma_stands(fields, "code"@, at.1, JsonView::Text(s));
        if stands_nowhere(fields, "context"@) && stands_nowhere(fields, "message"@) {
            lemma_stands_nowhere(fields, "context"@);
            lemma_stands_nowhere(fields, "message"@);
        }
        if stands_at(fields, "context"@, at.2, JsonView::Text(t)) && stands_at(
            fields,
            "message"@,
            at.3,
            JsonView::Text(u),
        ) {
            lemma_stands(fields, "context"@, at.2, JsonView::Text(t));
            lemma_stands(fields, "message"@, at.3, JsonView::Text(u));
        }
    }
}

/// Text messages and binary messages with the same bytes carry the same message; messages of other
/// types carry none, and are handed back.
pub proof fn frames_are_read(f: FrameView, s: Seq<char>, offset: Option<int>)
    ensures
        frame_message(FrameView::Text(s), offset) == frame_message(
            FrameView::Binary(encode_utf8(s)),
            offset,
        ),
        !(f is Text) && !(f is Binary) ==> frame_message(f, offset) == Err::<
            MessageView,
            DeserializationErrorView,
        >(DeserializationErrorView::UnexpectedMessageType(f)),
        forall|b: Seq<u8>|
            match message_read(b, offset) {
                Ok(m) => #[trigger] frame_message(FrameView::Binary(b), offset) == Ok::<
                    MessageView,
                    DeserializationErrorView,
                >(m),
                Err(e) => frame_message(FrameView::Binary(b), offset) matches Err(x) && x.text()
                    == "could not parse message JSON: "@ + e,
            },
{
    reveal_strlit("");
    assert forall|b: Seq<u8>|
        match message_read(b, offset) {
            Ok(m) => #[trigger] frame_message(FrameView::Binary(b), offset) == Ok::<
                MessageView,
                DeserializationErrorView,
            >(m),
            Err(e) => frame_message(FrameView::Binary(b), offset) matches Err(x) && x.text()
                == "could not parse message JSON: "@ + e,
        } by {
        if let Err(e) = message_read(b, offset) {
            assert("could not parse message JSON: "@ + e + ""@ =~= "could not parse message JSON: "@
                + e);
        }
    }
}

/// A message carries its text in UTF-8, its bytes, or the reason for closing, and is shown as the
/// text that these bytes encode, or else by how many there are.
pub proof fn frames_are_shown(b: Seq<u8>, s: Seq<char>, code: u16, len: u64)
    ensures
        FrameView::Text(s).data() == encode_utf8(s),
        FrameView::Binary(b).data() == b,
        FrameView::Ping(b).data() == b,
        FrameView::Pong(b).data() == b,
        FrameView::Raw(b, len).data() == b,
        FrameView::Close(Some((code, s))).data() == encode_utf8(s),
        FrameView::Close(None).data() == Seq::<u8>::empty(),
        FrameView::Text(s).text() == s,
        FrameView::Close(Some((code, s))).text() == s,
        FrameView::Close(None).text() == Seq::<char>::empty(),
        FrameView::Binary(encode_utf8(s)).text() == s,
        FrameView::Ping(encode_utf8(s)).text() == s,
        FrameView::Pong(encode_utf8(s)).text() == s,
        FrameView::Raw(encode_utf8(s), len).text() == s,
        !vstd::utf8::valid_utf8(b) ==> {
            let shown = "Binary Data<length="@ + decimal(b.len()) + ">"@;
            &&& FrameView::Binary(b).text() == shown
            &&& FrameView::Ping(b).text() == shown
            &&& FrameView::Pong(b).text() == shown
            &&& FrameView::Raw(b, len).text() == "Binary Data<length="@ + decimal(len as nat)
                + ">"@
        },
        DeserializationErrorView::UnexpectedMessageType(FrameView::Text(s)).text()
            == "unexpected message type: "@ + s,
{
    broadcast use vstd::utf8::encode_utf8_valid_utf8, vstd::utf8::encode_utf8_decode_utf8;

    reveal_strlit("");
    assert(""@ =~= Seq::<char>::empty());
    assert("unexpected message type: "@ + s + ""@ =~= "unexpected message type: "@ + s);
    assert(vstd::utf8::valid_utf8(encode_utf8(s)));
    assert(vstd::utf8::decode_utf8(encode_utf8(s)) == s);
}

/// In local time ACKs and errors stay what they are; of data messages the topic, the name of an
/// event and the places of its values do.
pub proof fn local_time_keeps_messages(
    a: Seq<char>,
    b: Seq<char>,
    e: EventView,
    v: ValueView,
    offset: Option<int>,
)
    ensures
        localized_message(MessageView::Ack { endpoint: a, version: b }, offset) == (
        MessageView::Ack { endpoint: a, version: b }),
        localized_message(MessageView::Error { code: a, context: b }, offset) == (
        MessageView::Error { code: a, context: b }),
        localized_message(
            MessageView::DataMessage { topic: a, data: DataView::Event(e) },
            offset,
        ) == (MessageView::DataMessage {
            topic: a,
            data: DataView::Event(
                EventView {
                    name: e.name,
                    args: e.args.map_values(|x: ValueView| localized(x, offset)),
                    metadata: e.metadata.map_values(|x: ValueView| localized(x, offset)),
                },
            ),
        }),
        localized_message(
            MessageView::DataMessage { topic: a, data: DataView::Other(v) },
            offset,
        ) == (MessageView::DataMessage { topic: a, data: DataView::Other(localized(v, offset)) }),
{
    assert(localized_all(e.args, offset) =~= e.args.map_values(
        |x: ValueView| localized(x, offset),
    ));
    assert(localized_all(e.metadata, offset) =~= e.metadata.map_values(
        |x: ValueView| localized(x, offset),
    ));
}

/// ACKs and errors are written in full; so is an event whose numbers are finite, where what is
/// written is not nested too deeply.
pub proof fn written_in_full(
    a: Seq<char>,
    b: Seq<char>,
    e: EventView,
    offset: Option<int>,
    t: JsonView,
)
    ensures
        carries_back(MessageView::Ack { endpoint: a, version: b }, offset),
        carries_back(MessageView::Error { code: a, context: b }, offset),
        message_encoded(MessageView::DataMessage { topic: a, data: DataView::Event(e) }, offset)
            == Ok::<JsonView, EncodeErrorView>(t) && depth_within(t, 127) && (forall|i: int|
            0 <= i < e.args.len() ==> all_finite(#[trigger] e.args[i])) && (forall|i: int|
            0 <= i < e.metadata.len() ==> all_finite(#[trigger] e.metadata[i])) ==> carries_back(
            MessageView::DataMessage { topic: a, data: DataView::Event(e) },
            offset,
        ),
{
    reveal_with_fuel(depth_within, 2);
    if (forall|i: int| 0 <= i < e.args.len() ==> all_finite(#[trigger] e.args[i])) && (forall|
        i: int,
    | 0 <= i < e.metadata.len() ==> all_finite(#[trigger] e.metadata[i])) {
        let outer = e.value()->Vector_0;
        let inner = outer[2]->Vector_0;
        let count = ValueView::Count(1);
        let x = Real { bits: 0 };
        finite_by_parts(count, x, e.args, Seq::empty());
        finite_by_parts(ValueView::String(e.name), x, e.metadata, Seq::empty());
        assert(inner =~= seq![
            ValueView::String(e.name),
            ValueView::Vector(e.args),
            ValueView::Vector(e.metadata),
        ]);
        assert forall|i: int| 0 <= i < inner.len() implies all_finite(#[trigger] inner[i]) by {}
        finite_by_parts(count, x, inner, Seq::empty());
        assert(outer =~= seq![count, count, ValueView::Vector(inner)]);
        assert forall|i: int| 0 <= i < outer.len() implies all_finite(#[trigger] outer[i]) by {}
        finite_by_parts(count, x, outer, Seq::empty());
    }
}

/// A value is written as an object of its kind and what it holds.
proof fn lemma_encoded_tagged(v: ValueView, offset: Option<int>)
    requires
        encoded(v, offset) is Ok,
    ensures
        encoded(v, offset)->Ok_0 == tagged(
            Kind::of(v),
            encoded(v, offset)->Ok_0->Object_0[1].1,
        ),
{
}

impl Message {
    /// Writes the message as JSON, with points in time in local time.
    pub fn to_json(&self, offset: Option<UtcOffset>) -> (r: Result<JsonValue, EncodeError>)
        ensures
            match r {
                Ok(j) => message_encoded(self@, offset_view(offset)) == Ok::<
                    JsonView,
                    EncodeErrorView,
                >(json_tree(j)) && (self@ matches MessageView::DataMessage { topic, data }
                    ==> settled(data.value(), offset_view(offset))),
                Err(e) => message_encoded(self@, offset_view(offset)) == Err::<
                    JsonView,
                    EncodeErrorView,
                >(e@),
            },
    {
        proof {
            lemma_field_names();
        }
        match self {
            Message::Ack { endpoint, version } => Ok(
                pair_json("ack", "endpoint", endpoint.as_str(), "version", version.as_str()),
            ),
            Message::Error { code, context } => Ok(
                pair_json("error", "code", code.as_str(), "context", context.as_str()),
            ),
            Message::DataMessage { topic, data } => {
                let value: Value = Value::from(data.clone());
                let inner = match encode_data(&value, offset) {
                    Ok(j) => j,
                    Err(e) => {
                        return Err(e);
                    },
                };
                let kind = value.kind();
                let mut fields: Vec<(String, JsonValue)> = Vec::new();
                fields.push(("type".to_owned(), json_text("data-message")));
                fields.push(("topic".to_owned(), json_text(topic.as_str())));
                fields.push(("@data-type".to_owned(), json_text(kind.name())));
                fields.push(("data".to_owned(), inner));
                assert(json_fields(fields@) =~= data_head(topic@) + tagged(
                    kind,
                    json_tree(inner),
                )->Object_0);
                Ok(json_object(fields))
            },
        }
    }

    /// Reads a message from JSON, with points in time in local time.
    pub fn from_json(j: &JsonValue, offset: Option<UtcOffset>) -> (r: Result<Message, DecodeError>)
        ensures
            match r {
                Ok(m) => message_decoded(json_tree(*j), offset_view(offset)) == Ok::<
                    MessageView,
                    DecodeErrorView,
                >(m@),
                Err(e) => message_decoded(json_tree(*j), offset_view(offset)) == Err::<
                    MessageView,
                    DecodeErrorView,
                >(e@),
            },
    {
        proof {
            lemma_field_names();
        }
        let name = match read_message_type(j) {
            Ok(name) => name,
            Err(e) => {
                return Err(e);
            },
        };
        let is_ack = same_text(name.as_str(), "ack");
        let is_error = same_text(name.as_str(), "error");
        if let Some(items) = j.as_array() {
            if is_ack {
                match read_two_items(items, "struct variant Message::Ack with 2 elements") {
                    Ok((endpoint, version)) => Ok(Message::Ack { endpoint, version }),
                    Err(e) => Err(e),
                }
            } else if is_error {
                match read_two_items(items, "struct variant Message::Error with 2 elements") {
                    Ok((code, context)) => Ok(Message::Error { code, context }),
                    Err(e) => Err(e),
                }
            } else {
                Err(
                    DecodeError::InvalidType(
                        "invalid type: sequence, expected struct variant Message::DataMessage"
                            .to_owned(),
                    ),
                )
            }
        } else if let Some(entries) = json_entries(j) {
            if is_ack {
                match read_two_fields(&entries, "endpoint", "version") {
                    Ok((endpoint, version)) => Ok(Message::Ack { endpoint, version }),
                    Err(e) => Err(e),
                }
            } else if is_error {
                match read_error_fields(&entries) {
                    Ok((code, context)) => Ok(Message::Error { code, context }),
                    Err(e) => Err(e),
                }
            } else {
                let i: usize = find_entry(&entries, "topic");
                if i >= entries.len() {
                    return Err(DecodeError::MissingField("topic".to_owned()));
                }
                assert(json_tree(*j)->Object_0[i as int].1 == json_tree(*entries@[i as int].1));
                let topic = match entries[i].1.as_str() {
                    Some(s) => s.to_owned(),
                    None => {
                        return Err(describe_not_text(entries[i].1));
                    },
                };
                match decode_buffered(j, offset) {
                    Ok(v) => Ok(Message::DataMessage { topic, data: Data::from(v) }),
                    Err(e) => Err(e),
                }
            }
        } else {
            Err(DecodeError::MissingField("type".to_owned()))
        }
    }

    /// The WebSocket message that carries this message. What it carries is read back as this
    /// message, with its points in time given in local time, unless a number in it is an infinity
    /// or a NaN, its payload is a value that carries an event but was not recognised as one, or
    /// it is nested too deeply.
    pub fn to_frame(&self, offset: Option<UtcOffset>) -> (r: Result<Frame, EncodeError>)
        ensures
            match r {
                Ok(f) => message_encoded(self@, offset_view(offset)) matches Ok(t) && f@
                    == FrameView::Text(json_printed(t)),
                Err(e) => message_encoded(self@, offset_view(offset)) == Err::<
                    JsonView,
                    EncodeErrorView,
                >(e@),
            },
            r matches Ok(f) ==> carries_back(self@, offset_view(offset)) ==> frame_message(
                f@,
                offset_view(offset),
            ) == Ok::<MessageView, DeserializationErrorView>(
                localized_message(self@, offset_view(offset)),
            ),
    {
        match self.to_json(offset) {
            Ok(j) => {
                let text = json_print(&j);
                proof {
                    if carries_back(self@, offset_view(offset)) {
                        message_reads_back(self@, offset_view(offset));
                        message_text_reads_back(json_tree(j), offset_view(offset));
                    }
                }
                Ok(Frame::Text(text))
            },
            Err(e) => Err(e),
        }
    }

    /// Reads the message that a WebSocket message carries.
    pub fn from_frame(frame: Frame, offset: Option<UtcOffset>) -> (r: Result<
        Message,
        DeserializationError,
    >)
        ensures
            match r {
                Ok(m) => frame_message(frame@, offset_view(offset)) == Ok::<
                    MessageView,
                    DeserializationErrorView,
                >(m@),
                Err(e) => frame_message(frame@, offset_view(offset)) == Err::<
                    MessageView,
                    DeserializationErrorView,
                >(e@),
            },
    {
        match take_bytes(frame) {
            Err(e) => Err(e),
            Ok(bytes) => match Message::from_text(&bytes, offset) {
                Ok(m) => Ok(m),
                Err(e) => Err(DeserializationError::Json(e)),
            },
        }
    }
}

impl TryFrom<Frame> for Message {
    type Error = DeserializationError;

    /// Reads the message that a WebSocket message carries, with points in time in the system's
    /// local time. How far that is from UTC depends on the machine.
    fn try_from(frame: Frame) -> (r: Result<Message, DeserializationError>)
        ensures
            exists|offset: Option<int>|
                (offset is Some ==> offset_fits(offset->Some_0)) && match r {
                    Ok(m) => #[trigger] frame_message(frame@, offset) == Ok::<
                        MessageView,
                        DeserializationErrorView,
                    >(m@),
                    Err(e) => frame_message(frame@, offset) == Err::<
                        MessageView,
                        DeserializationErrorView,
                    >(e@),
                },
    {
        let offset = UtcOffset::current();
        Message::from_frame(frame, offset)
    }
}

impl TryFromSpecImpl<Frame> for Message {
    open spec fn obeys_try_from_spec() -> bool {
        false
    }

    open spec fn try_from_spec(frame: Frame) -> Result<Message, DeserializationError> {
        arbitrary()
    }
}

/// The message that a WebSocket message carries.
pub open spec fn frame_message(f: FrameView, offset: Option<int>) -> Result<
    MessageView,
    DeserializationErrorView,
> {
    match frame_bytes(f) {
        None => Err(DeserializationErrorView::UnexpectedMessageType(f)),
        Some(bytes) => match message_read(bytes, offset) {
            Ok(m) => Ok(m),
            Err(e) => Err(DeserializationErrorView::Json(e)),
        },
    }
}

/// A message that is written in full: its numbers are finite, its payload is an event or a value
/// that carries none, and it is not nested too deeply.
pub open spec fn carries_back(m: MessageView, offset: Option<int>) -> bool {
    (m matches MessageView::DataMessage { topic, data } ==> data.unambiguous() && all_finite(
        data.value(),
    )) && (message_encoded(m, offset) matches Ok(t) ==> depth_within(t, max_depth()))
}

} // verus!
