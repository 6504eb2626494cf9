//! The topics that a client subscribes to.
use vstd::prelude::*;
use vstd::std_specs::convert::{FromSpecImpl, TryFromSpecImpl};
use vstd::string::to_string_from_display_ensures;

use serde_json::Value as JsonValue;

use crate::frame::{
    frame_bytes, take_bytes, DeserializationError, DeserializationErrorView, Frame, FrameView,
};
use crate::json::{
    depth_within, invalid_type, json_array, json_invalid_type, json_parse, json_parsed, json_print,
    json_printed, json_text, json_tree, json_trees, max_depth, JsonView,
};
use crate::scan::{
    describe_place, find_noticed, find_parts, find_trail, noticed, part_views, parts_of, place,
    trail, Part,
};
use crate::text::{copy_bytes, joined};
use crate::wire::{DecodeError, DecodeErrorView};

verus! {

/// Topics to subscribe to. This should be the first message sent to the server.
#[derive(Debug, PartialEq)]
pub struct Subscriptions(pub Vec<String>);

/// What several strings hold.
pub open spec fn texts(s: Seq<String>) -> Seq<Seq<char>> {
    Seq::new(s.len(), |i: int| s[i]@)
}

impl View for Subscriptions {
    type V = Seq<Seq<char>>;

    open spec fn view(&self) -> Seq<Seq<char>> {
        texts(self.0@)
    }
}

/// The strings are what the items display as, in their order.
pub open spec fn displayed<T: std::fmt::Display>(items: Seq<T>, strings: Seq<String>) -> bool {
    strings.len() == items.len() && forall|i: int|
        0 <= i < items.len() ==> to_string_from_display_ensures::<T>(
            &#[trigger] items[i],
            strings[i],
        )
}

fn display_all<T: std::fmt::Display>(items: &[T]) -> (r: Vec<String>)
    ensures
        displayed(items@, r@),
{
    let mut out: Vec<String> = Vec::new();
    let mut i: usize = 0;
    while i < items.len()
        invariant
            i <= items.len(),
            out.len() == i,
            forall|j: int|
                0 <= j < i ==> to_string_from_display_ensures::<T>(
                    &#[trigger] items@[j],
                    out@[j],
                ),
        decreases items.len() - i,
    {
        out.push(items[i].to_string());
        i = i + 1;
    }
    out
}

impl<T: std::fmt::Display> From<Vec<T>> for Subscriptions {
    fn from(value: Vec<T>) -> (r: Subscriptions)
        ensures
            displayed(value@, r.0@),
    {
        Subscriptions(display_all(value.as_slice()))
    }
}

impl<T: std::fmt::Display> FromSpecImpl<Vec<T>> for Subscriptions {
    open spec fn obeys_from_spec() -> bool {
        false
    }

    open spec fn from_spec(value: Vec<T>) -> Subscriptions {
        arbitrary()
    }
}

impl<'a, T: std::fmt::Display> From<&'a [T]> for Subscriptions {
    fn from(value: &'a [T]) -> (r: Subscriptions)
        ensures
            displayed(value@, r.0@),
    {
        Subscriptions(display_all(value))
    }
}

impl<'a, T: std::fmt::Display> FromSpecImpl<&'a [T]> for Subscriptions {
    open spec fn obeys_from_spec() -> bool {
        false
    }

    open spec fn from_spec(value: &'a [T]) -> Subscriptions {
        arbitrary()
    }
}

impl<'a, T: std::fmt::Display, const N: usize> From<&'a [T; N]> for Subscriptions {
    fn from(value: &'a [T; N]) -> (r: Subscriptions)
        ensures
            displayed(value@, r.0@),
    {
        Subscriptions(display_all(value.as_slice()))
    }
}

impl<'a, T: std::fmt::Display, const N: usize> FromSpecImpl<&'a [T; N]> for Subscriptions {
    open spec fn obeys_from_spec() -> bool {
        false
    }

    open spec fn from_spec(value: &'a [T; N]) -> Subscriptions {
        arbitrary()
    }
}

impl Default for Subscriptions {
    fn default() -> (r: Subscriptions)
        ensures
            r@ == Seq::<Seq<char>>::empty(),
    {
        let r = Subscriptions(Vec::new());
        assert(r@ =~= Seq::<Seq<char>>::empty());
        r
    }
}

impl Clone for Subscriptions {
    fn clone(&self) -> (r: Subscriptions)
        ensures
            r@ == self@,
    {
        let mut out: Vec<String> = Vec::new();
        let mut i: usize = 0;
        while i < self.0.len()
            invariant
                i <= self.0.len(),
                out.len() == i,
                forall|j: int| 0 <= j < i ==> out@[j]@ == (#[trigger] self.0@[j])@,
            decreases self.0.len() - i,
        {
            out.push(self.0[i].clone());
            i = i + 1;
        }
        assert(texts(out@) =~= self@);
        Subscriptions(out)
    }
}

/// The texts one behind the other, with commas between them.
pub open spec fn comma_joined(s: Seq<Seq<char>>) -> Seq<char>
    decreases s.len(),
{
    if s.len() == 0 {
        Seq::empty()
    } else if s.len() == 1 {
        s[0]
    } else {
        comma_joined(s.drop_last()) + ", "@ + s.last()
    }
}

/// The trees of several texts.
pub open spec fn text_trees(s: Seq<Seq<char>>) -> Seq<JsonView> {
    Seq::new(s.len(), |i: int| JsonView::Text(s[i]))
}

/// How the topics are written as JSON.
pub open spec fn topics_encoded(s: Seq<Seq<char>>) -> JsonView {
    JsonView::Array(text_trees(s))
}

/// Where the first tree that is no text stands; behind the last where all are.
pub open spec fn first_non_text(items: Seq<JsonView>) -> int
    decreases items.len(),
{
    if items.len() == 0 || !(items[0] is Text) {
        0
    } else {
        1 + first_non_text(items.drop_first())
    }
}

proof fn lemma_first_non_text(items: Seq<JsonView>, n: int)
    requires
        0 <= n <= items.len(),
        forall|i: int| 0 <= i < n ==> (#[trigger] items[i]) is Text,
        n < items.len() ==> !(items[n] is Text),
    ensures
        first_non_text(items) == n,
    decreases items.len(),
{
    if n > 0 {
        assert(items[0] is Text);
        assert forall|i: int| 0 <= i < n - 1 implies (#[trigger] items.drop_first()[i]) is Text by {
            assert(items[i + 1] is Text);
        }
        lemma_first_non_text(items.drop_first(), n - 1);
    }
}

/// What the topics are read from: an array of texts.
pub open spec fn topics_decoded(t: JsonView) -> Result<Seq<Seq<char>>, DecodeErrorView> {
    match t {
        JsonView::Array(items) => if 0 <= first_non_text(items) < items.len() {
            Err(
                DecodeErrorView::InvalidType(
                    invalid_type(items[first_non_text(items)], "a string"@),
                ),
            )
        } else {
            Ok(Seq::new(items.len(), |i: int| items[i]->Text_0))
        },
        _ => Err(DecodeErrorView::InvalidType(invalid_type(t, "a sequence"@))),
    }
}

/// Where something that is wrong with topics is noticed in their text.
pub open spec fn topics_place(t: JsonView, x: Seq<u8>) -> int {
    match t {
        JsonView::Array(items) => {
            let i = first_non_text(items);
            if 0 <= i < parts_of(x).len() {
                noticed(parts_of(x)[i].start, parts_of(x)[i].text)
            } else {
                trail(x)
            }
        },
        _ => noticed(0, x),
    }
}

/// The topics that a JSON text holds, or what is wrong with the text.
pub open spec fn topics_read(x: Seq<u8>) -> Result<Seq<Seq<char>>, Seq<char>> {
    match json_parsed(x) {
        Err(e) => Err(e),
        Ok(t) => match topics_decoded(t) {
            Ok(s) => Ok(s),
            Err(e) => Err(e.text() + place(x, topics_place(t, x)) + ""@),
        },
    }
}

/// The topics that a WebSocket message carries.
pub open spec fn frame_topics(f: FrameView) -> Result<Seq<Seq<char>>, DeserializationErrorView> {
    match frame_bytes(f) {
        None => Err(DeserializationErrorView::UnexpectedMessageType(f)),
        Some(bytes) => match topics_read(bytes) {
            Ok(s) => Ok(s),
            Err(e) => Err(DeserializationErrorView::Json(e)),
        },
    }
}

/// A topic that is no text is noticed where it stands, and what is no list of topics where it opens
/// or ends.
pub proof fn wrong_topics_are_placed(items: Seq<JsonView>, n: int, t: JsonView, x: Seq<u8>)
    requires
        0 <= n < items.len(),
        forall|i: int| 0 <= i < n ==> (#[trigger] items[i]) is Text,
        !(items[n] is Text),
    ensures
        n < parts_of(x).len() ==> topics_place(JsonView::Array(items), x) == noticed(
            parts_of(x)[n].start,
            parts_of(x)[n].text,
        ),
        !(t is Array) ==> topics_place(t, x) == noticed(0, x),
{
    lemma_first_non_text(items, n);
}

/// Each topic is what its item displays as, in the order of the items.
pub proof fn items_are_displayed<T: std::fmt::Display>(
    items: Seq<T>,
    strings: Seq<String>,
    i: int,
)
    requires
        displayed(items, strings),
    ensures
        strings.len() == items.len(),
        0 <= i < items.len() ==> to_string_from_display_ensures::<T>(&items[i], strings[i]),
{
}

/// Topics are read back as they were written.
pub proof fn topics_read_back(s: Seq<Seq<char>>)
    ensures
        topics_decoded(topics_encoded(s)) == Ok::<Seq<Seq<char>>, DecodeErrorView>(s),
        depth_within(topics_encoded(s), max_depth()),
{
    let t = topics_encoded(s);
    reveal_with_fuel(depth_within, 2);
    lemma_first_non_text(text_trees(s), s.len() as int);
    assert(topics_decoded(t)->Ok_0 =~= s);
}

/// Topics are written as an array of texts, one for each in their order.
pub proof fn topics_in_writing(s: Seq<Seq<char>>)
    ensures
        topics_encoded(s) is Array,
        topics_encoded(s)->Array_0.len() == s.len(),
        forall|i: int|
            0 <= i < s.len() ==> #[trigger] topics_encoded(s)->Array_0[i] == JsonView::Text(s[i]),
{
}

/// Topics are read from any array of texts, each in its place; the first item that is no text, and
/// anything that is no array, is refused with what was expected in its place.
pub proof fn topics_are_read(items: Seq<JsonView>, i: int, t: JsonView)
    ensures
        (forall|k: int| 0 <= k < items.len() ==> (#[trigger] items[k]) is Text) ==> (topics_decoded(
            JsonView::Array(items),
        ) matches Ok(s) && s.len() == items.len() && forall|k: int|
            0 <= k < items.len() ==> #[trigger] items[k] == JsonView::Text(s[k])),
        0 <= i < items.len() && !(items[i] is Text) && (forall|k: int|
            0 <= k < i ==> (#[trigger] items[k]) is Text) ==> topics_decoded(JsonView::Array(items))
            == Err::<Seq<Seq<char>>, DecodeErrorView>(
            DecodeErrorView::InvalidType(invalid_type(items[i], "a string"@)),
        ),
        !(t is Array) ==> topics_decoded(t) == Err::<Seq<Seq<char>>, DecodeErrorView>(
            DecodeErrorView::InvalidType(invalid_type(t, "a sequence"@)),
        ),
{
    if forall|k: int| 0 <= k < items.len() ==> (#[trigger] items[k]) is Text {
        lemma_first_non_text(items, items.len() as int);
    }
    if 0 <= i < items.len() && !(items[i] is Text) && (forall|k: int|
        0 <= k < i ==> (#[trigger] items[k]) is Text) {
        lemma_first_non_text(items, i);
    }
}

/// Topics are what the tree of their text is read as; text and binary messages with the same bytes
/// carry the same topics, and messages of other types none.
pub proof fn topics_come_from_trees(x: Seq<u8>, s: Seq<char>, f: FrameView)
    ensures
        match json_parsed(x) {
            Err(e) => topics_read(x) == Err::<Seq<Seq<char>>, Seq<char>>(e),
            Ok(t) => match topics_decoded(t) {
                Ok(topics) => topics_read(x) == Ok::<Seq<Seq<char>>, Seq<char>>(topics),
                Err(_) => topics_read(x) is Err,
            },
        },
        frame_topics(FrameView::Binary(x)) == match topics_read(x) {
            Ok(topics) => Ok::<Seq<Seq<char>>, DeserializationErrorView>(topics),
            Err(e) => Err(DeserializationErrorView::Json(e)),
        },
        frame_topics(FrameView::Text(s)) == frame_topics(
            FrameView::Binary(vstd::utf8::encode_utf8(s)),
        ),
        !(f is Text) && !(f is Binary) ==> frame_topics(f) == Err::<
            Seq<Seq<char>>,
            DeserializationErrorView,
        >(DeserializationErrorView::UnexpectedMessageType(f)),
{
}

/// Topics are shown one behind the other with a comma and a space between any two: those in front,
/// these two characters, and those behind.
pub proof fn topics_are_shown(s: Seq<Seq<char>>, t: Seq<Seq<char>>, topic: Seq<char>)
    ensures
        comma_joined(Seq::empty()) == Seq::<char>::empty(),
        comma_joined(seq![topic]) == topic,
        s.len() > 0 && t.len() > 0 ==> comma_joined(s + t) == comma_joined(s) + ", "@
            + comma_joined(t),
    decreases t.len(),
{
    if s.len() > 0 && t.len() > 0 {
        assert((s + t).drop_last() =~= s + t.drop_last());
        assert((s + t).last() == t.last());
        if t.len() > 1 {
            topics_are_shown(s, t.drop_last(), topic);
            assert(comma_joined(s) + ", "@ + comma_joined(t.drop_last()) + ", "@ + t.last()
                =~= comma_joined(s) + ", "@ + (comma_joined(t.drop_last()) + ", "@ + t.last()));
        } else {
            assert(s + t.drop_last() =~= s);
        }
    }
}

impl Subscriptions {
    /// Shows the topics in square brackets.
    pub fn to_string(&self) -> (r: String)
        ensures
            r@ == "["@ + comma_joined(self@) + "]"@,
    {
        let mut out: String = "[".to_owned();
        let mut i: usize = 0;
        assert(comma_joined(self@.take(0)) =~= Seq::empty());
        assert("["@ + Seq::<char>::empty() =~= "["@);
        while i < self.0.len()
            invariant
                i <= self.0.len(),
                out@ == "["@ + comma_joined(self@.take(i as int)),
            decreases self.0.len() - i,
        {
            let ghost before = out@;
            assert(self@.take(i + 1).drop_last() =~= self@.take(i as int));
            assert(self@.take(i + 1).last() == self.0@[i as int]@);
            if i > 0 {
                out.append(", ");
            }
            out.append(self.0[i].as_str());
            i = i + 1;
            assert(out@ =~= "["@ + comma_joined(self@.take(i as int)));
        }
        assert(self@.take(i as int) =~= self@);
        out.append("]");
        out
    }

    /// Writes the topics as JSON.
    pub fn to_json(&self) -> (r: JsonValue)
        ensures
            json_tree(r) == topics_encoded(self@),
    {
        let mut items: Vec<JsonValue> = Vec::new();
        let mut i: usize = 0;
        while i < self.0.len()
            invariant
                i <= self.0.len(),
                items.len() == i,
                forall|j: int|
                    0 <= j < i ==> json_tree(items@[j]) == JsonView::Text(
                        (#[trigger] self.0@[j])@,
                    ),
            decreases self.0.len() - i,
        {
            items.push(json_text(self.0[i].as_str()));
            i = i + 1;
        }
        assert(json_trees(items@) =~= text_trees(self@));
        json_array(items)
    }

    /// Reads topics from JSON.
    pub fn from_json(j: &JsonValue) -> (r: Result<Subscriptions, DecodeError>)
        ensures
            match r {
                Ok(s) => topics_decoded(json_tree(*j)) == Ok::<Seq<Seq<char>>, DecodeErrorView>(
                    s@,
                ),
                Err(e) => topics_decoded(json_tree(*j)) == Err::<Seq<Seq<char>>, DecodeErrorView>(
                    e@,
                ),
            },
    {
        let items = match j.as_array() {
            Some(items) => items,
            None => {
                return Err(DecodeError::InvalidType(json_invalid_type(j, "a sequence")));
            },
        };
        let ghost all = json_tree(*j)->Array_0;
        let mut out: Vec<String> = Vec::new();
        let mut i: usize = 0;
        while i < items.len()
            invariant
                i <= items.len(),
                out.len() == i,
                all == json_trees(items@),
                json_tree(*j) == JsonView::Array(all),
                forall|k: int| 0 <= k < i ==> (#[trigger] all[k]) == JsonView::Text(out@[k]@),
            decreases items.len() - i,
        {
            assert(all[i as int] == json_tree(items@[i as int]));
            match items[i].as_str() {
                Some(s) => {
                    out.push(s.to_owned());
                },
                None => {
                    proof {
                        lemma_first_non_text(all, i as int);
                    }
                    return Err(DecodeError::InvalidType(json_invalid_type(&items[i], "a string")));
                },
            }
            i = i + 1;
        }
        proof {
            lemma_first_non_text(all, i as int);
        }
        let r = Subscriptions(out);
        assert(topics_decoded(json_tree(*j))->Ok_0 =~= r@);
        Ok(r)
    }

    /// Reads topics from JSON text. The error says what is wrong with the text.
    pub fn from_text(x: &Vec<u8>) -> (r: Result<Subscriptions, String>)
        ensures
            match r {
                Ok(s) => topics_read(x@) == Ok::<Seq<Seq<char>>, Seq<char>>(s@),
                Err(e) => topics_read(x@) == Err::<Seq<Seq<char>>, Seq<char>>(e@),
            },
    {
        let j = match json_parse(x.as_slice()) {
            Err(e) => {
                return Err(e);
            },
            Ok(j) => j,
        };
        match Subscriptions::from_json(&j) {
            Ok(s) => Ok(s),
            Err(e) => {
                let at: usize = find_topics_place(&j, x);
                Err(joined(e.to_string().as_str(), describe_place(x, at).as_str(), ""))
            },
        }
    }

    /// The WebSocket message that carries the topics. They are read back from it as they were.
    pub fn to_frame(&self) -> (r: Frame)
        ensures
            r@ == FrameView::Text(json_printed(topics_encoded(self@))),
            frame_topics(r@) == Ok::<Seq<Seq<char>>, DeserializationErrorView>(self@),
    {
        proof {
            topics_read_back(self@);
        }
        let j = self.to_json();
        let text = json_print(&j);
        Frame::Text(text)
    }

    /// Reads the topics that a WebSocket message carries.
    pub fn from_frame(frame: Frame) -> (r: Result<Subscriptions, DeserializationError>)
        ensures
            match r {
                Ok(s) => frame_topics(frame@) == Ok::<Seq<Seq<char>>, DeserializationErrorView>(
                    s@,
                ),
                Err(e) => frame_topics(frame@) == Err::<
                    Seq<Seq<char>>,
                    DeserializationErrorView,
                >(e@),
            },
    {
        match take_bytes(frame) {
            Err(e) => Err(e),
            Ok(bytes) => match Subscriptions::from_text(&bytes) {
                Ok(s) => Ok(s),
                Err(e) => Err(DeserializationError::Json(e)),
            },
        }
    }
}

fn find_topics_place(j: &JsonValue, x: &Vec<u8>) -> (r: usize)
    ensures
        r == topics_place(json_tree(*j), x@),
        r <= x.len(),
{
    match j.as_array() {
        None => {
            let whole = Part { name: Vec::new(), colon: 0, start: 0, text: copy_bytes(x) };
            find_noticed(&whole, x.len())
        },
        Some(items) => {
            let ghost all = json_trees(items@);
            let parts = find_parts(x);
            assert(part_views(parts@).len() == parts.len());
            let mut i: usize = 0;
            while i < items.len() && items[i].as_str().is_some()
                invariant
                    i <= items.len(),
                    all == json_trees(items@),
                    forall|k: int| 0 <= k < i ==> (#[trigger] all[k]) is Text,
                decreases items.len() - i,
            {
                assert(all[i as int] == json_tree(items@[i as int]));
                i = i + 1;
            }
            proof {
                if i < items.len() {
                    assert(all[i as int] == json_tree(items@[i as int]));
                }
                lemma_first_non_text(all, i as int);
            }
            if i < parts.len() {
                assert(part_views(parts@)[i as int] == parts@[i as int]@);
                find_noticed(&parts[i], x.len())
            } else {
                find_trail(x)
            }
        },
    }
}

impl From<Subscriptions> for Frame {
    fn from(value: Subscriptions) -> (r: Frame)
        ensures
            r@ == FrameView::Text(json_printed(topics_encoded(value@))),
            frame_topics(r@) == Ok::<Seq<Seq<char>>, DeserializationErrorView>(value@),
    {
        value.to_frame()
    }
}

impl FromSpecImpl<Subscriptions> for Frame {
    open spec fn obeys_from_spec() -> bool {
        false
    }

    open spec fn from_spec(value: Subscriptions) -> Frame {
        arbitrary()
    }
}

impl TryFrom<Frame> for Subscriptions {
    type Error = DeserializationError;

    fn try_from(frame: Frame) -> (r: Result<Subscriptions, DeserializationError>)
        ensures
            match r {
                Ok(s) => frame_topics(frame@) == Ok::<Seq<Seq<char>>, DeserializationErrorView>(
                    s@,
                ),
                Err(e) => frame_topics(frame@) == Err::<
                    Seq<Seq<char>>,
                    DeserializationErrorView,
                >(e@),
            },
    {
        Subscriptions::from_frame(frame)
    }
}

impl TryFromSpecImpl<Frame> for Subscriptions {
    open spec fn obeys_try_from_spec() -> bool {
        false
    }

    open spec fn try_from_spec(frame: Frame) -> Result<Subscriptions, DeserializationError> {
        arbitrary()
    }
}

} // verus!
