//! Messages and values in JSON text.
//!
//! `serde_json` reads a text into a tree, which is then read as what is wanted. Of fields of one
//! object that share a name the tree has the last, so the names in the text are held against
//! those in the tree, written again: an object may not repeat a field that is read from it.
use vstd::prelude::*;
use vstd::utf8::encode_utf8;

use serde_json::Value as JsonValue;

use crate::frame::{message_decoded, message_type, read_message_type};
use crate::json::{
    field_at, find_entry, json_entries, json_parse, json_parsed, json_print, json_printed,
    json_reads_as, json_tree, json_trees, JsonView,
};
use crate::message::{Message, MessageView};
use crate::scalar::{offset_view, UtcOffset};
use crate::scan::{
    check_repeats, count_named, describe_place, find_named, find_named_from, find_noticed, find_parts,
    find_trail, first_names_are_found, name_of, named_at, named_from, names_are_counted, noticed,
    other_names_are_not_found, part_text, part_views, parts_of, place, repeats, text_at, text_named,
    trail, PartView,
};
use crate::text::{joined, same_text};
use crate::value::Value;
use crate::wire::{
    decode_item, decode_tag, item_kind, lemma_tagged, tag_kind, tagged, DecodeError,
    DecodeErrorView, Kind,
};

verus! {

/// A tag that is an object has one field, in the text too.
pub open spec fn tag_repeat(t: JsonView, x: Seq<u8>, y: Seq<u8>) -> Option<DecodeErrorView> {
    if t is Object && parts_of(x).len() > parts_of(y).len() {
        Some(DecodeErrorView::InvalidValue("invalid value: map, expected map with a single key"@))
    } else {
        None
    }
}

/// What is wrong with the names in the text `x` of a value: a tag or data that stands more often
/// in an object than in the text `y` of its tree.
pub open spec fn value_repeat(t: JsonView, buffered: bool, x: Seq<u8>, y: Seq<u8>) -> Option<
    DecodeErrorView,
>
    decreases t,
{
    match t {
        JsonView::Object(fields) => {
            let k = field_at(fields, "@data-type"@);
            let d = field_at(fields, "data"@);
            if repeats(x, y, "@data-type"@) {
                Some(DecodeErrorView::DuplicateField("@data-type"@))
            } else if repeats(x, y, "data"@) {
                Some(DecodeErrorView::DuplicateField("data"@))
            } else if !(0 <= k < fields.len()) {
                None
            } else {
                match tag_repeat(
                    fields[k].1,
                    text_named(x, "@data-type"@),
                    text_named(y, "@data-type"@),
                ) {
                    Some(e) => Some(e),
                    None => match tag_kind(fields[k].1, buffered) {
                        Ok(kind) => if 0 <= d < fields.len() {
                            content_repeat(
                                kind,
                                fields[d].1,
                                buffered || d < k,
                                text_named(x, "data"@),
                                text_named(y, "data"@),
                            )
                        } else {
                            None
                        },
                        Err(_) => None,
                    },
                }
            }
        },
        JsonView::Array(items) => if items.len() < 2 {
            None
        } else {
            match item_kind(items[0], buffered) {
                Ok(kind) => content_repeat(
                    kind,
                    items[1],
                    buffered,
                    text_at(x, 1),
                    text_at(y, 1),
                ),
                Err(_) => None,
            }
        },
        _ => None,
    }
}

/// What is wrong with the names in the text of what a value holds.
pub open spec fn content_repeat(
    kind: Kind,
    d: JsonView,
    buffered: bool,
    x: Seq<u8>,
    y: Seq<u8>,
) -> Option<DecodeErrorView>
    decreases d,
{
    match d {
        JsonView::Array(items) => if kind == Kind::Vector || kind == Kind::SetOf {
            items_repeat(items, false, buffered, x, y)
        } else if kind == Kind::Table {
            items_repeat(items, true, buffered, x, y)
        } else {
            None
        },
        _ => None,
    }
}

/// What is wrong with the names in the text of several values or of the entries of a table.
pub open spec fn items_repeat(
    items: Seq<JsonView>,
    entries: bool,
    buffered: bool,
    x: Seq<u8>,
    y: Seq<u8>,
) -> Option<DecodeErrorView>
    decreases items,
{
    if items.len() == 0 {
        None
    } else {
        match items_repeat(items.drop_last(), entries, buffered, x, y) {
            Some(e) => Some(e),
            None => if entries {
                entry_repeat(
                    items.last(),
                    buffered,
                    text_at(x, items.len() - 1),
                    text_at(y, items.len() - 1),
                )
            } else {
                value_repeat(
                    items.last(),
                    buffered,
                    text_at(x, items.len() - 1),
                    text_at(y, items.len() - 1),
                )
            },
        }
    }
}

/// What is wrong with the names in the text of an entry of a table.
pub open spec fn entry_repeat(t: JsonView, buffered: bool, x: Seq<u8>, y: Seq<u8>) -> Option<
    DecodeErrorView,
>
    decreases t,
{
    match t {
        JsonView::Object(fields) => {
            let k = field_at(fields, "key"@);
            let v = field_at(fields, "value"@);
            if repeats(x, y, "key"@) {
                Some(DecodeErrorView::DuplicateField("key"@))
            } else if repeats(x, y, "value"@) {
                Some(DecodeErrorView::DuplicateField("value"@))
            } else if !(0 <= k < fields.len() && 0 <= v < fields.len()) {
                None
            } else {
                match value_repeat(
                    fields[k].1,
                    buffered,
                    text_named(x, "key"@),
                    text_named(y, "key"@),
                ) {
                    Some(e) => Some(e),
                    None => value_repeat(
                        fields[v].1,
                        buffered,
                        text_named(x, "value"@),
                        text_named(y, "value"@),
                    ),
                }
            }
        },
        JsonView::Array(items) => if items.len() < 2 {
            None
        } else {
            match value_repeat(items[0], buffered, text_at(x, 0), text_at(y, 0)) {
                Some(e) => Some(e),
                None => value_repeat(items[1], buffered, text_at(x, 1), text_at(y, 1)),
            }
        },
        _ => None,
    }
}

/// Of two names, a field that stands more often in one object than in another.
pub open spec fn two_repeat(x: Seq<u8>, y: Seq<u8>, a: Seq<char>, b: Seq<char>) -> Option<
    DecodeErrorView,
> {
    if repeats(x, y, a) {
        Some(DecodeErrorView::DuplicateField(a))
    } else if repeats(x, y, b) {
        Some(DecodeErrorView::DuplicateField(b))
    } else {
        None
    }
}

/// What is wrong with the names in the text of a message, but for its type.
pub open spec fn message_repeat(t: JsonView, x: Seq<u8>, y: Seq<u8>) -> Option<DecodeErrorView> {
    match (t, message_type(t)) {
        (JsonView::Object(fields), Ok(name)) => if name == "ack"@ {
            two_repeat(x, y, "endpoint"@, "version"@)
        } else if name == "error"@ {
            if repeats(x, y, "code"@) {
                Some(DecodeErrorView::DuplicateField("code"@))
            } else if repeats(x, y, "context"@) || repeats(x, y, "message"@) {
                Some(DecodeErrorView::DuplicateField("context"@))
            } else {
                None
            }
        } else if repeats(x, y, "topic"@) {
            Some(DecodeErrorView::DuplicateField("topic"@))
        } else {
            value_repeat(t, true, x, y)
        },
        _ => None,
    }
}

/// Where something that is wrong with the type of a message is noticed in its text.
pub open spec fn type_place(t: JsonView, x: Seq<u8>) -> int {
    let parts = parts_of(x);
    match t {
        JsonView::Object(fields) => if 0 <= named_at(parts, "type"@) < parts.len() {
            noticed(
                parts[named_at(parts, "type"@)].start,
                parts[named_at(parts, "type"@)].text,
            )
        } else {
            trail(x)
        },
        JsonView::Array(items) => if items.len() > 0 && parts.len() > 0 {
            noticed(parts[0].start, parts[0].text)
        } else {
            trail(x)
        },
        _ => trail(x),
    }
}

/// Where it is noticed in a text that the type of a message is repeated: at the colon behind its
/// second occurrence.
pub open spec fn second_type(x: Seq<u8>) -> int {
    let parts = parts_of(x);
    let i = named_at(parts, "type"@);
    let j = named_from(parts, "type"@, i + 1);
    if 0 <= i < j < parts.len() {
        parts[j].colon
    } else {
        trail(x)
    }
}

/// The message that a JSON text holds, or what is wrong with the text.
pub open spec fn message_read(x: Seq<u8>, offset: Option<int>) -> Result<MessageView, Seq<char>> {
    match json_parsed(x) {
        Err(e) => Err(e),
        Ok(t) => {
            let y = encode_utf8(json_printed(t));
            if t is Object && repeats(x, y, "type"@) {
                Err("duplicate field `type`"@ + place(x, second_type(x)) + ""@)
            } else {
                match message_type(t) {
                    Err(e) => Err(e.text() + place(x, type_place(t, x)) + ""@),
                    Ok(_) => match message_decoded(t, offset) {
                        Err(e) => Err(e.text()),
                        Ok(m) => match message_repeat(t, x, y) {
                            Some(e) => Err(e.text()),
                            None => Ok(m),
                        },
                    },
                }
            }
        },
    }
}

/// A repeated type is noticed at the colon of its second occurrence, and a type that is none where
/// it stands. Both are told with the line and the column.
pub proof fn wrong_types_are_placed(
    x: Seq<u8>,
    t: JsonView,
    offset: Option<int>,
    i: int,
    j: int,
    e: DecodeErrorView,
)
    requires
        json_parsed(x) == Ok::<JsonView, Seq<char>>(t),
        0 <= i < parts_of(x).len(),
        t is Object,
        name_of(parts_of(x)[i].name) == Some("type"@),
        forall|k: int| 0 <= k < i ==> name_of((#[trigger] parts_of(x)[k]).name) != Some("type"@),
    ensures
        ({
            let parts = parts_of(x);
            let printed = parts_of(encode_utf8(json_printed(t)));
            let more = count_named(parts, "type"@) > count_named(printed, "type"@);
            &&& more && i < j < parts.len() && name_of(parts[j].name) == Some("type"@) && (forall|
                k: int,
            |
                i < k < j ==> name_of((#[trigger] parts[k]).name) != Some("type"@))
                ==> message_read(x, offset) == Err::<MessageView, Seq<char>>(
                "duplicate field `type`"@ + place(x, parts[j].colon),
            )
            &&& !more && message_type(t) == Err::<Seq<char>, DecodeErrorView>(e) ==> message_read(
                x,
                offset,
            ) == Err::<MessageView, Seq<char>>(
                e.text() + place(x, noticed(parts[i].start, parts[i].text)),
            )
        }),
{
    let parts = parts_of(x);
    reveal_strlit("");
    first_names_are_found(x, "type"@, 0, i);
    if i < j < parts.len() && name_of(parts[j].name) == Some("type"@) && (forall|k: int|
        i < k < j ==> name_of((#[trigger] parts[k]).name) != Some("type"@)) {
        first_names_are_found(x, "type"@, i + 1, j);
        let s = "duplicate field `type`"@ + place(x, parts[j].colon);
        assert(s + ""@ =~= s);
    }
    let s = e.text() + place(x, noticed(parts[i].start, parts[i].text));
    assert(s + ""@ =~= s);
}

/// A message without a type is refused where its text ends, but for an array with a first item,
/// where that item stands.
pub proof fn missing_types_are_placed(
    x: Seq<u8>,
    t: JsonView,
    offset: Option<int>,
    e: DecodeErrorView,
)
    requires
        json_parsed(x) == Ok::<JsonView, Seq<char>>(t),
        message_type(t) == Err::<Seq<char>, DecodeErrorView>(e),
        !(t is Object) || forall|k: int|
            0 <= k < parts_of(x).len() ==> name_of((#[trigger] parts_of(x)[k]).name) != Some(
                "type"@,
            ),
    ensures
        !(t is Array) ==> message_read(x, offset) == Err::<MessageView, Seq<char>>(
            e.text() + place(x, trail(x)),
        ),
        t matches JsonView::Array(items) ==> items.len() > 0 && parts_of(x).len() > 0
            ==> message_read(x, offset) == Err::<MessageView, Seq<char>>(
            e.text() + place(x, noticed(parts_of(x)[0].start, parts_of(x)[0].text)),
        ),
{
    reveal_strlit("");
    let s = e.text() + place(x, trail(x));
    assert(s + ""@ =~= s);
    let s = e.text() + place(x, noticed(parts_of(x)[0].start, parts_of(x)[0].text));
    assert(s + ""@ =~= s);
    if t is Object {
        other_names_are_not_found(x, "type"@);
        names_are_counted(parts_of(x), "type"@);
        lemma_none_counted(parts_of(x), "type"@);
    }
}

/// In the text of an entry neither the key nor the value stands more than once, and both are free of
/// repeated names.
pub proof fn entries_are_checked(a: JsonView, b: JsonView, buffered: bool, x: Seq<u8>, y: Seq<u8>)
    ensures
        ({
            let t = JsonView::Object(seq![("key"@, a), ("value"@, b)]);
            let more = |name: Seq<char>|
                count_named(parts_of(x), name) > count_named(parts_of(y), name);
            &&& more("key"@) ==> entry_repeat(t, buffered, x, y) == Some(
                DecodeErrorView::DuplicateField("key"@),
            )
            &&& !more("key"@) && more("value"@) ==> entry_repeat(t, buffered, x, y) == Some(
                DecodeErrorView::DuplicateField("value"@),
            )
            &&& !more("key"@) && !more("value"@) ==> (entry_repeat(t, buffered, x, y) is None
                <==> value_repeat(a, buffered, text_named(x, "key"@), text_named(y, "key"@)) is None
                && value_repeat(
                b,
                buffered,
                text_named(x, "value"@),
                text_named(y, "value"@),
            ) is None)
        }),
{
    reveal_strlit("key");
    reveal_strlit("value");
    assert("key"@.len() != "value"@.len());
    let fields = seq![("key"@, a), ("value"@, b)];
    let t = JsonView::Object(fields);
    assert(t->Object_0 == fields);
    reveal_with_fuel(field_at, 3);
    assert(fields.drop_first() =~= seq![("value"@, b)]);
    assert(field_at(fields, "key"@) == 0);
    assert(field_at(fields, "value"@) == 1);
    assert(fields[0].1 == a && fields[1].1 == b);
}

/// A tag that is an object with one field must not have more in its text, and the data behind a tag
/// in an array is looked at as data of that kind.
pub proof fn tags_are_checked(
    t: JsonView,
    d: JsonView,
    kind: Kind,
    buffered: bool,
    x: Seq<u8>,
    y: Seq<u8>,
)
    ensures
        t is Object && parts_of(x).len() > parts_of(y).len() ==> tag_repeat(t, x, y) == Some(
            DecodeErrorView::InvalidValue("invalid value: map, expected map with a single key"@),
        ),
        !(t is Object) || parts_of(x).len() <= parts_of(y).len() ==> tag_repeat(t, x, y) is None,
        item_kind(t, buffered) == Ok::<Kind, DecodeErrorView>(kind) && parts_of(x).len() == 2
            && parts_of(y).len() == 2 ==> value_repeat(
            JsonView::Array(seq![t, d]),
            buffered,
            x,
            y,
        ) == content_repeat(kind, d, buffered, parts_of(x)[1].text, parts_of(y)[1].text),
{
    let pair = seq![t, d];
    assert(pair[0] == t && pair[1] == d);
    let a = JsonView::Array(pair);
    assert(a->Array_0 == pair);
}

proof fn lemma_none_counted(parts: Seq<PartView>, name: Seq<char>)
    requires
        forall|k: int| 0 <= k < parts.len() ==> name_of((#[trigger] parts[k]).name) != Some(name),
    ensures
        count_named(parts, name) == 0,
    decreases parts.len(),
{
    if parts.len() > 0 {
        lemma_none_counted(parts.drop_last(), name);
        assert(name_of(parts.last().name) != Some(name));
    }
}

proof fn lemma_value_repeats(t: JsonView, buffered: bool, x: Seq<u8>)
    ensures
        value_repeat(t, buffered, x, x) is None,
    decreases t, 1nat,
{
    match t {
        JsonView::Object(fields) => {
            let k = field_at(fields, "@data-type"@);
            let d = field_at(fields, "data"@);
            if 0 <= k < fields.len() && 0 <= d < fields.len() {
                assert(decreases_to!(t => t->Object_0));
                assert(decreases_to!(fields => fields[d]));
                if let Ok(kind) = tag_kind(fields[k].1, buffered) {
                    lemma_content_repeats(
                        kind,
                        fields[d].1,
                        buffered || d < k,
                        text_named(x, "data"@),
                    );
                }
            }
        },
        JsonView::Array(items) => {
            if items.len() >= 2 {
                assert(decreases_to!(t => t->Array_0));
                assert(decreases_to!(items => items[1]));
                if let Ok(kind) = item_kind(items[0], buffered) {
                    lemma_content_repeats(kind, items[1], buffered, text_at(x, 1));
                }
            }
        },
        _ => {},
    }
}

proof fn lemma_content_repeats(kind: Kind, d: JsonView, buffered: bool, x: Seq<u8>)
    ensures
        content_repeat(kind, d, buffered, x, x) is None,
    decreases d, 0nat,
{
    if let JsonView::Array(items) = d {
        assert(decreases_to!(d => d->Array_0));
        lemma_items_repeat(items, true, buffered, x);
        lemma_items_repeat(items, false, buffered, x);
    }
}

proof fn lemma_items_repeat(items: Seq<JsonView>, entries: bool, buffered: bool, x: Seq<u8>)
    ensures
        items_repeat(items, entries, buffered, x, x) is None,
    decreases items, 0nat,
{
    if items.len() > 0 {
        lemma_items_repeat(items.drop_last(), entries, buffered, x);
        lemma_value_repeats(items.last(), buffered, text_at(x, items.len() - 1));
        lemma_entry_repeats(items.last(), buffered, text_at(x, items.len() - 1));
    }
}

proof fn lemma_entry_repeats(t: JsonView, buffered: bool, x: Seq<u8>)
    ensures
        entry_repeat(t, buffered, x, x) is None,
    decreases t, 1nat,
{
    match t {
        JsonView::Object(fields) => {
            let k = field_at(fields, "key"@);
            let v = field_at(fields, "value"@);
            if 0 <= k < fields.len() && 0 <= v < fields.len() {
                assert(decreases_to!(t => t->Object_0));
                assert(decreases_to!(fields => fields[k]));
                assert(decreases_to!(fields => fields[v]));
                lemma_value_repeats(fields[k].1, buffered, text_named(x, "key"@));
                lemma_value_repeats(fields[v].1, buffered, text_named(x, "value"@));
            }
        },
        JsonView::Array(items) => {
            if items.len() >= 2 {
                assert(decreases_to!(t => t->Array_0));
                assert(decreases_to!(items => items[0]));
                assert(decreases_to!(items => items[1]));
                lemma_value_repeats(items[0], buffered, text_at(x, 0));
                lemma_value_repeats(items[1], buffered, text_at(x, 1));
            }
        },
        _ => {},
    }
}

/// No text that `serde_json` writes repeats a field.
pub proof fn printed_value_repeats_nothing(t: JsonView, buffered: bool, x: Seq<u8>)
    ensures
        value_repeat(t, buffered, x, x) is None,
{
    lemma_value_repeats(t, buffered, x);
}

/// The message that a tree is read as is read from the text that `serde_json` writes of the tree,
/// where it reads the tree back.
pub proof fn message_text_reads_back(t: JsonView, offset: Option<int>)
    requires
        json_reads_as(encode_utf8(json_printed(t)), t),
        message_decoded(t, offset) is Ok,
    ensures
        message_read(encode_utf8(json_printed(t)), offset) == Ok::<MessageView, Seq<char>>(
            message_decoded(t, offset)->Ok_0,
        ),
{
    lemma_value_repeats(t, true, encode_utf8(json_printed(t)));
}

/// A message is what the tree of its text is read as, and nothing is read from a text that is not
/// JSON or whose tree is no message.
pub proof fn messages_come_from_trees(x: Seq<u8>, offset: Option<int>)
    ensures
        match json_parsed(x) {
            Err(e) => message_read(x, offset) == Err::<MessageView, Seq<char>>(e),
            Ok(t) => {
                &&& message_read(x, offset) matches Ok(m) ==> message_decoded(t, offset) == Ok::<
                    MessageView,
                    DecodeErrorView,
                >(m)
                &&& message_decoded(t, offset) is Err ==> message_read(x, offset) is Err
            },
        },
{
}

/// A field of a message that stands in the text more often than in the tree is repeated, which is
/// refused with its name; a repeated message of an error counts as a repeated context.
pub proof fn repeated_fields_are_refused(x: Seq<u8>, t: JsonView, offset: Option<int>)
    requires
        json_parsed(x) == Ok::<JsonView, Seq<char>>(t),
        t is Object,
        message_decoded(t, offset) is Ok,
    ensures
        ({
            let y = parts_of(encode_utf8(json_printed(t)));
            let more = |name: Seq<char>| count_named(parts_of(x), name) > count_named(y, name);
            let m = message_decoded(t, offset)->Ok_0;
            let r = message_read(x, offset);
            &&& more("type"@) ==> r is Err
            &&& !more("type"@) && m is Ack && more("endpoint"@) ==> r == Err::<
                MessageView,
                Seq<char>,
            >("duplicate field `endpoint`"@)
            &&& !more("type"@) && m is Ack && !more("endpoint"@) && more("version"@) ==> r == Err::<
                MessageView,
                Seq<char>,
            >("duplicate field `version`"@)
            &&& !more("type"@) && m is Ack && !more("endpoint"@) && !more("version"@) ==> r == Ok::<
                MessageView,
                Seq<char>,
            >(m)
            &&& !more("type"@) && m is Error && more("code"@) ==> r == Err::<
                MessageView,
                Seq<char>,
            >("duplicate field `code`"@)
            &&& !more("type"@) && m is Error && !more("code"@) && (more("context"@) || more(
                "message"@,
            )) ==> r == Err::<MessageView, Seq<char>>("duplicate field `context`"@)
            &&& !more("type"@) && m is Error && !more("code"@) && !more("context"@) && !more(
                "message"@,
            ) ==> r == Ok::<MessageView, Seq<char>>(m)
            &&& !more("type"@) && m is DataMessage && more("topic"@) ==> r == Err::<
                MessageView,
                Seq<char>,
            >("duplicate field `topic`"@)
            &&& !more("type"@) && m is DataMessage && !more("topic"@) && more("@data-type"@)
                ==> r == Err::<MessageView, Seq<char>>("duplicate field `@data-type`"@)
            &&& !more("type"@) && m is DataMessage && !more("topic"@) && !more("@data-type"@)
                && more("data"@) ==> r == Err::<MessageView, Seq<char>>("duplicate field `data`"@)
        }),
{
    reveal_strlit("duplicate field `");
    reveal_strlit("`");
    reveal_strlit("endpoint");
    reveal_strlit("version");
    reveal_strlit("code");
    reveal_strlit("context");
    reveal_strlit("topic");
    reveal_strlit("@data-type");
    reveal_strlit("data");
    reveal_strlit("duplicate field `endpoint`");
    reveal_strlit("duplicate field `version`");
    reveal_strlit("duplicate field `code`");
    reveal_strlit("duplicate field `context`");
    reveal_strlit("duplicate field `topic`");
    reveal_strlit("duplicate field `@data-type`");
    reveal_strlit("duplicate field `data`");
    let text = |name: Seq<char>| "duplicate field `"@ + name + "`"@;
    assert(text("endpoint"@) =~= "duplicate field `endpoint`"@);
    assert(text("version"@) =~= "duplicate field `version`"@);
    assert(text("code"@) =~= "duplicate field `code`"@);
    assert(text("context"@) =~= "duplicate field `context`"@);
    assert(text("topic"@) =~= "duplicate field `topic`"@);
    assert(text("@data-type"@) =~= "duplicate field `@data-type`"@);
    assert(text("data"@) =~= "duplicate field `data`"@);
}

/// Fields are held against the tree at every level: the text of a vector, a set or a table repeats
/// something where the text of one of its values or entries does, and that of an entry where the
/// text of its key or of its value does.
pub proof fn parts_are_checked(
    items: Seq<JsonView>,
    a: JsonView,
    b: JsonView,
    buffered: bool,
    x: Seq<u8>,
    y: Seq<u8>,
)
    ensures
        ({
            let list = JsonView::Array(items);
            let values = forall|i: int|
                0 <= i < items.len() ==> value_repeat(
                    #[trigger] items[i],
                    buffered,
                    text_at(x, i),
                    text_at(y, i),
                ) is None;
            let entries = forall|i: int|
                0 <= i < items.len() ==> entry_repeat(
                    #[trigger] items[i],
                    buffered,
                    text_at(x, i),
                    text_at(y, i),
                ) is None;
            &&& content_repeat(Kind::Vector, list, buffered, x, y) is None <==> values
            &&& content_repeat(Kind::SetOf, list, buffered, x, y) is None <==> values
            &&& content_repeat(Kind::Table, list, buffered, x, y) is None <==> entries
            &&& entry_repeat(JsonView::Array(seq![a, b]), buffered, x, y) is None <==> value_repeat(
                a,
                buffered,
                text_at(x, 0),
                text_at(y, 0),
            ) is None && value_repeat(b, buffered, text_at(x, 1), text_at(y, 1)) is None
        }),
{
    lemma_items_checked(items, false, buffered, x, y);
    lemma_items_checked(items, true, buffered, x, y);
    let pair = seq![a, b];
    assert(pair[0] == a && pair[1] == b);
}

proof fn lemma_items_checked(
    items: Seq<JsonView>,
    entries: bool,
    buffered: bool,
    x: Seq<u8>,
    y: Seq<u8>,
)
    ensures
        items_repeat(items, entries, buffered, x, y) is None <==> if entries {
            forall|i: int|
                0 <= i < items.len() ==> entry_repeat(
                    #[trigger] items[i],
                    buffered,
                    text_at(x, i),
                    text_at(y, i),
                ) is None
        } else {
            forall|i: int|
                0 <= i < items.len() ==> value_repeat(
                    #[trigger] items[i],
                    buffered,
                    text_at(x, i),
                    text_at(y, i),
                ) is None
        },
    decreases items.len(),
{
    if items.len() > 0 {
        let front = items.drop_last();
        let n = items.len() - 1;
        lemma_items_checked(front, entries, buffered, x, y);
        assert(items[n] == items.last());
        assert(forall|i: int| 0 <= i < n ==> front[i] == #[trigger] items[i]);
        assert(forall|i: int| 0 <= i < n ==> #[trigger] front[i] == items[i]);
    }
}

/// A value whose tag or data stands more often in the text than in the tree is refused with the name
/// of what is repeated; otherwise what is wrong with it is what is wrong with its data.
pub proof fn values_are_checked(
    d: JsonView,
    kind: Kind,
    buffered: bool,
    x: Seq<u8>,
    y: Seq<u8>,
)
    ensures
        ({
            let t = JsonView::Object(
                seq![("@data-type"@, JsonView::Text(kind.text())), ("data"@, d)],
            );
            let more = |name: Seq<char>|
                count_named(parts_of(x), name) > count_named(parts_of(y), name);
            value_repeat(t, buffered, x, y) == if more("@data-type"@) {
                Some(DecodeErrorView::DuplicateField("@data-type"@))
            } else if more("data"@) {
                Some(DecodeErrorView::DuplicateField("data"@))
            } else {
                content_repeat(kind, d, buffered, text_named(x, "data"@), text_named(y, "data"@))
            }
        }),
{
    kind.text_reads_back();
    lemma_tagged(kind, d);
    let t = tagged(kind, d);
    let fields = t->Object_0;
    assert(t == JsonView::Object(
        seq![("@data-type"@, JsonView::Text(kind.text())), ("data"@, d)],
    ));
    assert(fields[0].1 == JsonView::Text(kind.text()));
    assert(fields[1].1 == d);
}

/// An error, where there is one.
pub open spec fn error_option(e: Option<DecodeError>) -> Option<DecodeErrorView> {
    match e {
        Some(e) => Some(e@),
        None => None,
    }
}

fn duplicate(name: &str) -> (e: DecodeError)
    ensures
        e@ == DecodeErrorView::DuplicateField(name@),
{
    DecodeError::DuplicateField(name.to_owned())
}

fn check_tag(j: &JsonValue, x: &Vec<u8>, y: &Vec<u8>) -> (r: Option<DecodeError>)
    ensures
        error_option(r) == tag_repeat(json_tree(*j), x@, y@),
{
    match json_entries(j) {
        Some(_) => {
            let a = find_parts(x);
            let b = find_parts(y);
            assert(part_views(a@).len() == a.len() && part_views(b@).len() == b.len());
            if a.len() > b.len() {
                Some(
                    DecodeError::InvalidValue(
                        "invalid value: map, expected map with a single key".to_owned(),
                    ),
                )
            } else {
                None
            }
        },
        None => None,
    }
}

fn check_value(j: &JsonValue, buffered: bool, x: &Vec<u8>, y: &Vec<u8>) -> (r: Option<DecodeError>)
    ensures
        error_option(r) == value_repeat(json_tree(*j), buffered, x@, y@),
    decreases json_tree(*j), 1nat,
{
    let ghost t = json_tree(*j);
    let a = find_parts(x);
    let b = find_parts(y);
    if let Some(items) = j.as_array() {
        if items.len() < 2 {
            return None;
        }
        assert(t->Array_0[0] == json_tree(items@[0]));
        assert(t->Array_0[1] == json_tree(items@[1]));
        assert(decreases_to!(t => t->Array_0));
        assert(decreases_to!(t->Array_0 => t->Array_0[1]));
        match decode_item(&items[0], buffered) {
            Ok(kind) => check_content(
                kind,
                &items[1],
                buffered,
                &part_text(&a, 1),
                &part_text(&b, 1),
            ),
            Err(_) => None,
        }
    } else if let Some(entries) = json_entries(j) {
        let ghost fields = t->Object_0;
        if check_repeats(&a, &b, "@data-type") {
            return Some(duplicate("@data-type"));
        }
        if check_repeats(&a, &b, "data") {
            return Some(duplicate("data"));
        }
        let k: usize = find_entry(&entries, "@data-type");
        let d: usize = find_entry(&entries, "data");
        if k >= entries.len() {
            return None;
        }
        assert(fields[k as int] == (entries@[k as int].0@, json_tree(*entries@[k as int].1)));
        let tag_x = part_text(&a, find_named(&a, "@data-type"));
        let tag_y = part_text(&b, find_named(&b, "@data-type"));
        if let Some(e) = check_tag(entries[k].1, &tag_x, &tag_y) {
            return Some(e);
        }
        match decode_tag(entries[k].1, buffered) {
            Ok(kind) => {
                if d >= entries.len() {
                    return None;
                }
                assert(fields[d as int] == (
                    entries@[d as int].0@,
                    json_tree(*entries@[d as int].1),
                ));
                assert(decreases_to!(t => t->Object_0));
                assert(decreases_to!(fields => fields[d as int]));
                let data_x = part_text(&a, find_named(&a, "data"));
                let data_y = part_text(&b, find_named(&b, "data"));
                check_content(kind, entries[d].1, buffered || d < k, &data_x, &data_y)
            },
            Err(_) => None,
        }
    } else {
        None
    }
}

fn check_content(kind: Kind, d: &JsonValue, buffered: bool, x: &Vec<u8>, y: &Vec<u8>) -> (r: Option<
    DecodeError,
>)
    ensures
        error_option(r) == content_repeat(kind, json_tree(*d), buffered, x@, y@),
    decreases json_tree(*d), 0nat,
{
    let ghost t = json_tree(*d);
    match d.as_array() {
        Some(items) => {
            assert(decreases_to!(t => t->Array_0));
            if kind == Kind::Vector || kind == Kind::SetOf {
                check_items(items, false, buffered, x, y)
            } else if kind == Kind::Table {
                check_items(items, true, buffered, x, y)
            } else {
                None
            }
        },
        None => None,
    }
}

/// Where the names of some items are wrong, those of more items are wrong in the same way.
proof fn lemma_items_wrong(
    s: Seq<JsonView>,
    n: int,
    entries: bool,
    buffered: bool,
    x: Seq<u8>,
    y: Seq<u8>,
)
    requires
        0 <= n <= s.len(),
        items_repeat(s.take(n), entries, buffered, x, y) is Some,
    ensures
        items_repeat(s, entries, buffered, x, y) == items_repeat(
            s.take(n),
            entries,
            buffered,
            x,
            y,
        ),
    decreases s.len() - n,
{
    if n < s.len() {
        assert(s.take(n + 1).drop_last() =~= s.take(n));
        lemma_items_wrong(s, n + 1, entries, buffered, x, y);
    } else {
        assert(s.take(n) =~= s);
    }
}

fn check_items(
    items: &Vec<JsonValue>,
    entries: bool,
    buffered: bool,
    x: &Vec<u8>,
    y: &Vec<u8>,
) -> (r: Option<DecodeError>)
    ensures
        error_option(r) == items_repeat(json_trees(items@), entries, buffered, x@, y@),
    decreases json_trees(items@), 0nat,
{
    let ghost all = json_trees(items@);
    let a = find_parts(x);
    let b = find_parts(y);
    let mut i: usize = 0;
    while i < items.len()
        invariant
            i <= items.len(),
            all == json_trees(items@),
            part_views(a@) == parts_of(x@),
            part_views(b@) == parts_of(y@),
            items_repeat(all.take(i as int), entries, buffered, x@, y@) is None,
        decreases items.len() - i,
    {
        assert(decreases_to!(all => all[i as int]));
        assert(all.take(i + 1).drop_last() =~= all.take(i as int));
        assert(all.take(i + 1).last() == json_tree(items@[i as int]));
        let p = part_text(&a, i);
        let q = part_text(&b, i);
        let e = if entries {
            check_entry(&items[i], buffered, &p, &q)
        } else {
            check_value(&items[i], buffered, &p, &q)
        };
        if let Some(e) = e {
            proof {
                lemma_items_wrong(all, i + 1, entries, buffered, x@, y@);
            }
            return Some(e);
        }
        i = i + 1;
    }
    assert(all.take(i as int) =~= all);
    None
}

fn check_entry(j: &JsonValue, buffered: bool, x: &Vec<u8>, y: &Vec<u8>) -> (r: Option<DecodeError>)
    ensures
        error_option(r) == entry_repeat(json_tree(*j), buffered, x@, y@),
    decreases json_tree(*j), 1nat,
{
    let ghost t = json_tree(*j);
    let a = find_parts(x);
    let b = find_parts(y);
    if let Some(items) = j.as_array() {
        if items.len() < 2 {
            return None;
        }
        assert(t->Array_0[0] == json_tree(items@[0]));
        assert(t->Array_0[1] == json_tree(items@[1]));
        assert(decreases_to!(t => t->Array_0));
        assert(decreases_to!(t->Array_0 => t->Array_0[0]));
        assert(decreases_to!(t->Array_0 => t->Array_0[1]));
        match check_value(&items[0], buffered, &part_text(&a, 0), &part_text(&b, 0)) {
            Some(e) => Some(e),
            None => check_value(&items[1], buffered, &part_text(&a, 1), &part_text(&b, 1)),
        }
    } else if let Some(entries) = json_entries(j) {
        let ghost fields = t->Object_0;
        if check_repeats(&a, &b, "key") {
            return Some(duplicate("key"));
        }
        if check_repeats(&a, &b, "value") {
            return Some(duplicate("value"));
        }
        let k: usize = find_entry(&entries, "key");
        let v: usize = find_entry(&entries, "value");
        if k >= entries.len() || v >= entries.len() {
            return None;
        }
        assert(fields[k as int] == (entries@[k as int].0@, json_tree(*entries@[k as int].1)));
        assert(fields[v as int] == (entries@[v as int].0@, json_tree(*entries@[v as int].1)));
        assert(decreases_to!(t => t->Object_0));
        assert(decreases_to!(fields => fields[k as int]));
        assert(decreases_to!(fields => fields[v as int]));
        let key_x = part_text(&a, find_named(&a, "key"));
        let key_y = part_text(&b, find_named(&b, "key"));
        match check_value(entries[k].1, buffered, &key_x, &key_y) {
            Some(e) => Some(e),
            None => {
                let value_x = part_text(&a, find_named(&a, "value"));
                let value_y = part_text(&b, find_named(&b, "value"));
                check_value(entries[v].1, buffered, &value_x, &value_y)
            },
        }
    } else {
        None
    }
}

/// Looks for a field that the text of a value repeats.
pub(crate) fn check_value_text(j: &JsonValue, x: &Vec<u8>) -> (r: Option<DecodeError>)
    ensures
        error_option(r) == value_repeat(
            json_tree(*j),
            false,
            x@,
            encode_utf8(json_printed(json_tree(*j))),
        ),
{
    let y = json_print(j);
    check_value(j, false, x, &y.as_str().as_bytes_vec())
}

fn check_message(j: &JsonValue, name: &str, x: &Vec<u8>, y: &Vec<u8>) -> (r: Option<DecodeError>)
    requires
        message_type(json_tree(*j)) == Ok::<Seq<char>, DecodeErrorView>(name@),
    ensures
        error_option(r) == message_repeat(json_tree(*j), x@, y@),
{
    match json_entries(j) {
        None => None,
        Some(_) => {
            let a = find_parts(x);
            let b = find_parts(y);
            if same_text(name, "ack") {
                if check_repeats(&a, &b, "endpoint") {
                    Some(duplicate("endpoint"))
                } else if check_repeats(&a, &b, "version") {
                    Some(duplicate("version"))
                } else {
                    None
                }
            } else if same_text(name, "error") {
                if check_repeats(&a, &b, "code") {
                    Some(duplicate("code"))
                } else if check_repeats(&a, &b, "context") || check_repeats(&a, &b, "message") {
                    Some(duplicate("context"))
                } else {
                    None
                }
            } else if check_repeats(&a, &b, "topic") {
                Some(duplicate("topic"))
            } else {
                check_value(j, true, x, y)
            }
        },
    }
}

fn find_type_place(j: &JsonValue, x: &Vec<u8>) -> (r: usize)
    ensures
        r == type_place(json_tree(*j), x@),
        r <= x.len(),
{
    let parts = find_parts(x);
    assert(part_views(parts@).len() == parts.len());
    if let Some(items) = j.as_array() {
        if items.len() > 0 && parts.len() > 0 {
            assert(part_views(parts@)[0] == parts@[0]@);
            find_noticed(&parts[0], x.len())
        } else {
            find_trail(x)
        }
    } else {
        match json_entries(j) {
            Some(_) => {
                let i: usize = find_named(&parts, "type");
                if i < parts.len() {
                    assert(part_views(parts@)[i as int] == parts@[i as int]@);
                    find_noticed(&parts[i], x.len())
                } else {
                    find_trail(x)
                }
            },
            None => find_trail(x),
        }
    }
}

fn find_second_type(x: &Vec<u8>) -> (r: usize)
    ensures
        r == second_type(x@),
        r <= x.len(),
{
    let parts = find_parts(x);
    assert(part_views(parts@).len() == parts.len());
    let i: usize = find_named(&parts, "type");
    if i < parts.len() {
        let j: usize = find_named_from(&parts, "type", i + 1);
        if j < parts.len() {
            proof {
                lemma_named_from(part_views(parts@), "type"@, i + 1);
            }
            assert(part_views(parts@)[j as int] == parts@[j as int]@);
            return parts[j].colon;
        }
    }
    find_trail(x)
}

proof fn lemma_named_from(parts: Seq<PartView>, name: Seq<char>, from: int)
    ensures
        named_from(parts, name, from) >= from,
{
    lemma_named_at(parts.skip(from), name);
}

proof fn lemma_named_at(parts: Seq<PartView>, name: Seq<char>)
    ensures
        named_at(parts, name) >= 0,
    decreases parts.len(),
{
    if parts.len() > 0 {
        lemma_named_at(parts.drop_first(), name);
    }
}

impl Message {
    /// Reads a message from JSON text, with points in time in local time. The error says what is
    /// wrong with the text.
    pub fn from_text(x: &Vec<u8>, offset: Option<UtcOffset>) -> (r: Result<Message, String>)
        ensures
            match r {
                Ok(m) => message_read(x@, offset_view(offset)) == Ok::<MessageView, Seq<char>>(m@),
                Err(e) => message_read(x@, offset_view(offset)) == Err::<MessageView, Seq<char>>(
                    e@,
                ),
            },
    {
        let j = match json_parse(x.as_slice()) {
            Err(e) => {
                return Err(e);
            },
            Ok(j) => j,
        };
        let y = json_print(&j).as_str().as_bytes_vec();
        if json_entries(&j).is_some() && check_repeats(&find_parts(x), &find_parts(&y), "type") {
            let at: usize = find_second_type(x);
            return Err(joined("duplicate field `type`", describe_place(x, at).as_str(), ""));
        }
        let name = match read_message_type(&j) {
            Err(e) => {
                let at: usize = find_type_place(&j, x);
                return Err(joined(e.to_string().as_str(), describe_place(x, at).as_str(), ""));
            },
            Ok(name) => name,
        };
        match Message::from_json(&j, offset) {
            Err(e) => Err(e.to_string()),
            Ok(m) => match check_message(&j, name.as_str(), x, &y) {
                Some(e) => Err(e.to_string()),
                None => Ok(m),
            },
        }
    }
}

} // verus!
