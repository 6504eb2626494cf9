//! JSON text of values without the parts that are not read from.
//!
//! What is skipped while a value is read need not be more than well-formed: it may be nested more
//! deeply, hold larger numbers, and hold strings that are no text. The text is cut down to what
//! is read, so that `serde_json` does not have to hold the rest.
use vstd::prelude::*;

use crate::json::{json_parse, json_parsed};
use crate::scan::{
    find_front, find_named, find_parts, front, is_named, name_of, named_at, part_views, parts_of,
    quote, quoted, Part, PartView,
};
use crate::text::copy_bytes;
use crate::wire::{decode_item, decode_tag, item_kind, tag_kind, Kind};

verus! {

/// The kind that the text of a tag stands for, in an object or in an array.
pub open spec fn tag_in(x: Seq<u8>, in_object: bool) -> Option<Kind> {
    match json_parsed(x) {
        Ok(t) => match if in_object {
            tag_kind(t, false)
        } else {
            item_kind(t, false)
        } {
            Ok(kind) => Some(kind),
            Err(_) => None,
        },
        Err(_) => None,
    }
}

fn read_tag(x: &Vec<u8>, in_object: bool) -> (r: Option<Kind>)
    ensures
        r == tag_in(x@, in_object),
{
    match json_parse(x.as_slice()) {
        Ok(j) => {
            let kind = if in_object {
                decode_tag(&j, false)
            } else {
                decode_item(&j, false)
            };
            match kind {
                Ok(kind) => Some(kind),
                Err(_) => None,
            }
        },
        Err(_) => None,
    }
}

/// What a text is cut down to.
#[derive(Debug, Clone, Copy, PartialEq, Eq, Structural)]
pub enum Shape {
    /// A value.
    Value,
    /// An entry of a table.
    Entry,
    /// Several values.
    Values,
    /// The entries of a table.
    Entries,
    /// Something that is read from as a whole.
    Whole,
    /// Something that is not read from.
    Nothing,
}

impl Shape {
    /// What is read from the data of a value of a kind.
    pub open spec fn of(kind: Option<Kind>) -> Shape {
        match kind {
            Some(Kind::Nil) => Shape::Nothing,
            Some(Kind::Vector) => Shape::Values,
            Some(Kind::SetOf) => Shape::Values,
            Some(Kind::Table) => Shape::Entries,
            _ => Shape::Whole,
        }
    }

    fn find(kind: Option<Kind>) -> (r: Shape)
        ensures
            r == Shape::of(kind),
    {
        match kind {
            Some(Kind::Nil) => Shape::Nothing,
            Some(Kind::Vector) => Shape::Values,
            Some(Kind::SetOf) => Shape::Values,
            Some(Kind::Table) => Shape::Entries,
            _ => Shape::Whole,
        }
    }
}

/// What the part at a place is cut down to; `None` for a field that is not read from.
pub open spec fn part_shape(shape: Shape, x: Seq<u8>, i: int) -> Option<Shape> {
    let parts = parts_of(x);
    let object = front(x) == Some(0x7bu8);
    match shape {
        Shape::Value => if object {
            let k = named_at(parts, "@data-type"@);
            if is_part(parts[i], "@data-type"@) {
                Some(Shape::Whole)
            } else if !is_part(parts[i], "data"@) {
                None
            } else if 0 <= k < i {
                Some(Shape::of(tag_in(parts[k].text, true)))
            } else {
                Some(Shape::Whole)
            }
        } else if i == 1 {
            Some(Shape::of(tag_in(parts[0].text, false)))
        } else {
            Some(Shape::Whole)
        },
        Shape::Entry => if !object || is_part(parts[i], "key"@) || is_part(parts[i], "value"@) {
            Some(Shape::Value)
        } else {
            None
        },
        Shape::Values => Some(Shape::Value),
        Shape::Entries => Some(Shape::Entry),
        _ => Some(Shape::Whole),
    }
}

/// A part has a name.
pub open spec fn is_part(p: PartView, name: Seq<char>) -> bool {
    name_of(p.name) == Some(name)
}

/// The text that a shape leaves of a text.
pub open spec fn cut(shape: Shape, x: Seq<u8>) -> Seq<u8>
    decreases x.len(), 1nat, 0nat,
{
    if shape == Shape::Nothing {
        seq![0x6eu8, 0x75, 0x6c, 0x6c]
    } else if shape == Shape::Whole {
        x
    } else if front(x) == Some(0x7bu8) && (shape == Shape::Value || shape == Shape::Entry) {
        seq![0x7bu8] + cut_parts(shape, x, parts_of(x).len() as int) + seq![0x7du8]
    } else if front(x) == Some(0x5bu8) {
        seq![0x5bu8] + cut_parts(shape, x, parts_of(x).len() as int) + seq![0x5du8]
    } else {
        x
    }
}

/// What is left of the first parts, with commas between them.
pub open spec fn cut_parts(shape: Shape, x: Seq<u8>, n: int) -> Seq<u8>
    decreases x.len(), 0nat, n,
{
    if n <= 0 || n > parts_of(x).len() {
        Seq::empty()
    } else {
        let before = cut_parts(shape, x, n - 1);
        let p = parts_of(x)[n - 1];
        match part_shape(shape, x, n - 1) {
            None => before,
            Some(inner) => {
                let text = if p.text.len() < x.len() {
                    cut(inner, p.text)
                } else {
                    p.text
                };
                let part = if front(x) == Some(0x7bu8) {
                    quoted(p.name) + seq![0x3au8] + text
                } else {
                    text
                };
                if before.len() == 0 {
                    part
                } else {
                    before + seq![0x2cu8] + part
                }
            },
        }
    }
}

/// The text of a value without the parts that are not read from.
pub open spec fn pruned(x: Seq<u8>) -> Seq<u8> {
    cut(Shape::Value, x)
}

/// Of the data of a value without content nothing is read, of vectors, sets and tables their parts,
/// and of everything else all.
pub proof fn kinds_have_shapes(kind: Kind)
    ensures
        Shape::of(Some(Kind::Nil)) == Shape::Nothing,
        kind == Kind::Vector || kind == Kind::SetOf <==> Shape::of(Some(kind)) == Shape::Values,
        kind == Kind::Table <==> Shape::of(Some(kind)) == Shape::Entries,
        kind != Kind::Nil && kind != Kind::Vector && kind != Kind::SetOf && kind != Kind::Table
            ==> Shape::of(Some(kind)) == Shape::Whole,
        Shape::of(None) == Shape::Whole,
{
}

/// Of an object that is a value only the tag and the data are read from, and the data by the kind in
/// the tag only where the tag stands in front. Of an object that is an entry only the key and the
/// value are read from, both as values.
pub proof fn other_fields_are_left_out(x: Seq<u8>, i: int, name: Seq<char>)
    requires
        front(x) == Some(0x7bu8),
        0 <= i < parts_of(x).len(),
        is_part(parts_of(x)[i], name),
    ensures
        name == "@data-type"@ ==> part_shape(Shape::Value, x, i) == Some(Shape::Whole),
        name != "@data-type"@ && name != "data"@ ==> part_shape(Shape::Value, x, i) == None::<
            Shape,
        >,
        name == "data"@ && named_at(parts_of(x), "@data-type"@) >= i ==> part_shape(
            Shape::Value,
            x,
            i,
        ) == Some(Shape::Whole),
        name == "key"@ || name == "value"@ ==> part_shape(Shape::Entry, x, i) == Some(
            Shape::Value,
        ),
        name != "key"@ && name != "value"@ ==> part_shape(Shape::Entry, x, i) == None::<Shape>,
{
    reveal_strlit("@data-type");
    reveal_strlit("data");
    assert("@data-type"@.len() != "data"@.len());
}

/// The data behind a tag is cut down by the kind that the tag stands for.
pub proof fn tags_decide(x: Seq<u8>, i: int, kind: Kind)
    ensures
        front(x) == Some(0x7bu8) && is_part(parts_of(x)[i], "data"@) && 0 <= named_at(
            parts_of(x),
            "@data-type"@,
        ) < i && tag_in(parts_of(x)[named_at(parts_of(x), "@data-type"@)].text, true) == Some(kind)
            ==> part_shape(Shape::Value, x, i) == Some(Shape::of(Some(kind))),
        front(x) != Some(0x7bu8) && tag_in(parts_of(x)[0].text, false) == Some(kind) ==> part_shape(
            Shape::Value,
            x,
            1,
        ) == Some(Shape::of(Some(kind))),
        front(x) != Some(0x7bu8) && i != 1 ==> part_shape(Shape::Value, x, i) == Some(Shape::Whole),
        front(x) != Some(0x7bu8) ==> part_shape(Shape::Entry, x, i) == Some(Shape::Value),
        part_shape(Shape::Values, x, i) == Some(Shape::Value),
        part_shape(Shape::Entries, x, i) == Some(Shape::Entry),
{
    reveal_strlit("@data-type");
    reveal_strlit("data");
    assert("@data-type"@.len() != "data"@.len());
}

/// The text of a tag stands for the kind that its tree stands for.
pub proof fn tags_come_from_trees(x: Seq<u8>, in_object: bool)
    ensures
        json_parsed(x) is Err ==> tag_in(x, in_object) is None,
        json_parsed(x) matches Ok(t) ==> tag_in(x, true) == match tag_kind(t, false) {
            Ok(kind) => Some(kind),
            Err(_) => None,
        } && tag_in(x, false) == match item_kind(t, false) {
            Ok(kind) => Some(kind),
            Err(_) => None,
        },
{
}

/// What is read from as a whole stays as it is, so does what is neither an object nor an array, and
/// for what is not read from `null` stands.
pub proof fn whole_texts_stay(shape: Shape, x: Seq<u8>)
    ensures
        cut(Shape::Whole, x) == x,
        cut(Shape::Nothing, x) == vstd::utf8::encode_utf8("null"@),
        shape != Shape::Nothing && front(x) != Some(0x7bu8) && front(x) != Some(0x5bu8) ==> cut(
            shape,
            x,
        ) == x,
        pruned(x) == cut(Shape::Value, x),
{
    reveal_strlit("null");
    let s = "null"@;
    assert(vstd::utf8::is_ascii_chars(s));
    vstd::utf8::is_ascii_chars_encode_utf8(s);
    assert(cut(Shape::Nothing, x) =~= vstd::utf8::encode_utf8(s));
}

/// The parts of an array are cut down one by one, with commas between them, and the brackets stay.
pub proof fn items_are_cut(x: Seq<u8>)
    requires
        front(x) == Some(0x5bu8),
        forall|i: int| 0 <= i < parts_of(x).len() ==> (#[trigger] parts_of(x)[i]).text.len() < x.len(),
    ensures
        ({
            let parts = parts_of(x);
            &&& parts.len() == 0 ==> cut(Shape::Values, x) == seq![0x5bu8, 0x5d]
            &&& parts.len() == 1 ==> cut(Shape::Values, x) == seq![0x5bu8] + cut(
                Shape::Value,
                parts[0].text,
            ) + seq![0x5du8]
            &&& parts.len() == 2 && cut(Shape::Value, parts[0].text).len() > 0 ==> cut(
                Shape::Values,
                x,
            ) == seq![0x5bu8] + cut(Shape::Value, parts[0].text) + seq![0x2cu8] + cut(
                Shape::Value,
                parts[1].text,
            ) + seq![0x5du8]
            &&& parts.len() == 2 && cut(Shape::Entry, parts[0].text).len() > 0 ==> cut(
                Shape::Entries,
                x,
            ) == seq![0x5bu8] + cut(Shape::Entry, parts[0].text) + seq![0x2cu8] + cut(
                Shape::Entry,
                parts[1].text,
            ) + seq![0x5du8]
        }),
{
    let parts = parts_of(x);
    lemma_items_cut(Shape::Values, Shape::Value, x);
    lemma_items_cut(Shape::Entries, Shape::Entry, x);
    assert(seq![0x5bu8] + Seq::<u8>::empty() + seq![0x5du8] =~= seq![0x5bu8, 0x5d]);
    if parts.len() == 2 {
        let a = cut(Shape::Value, parts[0].text);
        let b = cut(Shape::Value, parts[1].text);
        assert(seq![0x5bu8] + (a + seq![0x2cu8] + b) + seq![0x5du8] =~= seq![0x5bu8] + a
            + seq![0x2cu8] + b + seq![0x5du8]);
        let c = cut(Shape::Entry, parts[0].text);
        let d = cut(Shape::Entry, parts[1].text);
        assert(seq![0x5bu8] + (c + seq![0x2cu8] + d) + seq![0x5du8] =~= seq![0x5bu8] + c
            + seq![0x2cu8] + d + seq![0x5du8]);
    }
}

proof fn lemma_items_cut(shape: Shape, inner: Shape, x: Seq<u8>)
    requires
        front(x) == Some(0x5bu8),
        forall|i: int| 0 <= i < parts_of(x).len() ==> (#[trigger] parts_of(x)[i]).text.len() < x.len(),
        (shape == Shape::Values && inner == Shape::Value) || (shape == Shape::Entries && inner
            == Shape::Entry),
    ensures
        ({
            let parts = parts_of(x);
            let a = cut(inner, parts[0].text);
            let b = cut(inner, parts[1].text);
            &&& cut(shape, x) == seq![0x5bu8] + cut_parts(shape, x, parts.len() as int)
                + seq![0x5du8]
            &&& cut_parts(shape, x, 0) == Seq::<u8>::empty()
            &&& parts.len() >= 1 ==> cut_parts(shape, x, 1) == a
            &&& parts.len() >= 2 && a.len() > 0 ==> cut_parts(shape, x, 2) == a + seq![0x2cu8] + b
        }),
{
    let parts = parts_of(x);
    assert(cut_parts(shape, x, 0) == Seq::<u8>::empty());
    if parts.len() >= 1 {
        assert(parts[0].text.len() < x.len());
        assert(cut_parts(shape, x, 1) == cut(inner, parts[0].text));
    }
    if parts.len() >= 2 {
        assert(parts[1].text.len() < x.len());
    }
}

/// The fields of an object keep their names, and what is not read from is left out with its name.
pub proof fn fields_are_cut(x: Seq<u8>, n: int)
    requires
        front(x) == Some(0x7bu8),
        0 < n <= parts_of(x).len(),
        parts_of(x)[n - 1].text.len() < x.len(),
    ensures
        ({
            let p = parts_of(x)[n - 1];
            &&& part_shape(Shape::Value, x, n - 1) is None ==> cut_parts(Shape::Value, x, n)
                == cut_parts(Shape::Value, x, n - 1)
            &&& part_shape(Shape::Value, x, n - 1) matches Some(inner) ==> cut_parts(
                Shape::Value,
                x,
                n - 1,
            ).len() == 0 ==> cut_parts(Shape::Value, x, n) == seq![0x22u8] + p.name
                + seq![0x22u8, 0x3a] + cut(inner, p.text)
            &&& cut(Shape::Value, x) == seq![0x7bu8] + cut_parts(
                Shape::Value,
                x,
                parts_of(x).len() as int,
            ) + seq![0x7du8]
        }),
{
    let p = parts_of(x)[n - 1];
    if let Some(inner) = part_shape(Shape::Value, x, n - 1) {
        assert(quoted(p.name) + seq![0x3au8] + cut(inner, p.text) =~= seq![0x22u8] + p.name
            + seq![0x22u8, 0x3a] + cut(inner, p.text));
    }
}

fn append(out: &mut Vec<u8>, more: &Vec<u8>)
    ensures
        final(out)@ == old(out)@ + more@,
{
    let ghost before = out@;
    let mut i: usize = 0;
    assert(out@ =~= before + more@.take(0));
    while i < more.len()
        invariant
            i <= more.len(),
            out@ == before + more@.take(i as int),
        decreases more.len() - i,
    {
        out.push(more[i]);
        i = i + 1;
        assert(out@ =~= before + more@.take(i as int));
    }
    assert(more@.take(i as int) =~= more@);
}

fn find_shape(
    shape: Shape,
    object: bool,
    parts: &Vec<Part>,
    i: usize,
    Ghost(x): Ghost<Seq<u8>>,
) -> (r: Option<Shape>)
    requires
        i < parts.len(),
        part_views(parts@) == parts_of(x),
        object == (front(x) == Some(0x7bu8)),
    ensures
        r == part_shape(shape, x, i as int),
{
    assert(parts_of(x)[i as int] == parts@[i as int]@);
    match shape {
        Shape::Value => if object {
            let k: usize = find_named(parts, "@data-type");
            if is_named(&parts[i], "@data-type") {
                Some(Shape::Whole)
            } else if !is_named(&parts[i], "data") {
                None
            } else if k < i {
                assert(parts_of(x)[k as int] == parts@[k as int]@);
                Some(Shape::find(read_tag(&parts[k].text, true)))
            } else {
                Some(Shape::Whole)
            }
        } else if i == 1 {
            assert(parts_of(x)[0] == parts@[0]@);
            Some(Shape::find(read_tag(&parts[0].text, false)))
        } else {
            Some(Shape::Whole)
        },
        Shape::Entry => if !object || is_named(&parts[i], "key") || is_named(&parts[i], "value") {
            Some(Shape::Value)
        } else {
            None
        },
        Shape::Values => Some(Shape::Value),
        Shape::Entries => Some(Shape::Entry),
        _ => Some(Shape::Whole),
    }
}

fn cut_text(shape: Shape, x: &Vec<u8>) -> (r: Vec<u8>)
    ensures
        r@ == cut(shape, x@),
    decreases x.len(),
{
    if shape == Shape::Nothing {
        let r: Vec<u8> = vec![0x6e, 0x75, 0x6c, 0x6c];
        assert(r@ =~= cut(shape, x@));
        return r;
    }
    let object = match find_front(x) {
        Some(b) => b == 0x7b,
        None => false,
    };
    let array = match find_front(x) {
        Some(b) => b == 0x5b,
        None => false,
    };
    let split = shape != Shape::Whole && ((object && (shape == Shape::Value || shape
        == Shape::Entry)) || array);
    if !split {
        return copy_bytes(x);
    }
    let parts = find_parts(x);
    assert(part_views(parts@).len() == parts.len());
    let mut inner: Vec<u8> = Vec::new();
    let mut i: usize = 0;
    assert(inner@ =~= cut_parts(shape, x@, 0));
    while i < parts.len()
        invariant
            i <= parts.len(),
            part_views(parts@) == parts_of(x@),
            part_views(parts@).len() == parts.len(),
            object == (front(x@) == Some(0x7bu8)),
            inner@ == cut_parts(shape, x@, i as int),
        decreases parts.len() - i,
    {
        let p = &parts[i];
        assert(parts_of(x@)[i as int] == p@);
        match find_shape(shape, object, &parts, i, Ghost(x@)) {
            None => {},
            Some(s) => {
                let text = if p.text.len() < x.len() {
                    cut_text(s, &p.text)
                } else {
                    copy_bytes(&p.text)
                };
                if inner.len() > 0 {
                    inner.push(0x2c);
                }
                let ghost lead = inner@;
                if object {
                    append(&mut inner, &quote(&p.name));
                    inner.push(0x3a);
                }
                append(&mut inner, &text);
                proof {
                    let before = cut_parts(shape, x@, i as int);
                    let part = if object {
                        quoted(p.name@) + seq![0x3au8] + text@
                    } else {
                        text@
                    };
                    assert(inner@ =~= lead + part);
                    assert(before.len() == 0 ==> inner@ =~= part);
                    assert(before.len() > 0 ==> inner@ =~= before + seq![0x2cu8] + part);
                }
            },
        }
        i = i + 1;
    }
    let mut out: Vec<u8> = Vec::new();
    if object {
        out.push(0x7b);
    } else {
        out.push(0x5b);
    }
    append(&mut out, &inner);
    if object {
        out.push(0x7d);
    } else {
        out.push(0x5d);
    }
    assert(out@ =~= cut(shape, x@));
    out
}

/// Cuts the text of a value down to what is read.
pub fn prune(x: &Vec<u8>) -> (r: Vec<u8>)
    ensures
        r@ == pruned(x@),
{
    cut_text(Shape::Value, x)
}

} // verus!
