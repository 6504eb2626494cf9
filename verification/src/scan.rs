//! Where the parts of a JSON text stand, and which names it repeats.
//!
//! `serde_json` decides what is JSON and what it holds. What it does not tell is where something
//! stood in the text, and that a name occurred more than once: both are read off the brackets,
//! quotation marks, colons and commas of a text that it has accepted.
use vstd::prelude::*;

use crate::json::{json_parse, json_parsed, JsonView};
use crate::text::{copy_bytes, decimal, format_unsigned, joined, same_text};

verus! {

pub open spec fn is_space(b: u8) -> bool {
    b == 0x20 || b == 0x09 || b == 0x0a || b == 0x0d
}

fn space(b: u8) -> (r: bool)
    ensures
        r == is_space(b),
{
    b == 0x20 || b == 0x09 || b == 0x0a || b == 0x0d
}

/// A field of an object or an item of an array, in its text.
pub struct PartView {
    /// The name of a field, as it is written between its quotation marks.
    pub name: Seq<u8>,
    /// Where the colon behind the name stands; for an item, what is in front of it.
    pub colon: int,
    /// Where what the part holds starts.
    pub start: int,
    /// What the part holds.
    pub text: Seq<u8>,
}

/// How far the parts of a text are known.
pub struct Scan {
    /// How many brackets are open.
    pub depth: nat,
    /// Within a string.
    pub inside: bool,
    /// Behind a backslash.
    pub escaped: bool,
    /// What the string holds so far, as it is written.
    pub current: Seq<u8>,
    /// What the last string held, as it was written.
    pub last: Seq<u8>,
    /// The part so far.
    pub part: PartView,
    /// The part is more than white space.
    pub filled: bool,
    pub parts: Seq<PartView>,
}

impl Scan {
    pub open spec fn start() -> Scan {
        Scan {
            depth: 0,
            inside: false,
            escaped: false,
            current: Seq::empty(),
            last: Seq::empty(),
            part: PartView { name: Seq::empty(), colon: 0, start: 0, text: Seq::empty() },
            filled: false,
            parts: Seq::empty(),
        }
    }

    /// A byte that belongs to the part.
    pub open spec fn take(self, b: u8) -> Scan {
        Scan {
            part: PartView { text: self.part.text.push(b), ..self.part },
            filled: self.filled || self.inside || !is_space(b),
            ..self
        }
    }

    /// A part starts behind the byte at this place.
    pub open spec fn begin(self, at: int, name: Seq<u8>) -> Scan {
        Scan {
            part: PartView { name, colon: at, start: at + 1, text: Seq::empty() },
            filled: false,
            ..self
        }
    }

    /// The part is complete.
    pub open spec fn end(self) -> Scan {
        if self.filled {
            Scan { parts: self.parts.push(self.part), ..self }
        } else {
            self
        }
    }

    /// What is known behind one more byte.
    pub open spec fn step(self, at: int, b: u8) -> Scan {
        if self.inside {
            let s = self.take(b);
            if self.escaped {
                Scan { escaped: false, current: self.current.push(b), ..s }
            } else if b == 0x5c {
                Scan { escaped: true, current: self.current.push(b), ..s }
            } else if b == 0x22 {
                Scan { inside: false, last: self.current, ..s }
            } else {
                Scan { current: self.current.push(b), ..s }
            }
        } else if b == 0x22 {
            Scan { inside: true, current: Seq::empty(), ..self.take(b) }
        } else if b == 0x7b || b == 0x5b {
            if self.depth == 0 {
                Scan { depth: 1, ..self.begin(at, Seq::empty()) }
            } else {
                Scan { depth: self.depth + 1, ..self.take(b) }
            }
        } else if b == 0x7d || b == 0x5d {
            if self.depth == 1 {
                Scan { depth: 0, ..self.end() }
            } else if self.depth > 1 {
                Scan { depth: (self.depth - 1) as nat, ..self.take(b) }
            } else {
                self
            }
        } else if b == 0x2c && self.depth == 1 {
            self.end().begin(at, Seq::empty())
        } else if b == 0x3a && self.depth == 1 {
            self.begin(at, self.last)
        } else {
            self.take(b)
        }
    }

    pub open spec fn of(x: Seq<u8>) -> Scan
        decreases x.len(),
    {
        if x.len() == 0 {
            Scan::start()
        } else {
            Scan::of(x.drop_last()).step(x.len() - 1, x.last())
        }
    }
}

/// The fields or the items of the object or array that a text is, in their order.
pub open spec fn parts_of(x: Seq<u8>) -> Seq<PartView> {
    Scan::of(x).parts
}

/// A field of an object or an item of an array, in its text.
#[derive(Debug)]
pub struct Part {
    pub name: Vec<u8>,
    pub colon: usize,
    pub start: usize,
    pub text: Vec<u8>,
}

impl View for Part {
    type V = PartView;

    open spec fn view(&self) -> PartView {
        PartView {
            name: self.name@,
            colon: self.colon as int,
            start: self.start as int,
            text: self.text@,
        }
    }
}

/// What several parts are.
pub open spec fn part_views(s: Seq<Part>) -> Seq<PartView> {
    Seq::new(s.len(), |i: int| s[i]@)
}

/// The fields or the items of the object or array that a text is, in their order.
pub fn find_parts(x: &Vec<u8>) -> (r: Vec<Part>)
    ensures
        part_views(r@) == parts_of(x@),
        forall|i: int|
            0 <= i < r.len() ==> (#[trigger] r@[i]).start + r@[i].text.len() <= x.len()
                && r@[i].colon <= x.len(),
{
    let mut depth: usize = 0;
    let mut inside = false;
    let mut escaped = false;
    let mut current: Vec<u8> = Vec::new();
    let mut last: Vec<u8> = Vec::new();
    let mut name: Vec<u8> = Vec::new();
    let mut colon: usize = 0;
    let mut start: usize = 0;
    let mut text: Vec<u8> = Vec::new();
    let mut filled = false;
    let mut parts: Vec<Part> = Vec::new();
    let mut i: usize = 0;
    assert(part_views(parts@) =~= Seq::empty());
    assert(x@.take(0) =~= Seq::empty());
    while i < x.len()
        invariant
            i <= x.len(),
            depth <= i,
            start + text.len() <= i,
            colon <= i,
            forall|j: int|
                0 <= j < parts.len() ==> (#[trigger] parts@[j]).start + parts@[j].text.len()
                    <= x.len() && parts@[j].colon <= x.len(),
            Scan::of(x@.take(i as int)) == (Scan {
                depth: depth as nat,
                inside,
                escaped,
                current: current@,
                last: last@,
                part: PartView {
                    name: name@,
                    colon: colon as int,
                    start: start as int,
                    text: text@,
                },
                filled,
                parts: part_views(parts@),
            }),
        decreases x.len() - i,
    {
        let b: u8 = x[i];
        let ghost before = part_views(parts@);
        assert(x@.take(i + 1).drop_last() =~= x@.take(i as int));
        assert(x@.take(i + 1).last() == b);
        if inside {
            text.push(b);
            filled = true;
            if escaped {
                escaped = false;
                current.push(b);
            } else if b == 0x5c {
                escaped = true;
                current.push(b);
            } else if b == 0x22 {
                inside = false;
                last = copy_bytes(&current);
            } else {
                current.push(b);
            }
        } else if b == 0x22 {
            text.push(b);
            filled = true;
            inside = true;
            current = Vec::new();
            assert(current@ =~= Seq::empty());
        } else if b == 0x7b || b == 0x5b {
            if depth == 0 {
                depth = 1;
                name = Vec::new();
                colon = i;
                start = i + 1;
                text = Vec::new();
                filled = false;
                assert(name@ =~= Seq::empty() && text@ =~= Seq::empty());
            } else {
                depth = depth + 1;
                text.push(b);
                filled = true;
            }
        } else if b == 0x7d || b == 0x5d {
            if depth == 1 {
                depth = 0;
                if filled {
                    parts.push(
                        Part { name: copy_bytes(&name), colon, start, text: copy_bytes(&text) },
                    );
                    assert(part_views(parts@) =~= before.push(
                        PartView {
                            name: name@,
                            colon: colon as int,
                            start: start as int,
                            text: text@,
                        },
                    ));
                }
            } else if depth > 1 {
                depth = depth - 1;
                text.push(b);
                filled = true;
            }
        } else if b == 0x2c && depth == 1 {
            if filled {
                parts.push(Part { name: copy_bytes(&name), colon, start, text: copy_bytes(&text) });
                assert(part_views(parts@) =~= before.push(
                    PartView {
                        name: name@,
                        colon: colon as int,
                        start: start as int,
                        text: text@,
                    },
                ));
            }
            name = Vec::new();
            colon = i;
            start = i + 1;
            text = Vec::new();
            filled = false;
            assert(name@ =~= Seq::empty() && text@ =~= Seq::empty());
        } else if b == 0x3a && depth == 1 {
            name = copy_bytes(&last);
            colon = i;
            start = i + 1;
            text = Vec::new();
            filled = false;
            assert(text@ =~= Seq::empty());
        } else {
            text.push(b);
            filled = filled || !space(b);
        }
        i = i + 1;
    }
    assert(x@.take(i as int) =~= x@);
    parts
}

/// A name as it is written, in quotation marks.
pub open spec fn quoted(raw: Seq<u8>) -> Seq<u8> {
    seq![0x22u8] + raw + seq![0x22u8]
}

/// The name that is written so.
pub open spec fn name_of(raw: Seq<u8>) -> Option<Seq<char>> {
    match json_parsed(quoted(raw)) {
        Ok(JsonView::Text(s)) => Some(s),
        _ => None,
    }
}

/// Adds quotation marks.
pub fn quote(raw: &Vec<u8>) -> (r: Vec<u8>)
    ensures
        r@ == quoted(raw@),
{
    let mut out: Vec<u8> = Vec::new();
    out.push(0x22);
    let mut i: usize = 0;
    while i < raw.len()
        invariant
            i <= raw.len(),
            out@ == seq![0x22u8] + raw@.take(i as int),
        decreases raw.len() - i,
    {
        out.push(raw[i]);
        i = i + 1;
        assert(out@ =~= seq![0x22u8] + raw@.take(i as int));
    }
    assert(raw@.take(i as int) =~= raw@);
    out.push(0x22);
    assert(out@ =~= quoted(raw@));
    out
}

pub fn is_named(part: &Part, name: &str) -> (r: bool)
    ensures
        r == (name_of(part.name@) == Some(name@)),
{
    match json_parse(quote(&part.name).as_slice()) {
        Ok(j) => match j.as_str() {
            Some(s) => same_text(s, name),
            None => false,
        },
        Err(_) => false,
    }
}

/// How many parts have a name.
pub open spec fn count_named(parts: Seq<PartView>, name: Seq<char>) -> nat
    decreases parts.len(),
{
    if parts.len() == 0 {
        0
    } else {
        count_named(parts.drop_last(), name) + if name_of(parts.last().name) == Some(name) {
            1nat
        } else {
            0nat
        }
    }
}

/// Where the first part with a name stands among the parts; behind the last where there is none.
pub open spec fn named_at(parts: Seq<PartView>, name: Seq<char>) -> int
    decreases parts.len(),
{
    if parts.len() == 0 || name_of(parts[0].name) == Some(name) {
        0
    } else {
        1 + named_at(parts.drop_first(), name)
    }
}

/// The text of the first part with a name; empty where there is none.
pub open spec fn text_named(x: Seq<u8>, name: Seq<char>) -> Seq<u8> {
    text_at(x, named_at(parts_of(x), name))
}

/// The text of the part at a place; empty where there is none.
pub open spec fn text_at(x: Seq<u8>, i: int) -> Seq<u8> {
    if 0 <= i < parts_of(x).len() {
        parts_of(x)[i].text
    } else {
        Seq::empty()
    }
}

pub fn count_parts(parts: &Vec<Part>, name: &str) -> (r: usize)
    ensures
        r == count_named(part_views(parts@), name@),
{
    let ghost all = part_views(parts@);
    let mut n: usize = 0;
    let mut i: usize = 0;
    while i < parts.len()
        invariant
            i <= parts.len(),
            n <= i,
            all == part_views(parts@),
            n == count_named(all.take(i as int), name@),
        decreases parts.len() - i,
    {
        assert(all.take(i + 1).drop_last() =~= all.take(i as int));
        assert(all.take(i + 1).last() == parts@[i as int]@);
        if is_named(&parts[i], name) {
            n = n + 1;
        }
        i = i + 1;
    }
    assert(all.take(i as int) =~= all);
    n
}

/// Where the first part with a name stands among the parts from a place on.
pub open spec fn named_from(parts: Seq<PartView>, name: Seq<char>, from: int) -> int {
    from + named_at(parts.skip(from), name)
}

pub fn find_named(parts: &Vec<Part>, name: &str) -> (r: usize)
    ensures
        r == named_at(part_views(parts@), name@),
        r <= parts.len(),
{
    assert(part_views(parts@).skip(0) =~= part_views(parts@));
    find_named_from(parts, name, 0)
}

pub fn find_named_from(parts: &Vec<Part>, name: &str, from: usize) -> (r: usize)
    requires
        from <= parts.len(),
    ensures
        r == named_from(part_views(parts@), name@, from as int),
        r <= parts.len(),
{
    let ghost all = part_views(parts@);
    let mut i: usize = from;
    while i < parts.len()
        invariant
            from <= i <= parts.len(),
            all == part_views(parts@),
            named_from(all, name@, from as int) == i + named_at(all.skip(i as int), name@),
        decreases parts.len() - i,
    {
        assert(all.skip(i as int)[0] == parts@[i as int]@);
        assert(all.skip(i as int).drop_first() =~= all.skip(i + 1));
        if is_named(&parts[i], name) {
            return i;
        }
        i = i + 1;
    }
    i
}

/// The text of the part at a place.
pub fn part_text(parts: &Vec<Part>, i: usize) -> (r: Vec<u8>)
    ensures
        r@ == if i < parts.len() {
            part_views(parts@)[i as int].text
        } else {
            Seq::empty()
        },
{
    if i < parts.len() {
        copy_bytes(&parts[i].text)
    } else {
        let out: Vec<u8> = Vec::new();
        assert(out@ =~= Seq::empty());
        out
    }
}

/// How much white space a text starts with.
pub open spec fn lead(x: Seq<u8>) -> int
    decreases x.len(),
{
    if x.len() == 0 || !is_space(x[0]) {
        0
    } else {
        1 + lead(x.drop_first())
    }
}

/// Where the white space that a text ends with starts.
pub open spec fn trail(x: Seq<u8>) -> int
    decreases x.len(),
{
    if x.len() == 0 || !is_space(x.last()) {
        x.len() as int
    } else {
        trail(x.drop_last())
    }
}

pub fn find_lead(x: &Vec<u8>) -> (r: usize)
    ensures
        r == lead(x@),
        r <= x.len(),
{
    let mut i: usize = 0;
    assert(x@.skip(0) =~= x@);
    while i < x.len()
        invariant
            i <= x.len(),
            lead(x@) == i + lead(x@.skip(i as int)),
        decreases x.len() - i,
    {
        assert(x@.skip(i as int)[0] == x@[i as int]);
        assert(x@.skip(i as int).drop_first() =~= x@.skip(i + 1));
        if !space(x[i]) {
            return i;
        }
        i = i + 1;
    }
    i
}

pub fn find_trail(x: &Vec<u8>) -> (r: usize)
    ensures
        r == trail(x@),
        r <= x.len(),
{
    let mut i: usize = x.len();
    assert(x@.take(i as int) =~= x@);
    while i > 0
        invariant
            i <= x.len(),
            trail(x@) == trail(x@.take(i as int)),
        decreases i,
    {
        assert(x@.take(i as int).last() == x@[i - 1]);
        assert(x@.take(i as int).drop_last() =~= x@.take(i - 1));
        if !space(x[i - 1]) {
            return i;
        }
        i = i - 1;
    }
    i
}

/// The first byte that is not white space.
pub open spec fn front(x: Seq<u8>) -> Option<u8> {
    if 0 <= lead(x) < x.len() {
        Some(x[lead(x)])
    } else {
        None
    }
}

pub fn find_front(x: &Vec<u8>) -> (r: Option<u8>)
    ensures
        r == front(x@),
{
    let i: usize = find_lead(x);
    if i < x.len() {
        Some(x[i])
    } else {
        None
    }
}

/// Where something of the wrong kind is noticed: at its bracket, or behind it where it has none.
pub open spec fn noticed(start: int, x: Seq<u8>) -> int {
    if front(x) == Some(0x7bu8) || front(x) == Some(0x5bu8) {
        start + lead(x)
    } else {
        start + trail(x)
    }
}

pub fn find_noticed(part: &Part, limit: usize) -> (r: usize)
    requires
        part.start + part.text.len() <= limit,
    ensures
        r == noticed(part.start as int, part.text@),
        r <= limit,
{
    match find_front(&part.text) {
        Some(b) => if b == 0x7b || b == 0x5b {
            part.start + find_lead(&part.text)
        } else {
            part.start + find_trail(&part.text)
        },
        None => part.start + find_trail(&part.text),
    }
}

/// The line that the byte at a place stands in.
pub open spec fn line_at(x: Seq<u8>, i: int) -> nat
    decreases i,
{
    if i <= 0 {
        1
    } else {
        line_at(x, i - 1) + if x[i - 1] == 0x0a {
            1nat
        } else {
            0nat
        }
    }
}

/// How many bytes of its line stand in front of the byte at a place.
pub open spec fn column_at(x: Seq<u8>, i: int) -> nat
    decreases i,
{
    if i <= 0 || x[i - 1] == 0x0a {
        0
    } else {
        column_at(x, i - 1) + 1
    }
}

/// How a place in a text is described.
pub open spec fn place(x: Seq<u8>, i: int) -> Seq<char> {
    " at line "@ + decimal(line_at(x, i)) + (" column "@ + decimal(column_at(x, i)) + ""@)
}

/// Describes a place in a text.
pub fn describe_place(x: &Vec<u8>, at: usize) -> (r: String)
    requires
        at <= x.len(),
    ensures
        r@ == place(x@, at as int),
{
    let mut line: u128 = 1;
    let mut column: u128 = 0;
    let mut i: usize = 0;
    while i < at
        invariant
            i <= at <= x.len(),
            line <= i + 1,
            column <= i,
            line == line_at(x@, i as int),
            column == column_at(x@, i as int),
        decreases at - i,
    {
        if x[i] == 0x0a {
            line = line + 1;
            column = 0;
        } else {
            column = column + 1;
        }
        i = i + 1;
    }
    joined(
        " at line ",
        format_unsigned(line).as_str(),
        joined(" column ", format_unsigned(column).as_str(), "").as_str(),
    )
}

/// A byte that has no meaning of its own outside of a string.
pub open spec fn is_plain(b: u8) -> bool {
    b != 0x22 && b != 0x5b && b != 0x5d && b != 0x7b && b != 0x7d && b != 0x2c && b != 0x3a
}

/// Plain bytes belong to the part that they stand in.
proof fn lemma_plain_run(x: Seq<u8>, a: Seq<u8>)
    requires
        !Scan::of(x).inside,
        a.len() > 0,
        !is_space(a[0]),
        forall|i: int| 0 <= i < a.len() ==> is_plain(#[trigger] a[i]),
    ensures
        Scan::of(x + a) == (Scan {
            part: PartView { text: Scan::of(x).part.text + a, ..Scan::of(x).part },
            filled: true,
            ..Scan::of(x)
        }),
    decreases a.len(),
{
    let y = x + a;
    let text = Scan::of(x).part.text;
    assert(y.drop_last() =~= x + a.drop_last());
    assert(y.last() == a.last());
    assert(is_plain(a[a.len() - 1]));
    assert(text + a =~= (text + a.drop_last()).push(a.last()));
    if a.len() > 1 {
        assert forall|i: int| 0 <= i < a.drop_last().len() implies is_plain(
            #[trigger] a.drop_last()[i],
        ) by {
            assert(is_plain(a[i]));
        }
        lemma_plain_run(x, a.drop_last());
    } else {
        assert(x + a.drop_last() =~= x);
        assert(text + a.drop_last() =~= text);
    }
}

/// What stands between quotation marks belongs to the part, whatever it is, and is the last string.
proof fn lemma_string_run(x: Seq<u8>, q: Seq<u8>)
    requires
        Scan::of(x).inside,
        !Scan::of(x).escaped,
        Scan::of(x).filled,
        forall|i: int| 0 <= i < q.len() ==> #[trigger] q[i] != 0x22 && q[i] != 0x5c,
    ensures
        Scan::of(x + q) == (Scan {
            part: PartView { text: Scan::of(x).part.text + q, ..Scan::of(x).part },
            current: Scan::of(x).current + q,
            ..Scan::of(x)
        }),
    decreases q.len(),
{
    let y = x + q;
    let s = Scan::of(x);
    if q.len() > 0 {
        assert(y.drop_last() =~= x + q.drop_last());
        assert(y.last() == q.last());
        assert(q[q.len() - 1] != 0x22);
        assert forall|i: int| 0 <= i < q.drop_last().len() implies #[trigger] q.drop_last()[i]
            != 0x22 && q.drop_last()[i] != 0x5c by {
            assert(q[i] != 0x22);
        }
        lemma_string_run(x, q.drop_last());
        assert(s.part.text + q =~= (s.part.text + q.drop_last()).push(q.last()));
        assert(s.current + q =~= (s.current + q.drop_last()).push(q.last()));
    } else {
        assert(y =~= x);
        assert(s.part.text + q =~= s.part.text);
        assert(s.current + q =~= s.current);
    }
}

proof fn lemma_step(x: Seq<u8>, b: u8)
    ensures
        Scan::of(x.push(b)) == Scan::of(x).step(x.len() as int, b),
{
    assert(x.push(b).drop_last() =~= x);
}

/// Commas part the items of an array: each is a part without a name that starts behind the bracket
/// or the comma in front of it and holds what stands up to the next.
pub proof fn commas_part_items(a: Seq<u8>, b: Seq<u8>)
    requires
        a.len() > 0 && b.len() > 0,
        !is_space(a[0]) && !is_space(b[0]),
        forall|i: int| 0 <= i < a.len() ==> is_plain(#[trigger] a[i]),
        forall|i: int| 0 <= i < b.len() ==> is_plain(#[trigger] b[i]),
    ensures
        parts_of(seq![0x5bu8] + a + seq![0x2cu8] + b + seq![0x5du8]) == seq![
            PartView { name: Seq::empty(), colon: 0, start: 1, text: a },
            PartView {
                name: Seq::empty(),
                colon: (a.len() + 1) as int,
                start: (a.len() + 2) as int,
                text: b,
            },
        ],
{
    let e = Seq::<u8>::empty();
    let x0 = e.push(0x5b);
    lemma_step(e, 0x5b);
    lemma_plain_run(x0, a);
    let x1 = x0 + a;
    lemma_step(x1, 0x2c);
    let x2 = x1.push(0x2c);
    lemma_plain_run(x2, b);
    let x3 = x2 + b;
    lemma_step(x3, 0x5d);
    assert(e + a =~= a);
    assert(e + b =~= b);
    assert(x3.push(0x5d) =~= seq![0x5bu8] + a + seq![0x2cu8] + b + seq![0x5du8]);
    let first = PartView { name: e, colon: 0, start: 1, text: a };
    let second = PartView {
        name: e,
        colon: (a.len() + 1) as int,
        start: (a.len() + 2) as int,
        text: b,
    };
    assert(Seq::<PartView>::empty().push(first).push(second) =~= seq![first, second]);
}

/// A colon parts the name of a field from what the field holds. What stands between the quotation
/// marks is the name, and brackets, colons and commas in it are part of it.
pub proof fn colons_part_fields(name: Seq<u8>, a: Seq<u8>)
    requires
        forall|i: int| 0 <= i < name.len() ==> #[trigger] name[i] != 0x22 && name[i] != 0x5c,
        a.len() > 0,
        !is_space(a[0]),
        forall|i: int| 0 <= i < a.len() ==> is_plain(#[trigger] a[i]),
    ensures
        parts_of(seq![0x7bu8, 0x22u8] + name + seq![0x22u8, 0x3au8] + a + seq![0x7du8]) == seq![
            PartView {
                name,
                colon: (name.len() + 3) as int,
                start: (name.len() + 4) as int,
                text: a,
            },
        ],
{
    let e = Seq::<u8>::empty();
    let x0 = e.push(0x7b);
    lemma_step(e, 0x7b);
    lemma_step(x0, 0x22);
    let x1 = x0.push(0x22);
    lemma_string_run(x1, name);
    let x2 = x1 + name;
    lemma_step(x2, 0x22);
    let x3 = x2.push(0x22);
    lemma_step(x3, 0x3a);
    let x4 = x3.push(0x3a);
    lemma_plain_run(x4, a);
    let x5 = x4 + a;
    lemma_step(x5, 0x7d);
    assert(e + name =~= name);
    assert(e + a =~= a);
    assert(x5.push(0x7d) =~= seq![0x7bu8, 0x22u8] + name + seq![0x22u8, 0x3au8] + a
        + seq![0x7du8]);
    let field = PartView {
        name,
        colon: (name.len() + 3) as int,
        start: (name.len() + 4) as int,
        text: a,
    };
    assert(Seq::<PartView>::empty().push(field) =~= seq![field]);
}

/// Brackets, colons and commas in a string do not part anything.
pub proof fn strings_are_not_parted(q: Seq<u8>)
    requires
        forall|i: int| 0 <= i < q.len() ==> #[trigger] q[i] != 0x22 && q[i] != 0x5c,
    ensures
        parts_of(seq![0x5bu8] + (seq![0x22u8] + q + seq![0x22u8]) + seq![0x5du8]) == seq![
            PartView {
                name: Seq::empty(),
                colon: 0,
                start: 1,
                text: seq![0x22u8] + q + seq![0x22u8],
            },
        ],
{
    let e = Seq::<u8>::empty();
    let x0 = e.push(0x5b);
    lemma_step(e, 0x5b);
    lemma_step(x0, 0x22);
    let x1 = x0.push(0x22);
    lemma_string_run(x1, q);
    let x2 = x1 + q;
    lemma_step(x2, 0x22);
    let x3 = x2.push(0x22);
    lemma_step(x3, 0x5d);
    let text = seq![0x22u8] + q + seq![0x22u8];
    assert((e.push(0x22) + q).push(0x22) =~= text);
    assert(x3.push(0x5d) =~= seq![0x5bu8] + text + seq![0x5du8]);
    let item = PartView { name: e, colon: 0, start: 1, text };
    assert(Seq::<PartView>::empty().push(item) =~= seq![item]);
}

/// The line of a place is one more than the line breaks in front of it, and its column is how many
/// bytes stand between it and the last of these.
pub proof fn places_are_counted(x: Seq<u8>, i: int)
    requires
        0 <= i <= x.len(),
    ensures
        line_at(x, i) == 1 + x.take(i).filter(|b: u8| b == 0x0a).len(),
        0 <= column_at(x, i) <= i,
        forall|j: int| i - column_at(x, i) <= j < i ==> #[trigger] x[j] != 0x0a,
        column_at(x, i) < i ==> x[i - column_at(x, i) - 1] == 0x0a,
        place(x, i) == " at line "@ + decimal(line_at(x, i)) + " column "@ + decimal(
            column_at(x, i),
        ),
    decreases i,
{
    let keep = |b: u8| b == 0x0a;
    reveal(Seq::filter);
    if i > 0 {
        places_are_counted(x, i - 1);
        assert(x.take(i).drop_last() =~= x.take(i - 1));
        assert(x.take(i).last() == x[i - 1]);
    }
    reveal_strlit("");
    let (l, c) = (decimal(line_at(x, i)), decimal(column_at(x, i)));
    assert(" at line "@ + l + (" column "@ + c + ""@) =~= " at line "@ + l + " column "@ + c);
}

/// White space ends where something else stands first, and starts again behind where something else
/// stands last.
pub proof fn spaces_are_counted(x: Seq<u8>)
    ensures
        0 <= lead(x) <= x.len(),
        forall|i: int| 0 <= i < lead(x) ==> is_space(#[trigger] x[i]),
        lead(x) < x.len() ==> !is_space(x[lead(x)]),
        0 <= trail(x) <= x.len(),
        forall|i: int| trail(x) <= i < x.len() ==> is_space(#[trigger] x[i]),
        trail(x) > 0 ==> !is_space(x[trail(x) - 1]),
    decreases x.len(),
{
    if x.len() > 0 {
        spaces_are_counted(x.drop_first());
        spaces_are_counted(x.drop_last());
        assert forall|i: int| 0 <= i < lead(x) implies is_space(#[trigger] x[i]) by {
            if i > 0 {
                assert(is_space(x.drop_first()[i - 1]));
            }
        }
        assert forall|i: int| trail(x) <= i < x.len() implies is_space(#[trigger] x[i]) by {
            if i < x.len() - 1 {
                assert(is_space(x.drop_last()[i]));
            }
        }
    }
}

/// Names are counted by the parts that have them, and found at the first of these.
pub proof fn names_are_counted(parts: Seq<PartView>, name: Seq<char>)
    ensures
        count_named(parts, name) == parts.filter(
            |p: PartView| name_of(p.name) == Some(name),
        ).len(),
        0 <= named_at(parts, name) <= parts.len(),
        forall|i: int|
            0 <= i < named_at(parts, name) ==> name_of((#[trigger] parts[i]).name) != Some(name),
        named_at(parts, name) < parts.len() ==> name_of(parts[named_at(parts, name)].name) == Some(
            name,
        ),
    decreases parts.len(),
{
    let keep = |p: PartView| name_of(p.name) == Some(name);
    reveal(Seq::filter);
    if parts.len() > 0 {
        names_are_counted(parts.drop_last(), name);
        names_are_counted(parts.drop_first(), name);
        assert forall|i: int| 0 <= i < named_at(parts, name) implies name_of(
            (#[trigger] parts[i]).name,
        ) != Some(name) by {
            if i > 0 {
                assert(parts[i] == parts.drop_first()[i - 1]);
            }
        }
    }
}

/// What is wrong with an object or an array is noticed where it opens, and what is wrong with
/// anything else where it ends, without the white space on either side.
pub proof fn noticed_at_one_end(start: int, x: Seq<u8>, i: int, n: int)
    requires
        0 <= i < n <= x.len(),
        forall|j: int| 0 <= j < i ==> is_space(#[trigger] x[j]),
        !is_space(x[i]),
        !is_space(x[n - 1]),
        forall|j: int| n <= j < x.len() ==> is_space(#[trigger] x[j]),
    ensures
        front(x) == Some(x[i]),
        noticed(start, x) == if x[i] == 0x7b || x[i] == 0x5b {
            start + i
        } else {
            start + n
        },
{
    spaces_are_counted(x);
    assert(lead(x) == i) by {
        if lead(x) < i {
            assert(is_space(x[lead(x)]));
        }
        if lead(x) > i {
            assert(is_space(x[i]));
        }
    }
    assert(trail(x) == n) by {
        if trail(x) > n {
            assert(is_space(x[trail(x) - 1]));
        }
        if trail(x) < n {
            assert(is_space(x[n - 1]));
        }
    }
}

/// The first part with a name is found, from the front or from a place on, and its text is the text
/// under that name.
pub proof fn first_names_are_found(x: Seq<u8>, name: Seq<char>, from: int, i: int)
    requires
        0 <= from <= i < parts_of(x).len(),
        forall|j: int| from <= j < i ==> name_of((#[trigger] parts_of(x)[j]).name) != Some(name),
        name_of(parts_of(x)[i].name) == Some(name),
    ensures
        named_from(parts_of(x), name, from) == i,
        text_at(x, i) == parts_of(x)[i].text,
        from == 0 ==> named_at(parts_of(x), name) == i && text_named(x, name) == parts_of(x)[i].text,
{
    let parts = parts_of(x);
    let rest = parts.skip(from);
    names_are_counted(rest, name);
    let k = named_at(rest, name);
    assert(rest[i - from] == parts[i]);
    if k < i - from {
        assert(rest[k] == parts[from + k]);
    }
    assert(k <= i - from) by {
        if k > i - from {
            assert(name_of(rest[i - from].name) != Some(name));
        }
    }
    if from == 0 {
        assert(rest =~= parts);
    }
}

/// Under a name that no part has there is no text.
pub proof fn other_names_are_not_found(x: Seq<u8>, name: Seq<char>)
    requires
        forall|j: int|
            0 <= j < parts_of(x).len() ==> name_of((#[trigger] parts_of(x)[j]).name) != Some(name),
    ensures
        named_at(parts_of(x), name) == parts_of(x).len(),
        text_named(x, name).len() == 0,
{
    names_are_counted(parts_of(x), name);
}

/// A name occurs more often in one object than in another.
pub open spec fn repeats(x: Seq<u8>, y: Seq<u8>, name: Seq<char>) -> bool {
    count_named(parts_of(x), name) > count_named(parts_of(y), name)
}

pub fn check_repeats(x: &Vec<Part>, y: &Vec<Part>, name: &str) -> (r: bool)
    ensures
        r == (count_named(part_views(x@), name@) > count_named(part_views(y@), name@)),
{
    count_parts(x, name) > count_parts(y, name)
}

} // verus!
