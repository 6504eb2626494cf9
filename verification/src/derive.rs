//! Source text of the conversions between a struct and the record that encodes it.
//!
//! The struct is described by plain values: its name, and the names and types of its fields.
use vstd::prelude::*;

use crate::text::{joined, same_text};

verus! {

/// The type of a field.
#[derive(Debug)]
pub enum TypeShape {
    /// A path: the names in it.
    Path(Vec<String>),
    /// Any other type.
    Other,
}

/// A field of a struct.
#[derive(Debug)]
pub struct FieldShape {
    pub name: Option<String>,
    pub ty: TypeShape,
}

/// What a type holds.
#[derive(Debug)]
pub enum DataShape {
    /// A struct with named fields.
    Named(Vec<FieldShape>),
    /// A struct with unnamed fields or none.
    Unnamed,
    Enum,
    Union,
}

/// A type for which the conversions are wanted.
#[derive(Debug)]
pub struct InputShape {
    pub name: String,
    pub data: DataShape,
}

/// Why a type cannot have the conversions. A number is that of the field that is to blame.
#[derive(Debug, Clone, Copy, PartialEq, Eq, Structural)]
pub enum DeriveError {
    NotAStruct,
    UnnamedFields,
    UnsupportedFieldName(usize),
    UnnamedField(usize),
    UnsupportedType(usize),
}

impl DeriveError {
    pub open spec fn text(self) -> Seq<char> {
        match self {
            DeriveError::NotAStruct => "only structs can derive ZeekType"@,
            DeriveError::UnnamedFields => "only structs with named fields can derive ZeekType"@,
            DeriveError::UnsupportedFieldName(_) => "unsupported field name"@,
            DeriveError::UnnamedField(_) => "unnamed fields are unsupported"@,
            DeriveError::UnsupportedType(_) => "unsupported type"@,
        }
    }

    /// Describes the error.
    pub fn to_string(&self) -> (r: String)
        ensures
            r@ == self.text(),
    {
        match self {
            DeriveError::NotAStruct => "only structs can derive ZeekType".to_owned(),
            DeriveError::UnnamedFields =>
                "only structs with named fields can derive ZeekType".to_owned(),
            DeriveError::UnsupportedFieldName(_) => "unsupported field name".to_owned(),
            DeriveError::UnnamedField(_) => "unnamed fields are unsupported".to_owned(),
            DeriveError::UnsupportedType(_) => "unsupported type".to_owned(),
        }
    }
}

impl TypeShape {
    /// Whether the type is likely an `Option`, by the last name of its path. `None` for a type
    /// that is not a path.
    pub open spec fn optional(self) -> Option<bool> {
        match self {
            TypeShape::Path(names) => Some(
                names@.len() > 0 && names@[names@.len() - 1]@ == "Option"@,
            ),
            TypeShape::Other => None,
        }
    }
}

/// Detects whether a type is likely an `Option`.
pub fn looks_like_option(ty: &TypeShape) -> (r: Option<bool>)
    ensures
        r == ty.optional(),
{
    match ty {
        TypeShape::Path(names) => {
            let n: usize = names.len();
            Some(n > 0 && same_text(names[n - 1].as_str(), "Option"))
        },
        TypeShape::Other => None,
    }
}

/// A field that can be converted: its name, and whether it is optional.
pub enum FieldPlan {
    Required(Seq<char>),
    Optional(Seq<char>),
}

/// How a field at a place can be converted, or why it cannot.
pub open spec fn field_plan(f: FieldShape, place: usize) -> Result<FieldPlan, DeriveError> {
    match f.name {
        None => Err(DeriveError::UnsupportedFieldName(place)),
        Some(name) => match f.ty.optional() {
            None => Err(DeriveError::UnsupportedType(place)),
            Some(true) => Ok(FieldPlan::Optional(name@)),
            Some(false) => Ok(FieldPlan::Required(name@)),
        },
    }
}

/// How the fields can be converted, or why the first that cannot be cannot.
pub open spec fn field_plans(fields: Seq<FieldShape>) -> Result<Seq<FieldPlan>, DeriveError>
    decreases fields.len(),
{
    if fields.len() == 0 {
        Ok(Seq::empty())
    } else {
        match field_plans(fields.drop_last()) {
            Err(e) => Err(e),
            Ok(front) => match field_plan(fields.last(), (fields.len() - 1) as usize) {
                Err(e) => Err(e),
                Ok(plan) => Ok(front.push(plan)),
            },
        }
    }
}

impl FieldPlan {
    /// The statement that adds the field to a record.
    pub open spec fn push_text(self) -> Seq<char> {
        match self {
            FieldPlan::Required(name) => "fields.push(value."@ + name + "); "@,
            FieldPlan::Optional(name) => "fields.push_optional(value."@ + name + "); "@,
        }
    }

    /// The field of a struct expression that takes the field out of a record.
    pub open spec fn take_text(self) -> Seq<char> {
        match self {
            FieldPlan::Required(name) => ""@ + name + ": fields.required()?, "@,
            FieldPlan::Optional(name) => ""@ + name + ": fields.optional()?, "@,
        }
    }
}

pub open spec fn push_texts(plans: Seq<FieldPlan>) -> Seq<char>
    decreases plans.len(),
{
    if plans.len() == 0 {
        Seq::empty()
    } else {
        push_texts(plans.drop_last()) + plans.last().push_text()
    }
}

pub open spec fn take_texts(plans: Seq<FieldPlan>) -> Seq<char>
    decreases plans.len(),
{
    if plans.len() == 0 {
        Seq::empty()
    } else {
        take_texts(plans.drop_last()) + plans.last().take_text()
    }
}

/// The conversion of the struct to a value.
pub open spec fn value_from_text(name: Seq<char>, pushes: Seq<char>) -> Seq<char> {
    "impl From<"@ + name + "> for ::zeek_websocket::value::Value { fn from(value: "@ + (name
        + ") -> Self { let mut fields = ::zeek_websocket::record::Record::new(); "@ + pushes)
        + "fields.into_value() } } "@
}

/// The conversion of a value to the struct.
pub open spec fn from_value_text(name: Seq<char>, takes: Seq<char>) -> Seq<char> {
    "impl TryFrom<::zeek_websocket::value::Value> for "@ + name
        + " { type Error = ::zeek_websocket::convert::ConversionError; fn try_from(value: ::zeek_websocket::value::Value) -> Result<Self, Self::Error> { let mut fields = ::zeek_websocket::record::Fields::from_value(value)?; Ok("@
        + (name + " { "@ + takes) + "}) } }"@
}

/// How a field can be converted.
fn plan_field(f: &FieldShape, place: usize) -> (r: Result<(String, bool), DeriveError>)
    ensures
        match r {
            Ok((name, true)) => field_plan(*f, place) == Ok::<FieldPlan, DeriveError>(
                FieldPlan::Optional(name@),
            ),
            Ok((name, false)) => field_plan(*f, place) == Ok::<FieldPlan, DeriveError>(
                FieldPlan::Required(name@),
            ),
            Err(e) => field_plan(*f, place) == Err::<FieldPlan, DeriveError>(e),
        },
{
    match &f.name {
        None => Err(DeriveError::UnsupportedFieldName(place)),
        Some(name) => match looks_like_option(&f.ty) {
            None => Err(DeriveError::UnsupportedType(place)),
            Some(optional) => Ok((name.clone(), optional)),
        },
    }
}

/// Where some fields cannot be converted, more of them cannot either.
proof fn lemma_plans_fail(fields: Seq<FieldShape>, n: int)
    requires
        0 <= n <= fields.len(),
        field_plans(fields.take(n)) is Err,
    ensures
        field_plans(fields) == field_plans(fields.take(n)),
    decreases fields.len() - n,
{
    if n < fields.len() {
        assert(fields.take(n + 1).drop_last() =~= fields.take(n));
        lemma_plans_fail(fields, n + 1);
    } else {
        assert(fields.take(n) =~= fields);
    }
}

/// The source text of the conversion of a struct to a value.
pub fn impl_value_from(name: &str, fields: &Vec<FieldShape>) -> (r: Result<String, DeriveError>)
    ensures
        match field_plans(fields@) {
            Ok(plans) => r matches Ok(s) && s@ == value_from_text(name@, push_texts(plans)),
            Err(e) => r == Err::<String, DeriveError>(e),
        },
{
    let mut pushes = String::new();
    let mut i: usize = 0;
    while i < fields.len()
        invariant
            i <= fields.len(),
            field_plans(fields@.take(i as int)) matches Ok(plans) && pushes@ == push_texts(plans),
        decreases fields.len() - i,
    {
        assert(fields@.take(i + 1).drop_last() =~= fields@.take(i as int));
        let ghost plans = field_plans(fields@.take(i as int))->Ok_0;
        match plan_field(&fields[i], i) {
            Err(e) => {
                proof {
                    lemma_plans_fail(fields@, i + 1);
                }
                return Err(e);
            },
            Ok((field, optional)) => {
                let text = if optional {
                    joined("fields.push_optional(value.", field.as_str(), "); ")
                } else {
                    joined("fields.push(value.", field.as_str(), "); ")
                };
                pushes.append(text.as_str());
                proof {
                    let all = field_plans(fields@.take(i + 1))->Ok_0;
                    assert(all.drop_last() =~= plans);
                }
            },
        }
        i = i + 1;
    }
    assert(fields@.take(i as int) =~= fields@);
    let head = joined(
        "impl From<",
        name,
        "> for ::zeek_websocket::value::Value { fn from(value: ",
    );
    let body = joined(
        name,
        ") -> Self { let mut fields = ::zeek_websocket::record::Record::new(); ",
        pushes.as_str(),
    );
    Ok(joined(head.as_str(), body.as_str(), "fields.into_value() } } "))
}

/// The conversions treat the fields one by one, in their order: what is written for some fields and
/// more is what is written for the some, followed by what is written for the more.
pub proof fn fields_in_order(a: Seq<FieldPlan>, b: Seq<FieldPlan>)
    ensures
        push_texts(a + b) == push_texts(a) + push_texts(b),
        take_texts(a + b) == take_texts(a) + take_texts(b),
    decreases b.len(),
{
    if b.len() > 0 {
        assert((a + b).drop_last() =~= a + b.drop_last());
        fields_in_order(a, b.drop_last());
        assert(push_texts(a + b) =~= push_texts(a) + push_texts(b));
        assert(take_texts(a + b) =~= take_texts(a) + take_texts(b));
    } else {
        assert(a + b =~= a);
        assert(push_texts(a) + push_texts(b) =~= push_texts(a));
        assert(take_texts(a) + take_texts(b) =~= take_texts(a));
    }
}

/// A field that is always set is pushed and required, and one that may be unset is pushed and taken
/// as optional.
pub proof fn fields_in_source(name: Seq<char>)
    ensures
        push_texts(seq![FieldPlan::Required(name)]) == "fields.push(value."@ + name + "); "@,
        push_texts(seq![FieldPlan::Optional(name)]) == "fields.push_optional(value."@ + name
            + "); "@,
        take_texts(seq![FieldPlan::Required(name)]) == name + ": fields.required()?, "@,
        take_texts(seq![FieldPlan::Optional(name)]) == name + ": fields.optional()?, "@,
{
    reveal_strlit("");
    let e = Seq::<char>::empty();
    let required = seq![FieldPlan::Required(name)];
    let optional = seq![FieldPlan::Optional(name)];
    assert(required.drop_last() =~= Seq::empty());
    assert(optional.drop_last() =~= Seq::empty());
    reveal_with_fuel(push_texts, 2);
    reveal_with_fuel(take_texts, 2);
    assert(push_texts(required) =~= "fields.push(value."@ + name + "); "@);
    assert(push_texts(optional) =~= "fields.push_optional(value."@ + name + "); "@);
    assert(take_texts(required) =~= name + ": fields.required()?, "@);
    assert(take_texts(optional) =~= name + ": fields.optional()?, "@);
}

/// A field can be converted where it has a name and its type is a path; it may be unset exactly
/// where the last name of the path is `Option`.
pub proof fn options_by_name(f: FieldShape, place: usize)
    ensures
        f.name is None ==> field_plan(f, place) == Err::<FieldPlan, DeriveError>(
            DeriveError::UnsupportedFieldName(place),
        ),
        f.name is Some && f.ty is Other ==> field_plan(f, place) == Err::<FieldPlan, DeriveError>(
            DeriveError::UnsupportedType(place),
        ),
        f.name matches Some(name) ==> f.ty matches TypeShape::Path(path) ==> field_plan(f, place)
            == Ok::<FieldPlan, DeriveError>(
            if path@.len() > 0 && path@.last()@ == "Option"@ {
                FieldPlan::Optional(name@)
            } else {
                FieldPlan::Required(name@)
            },
        ),
{
}

/// All fields can be converted where each can, each in its place; otherwise the first that cannot
/// decides.
pub proof fn fields_by_place(fields: Seq<FieldShape>, n: int)
    requires
        fields.len() <= usize::MAX,
    ensures
        (forall|i: int|
            0 <= i < fields.len() ==> field_plan(#[trigger] fields[i], i as usize) is Ok) ==> (
        field_plans(fields) matches Ok(plans) && plans.len() == fields.len() && forall|i: int|
            0 <= i < fields.len() ==> field_plan(#[trigger] fields[i], i as usize) == Ok::<
                FieldPlan,
                DeriveError,
            >(plans[i])),
        0 <= n < fields.len() && (forall|i: int|
            0 <= i < n ==> field_plan(#[trigger] fields[i], i as usize) is Ok) ==> (field_plan(
            fields[n],
            n as usize,
        ) matches Err(e) ==> field_plans(fields) == Err::<Seq<FieldPlan>, DeriveError>(e)),
    decreases fields.len(),
{
    if fields.len() > 0 {
        let front = fields.drop_last();
        let last = fields.len() - 1;
        fields_by_place(front, n);
        assert(fields[last] == fields.last());
        assert(forall|i: int| 0 <= i < last ==> front[i] == #[trigger] fields[i]);
        assert(forall|i: int| 0 <= i < last ==> #[trigger] front[i] == fields[i]);
    }
}

/// A struct with named fields gets both conversions, one behind the other: the first makes a record
/// of its fields, and the second takes them out of one again. Other types get none.
pub proof fn structs_get_conversions(name: String, fields: Vec<FieldShape>)
    ensures
        derived(InputShape { name, data: DataShape::Enum }) == Err::<Seq<char>, DeriveError>(
            DeriveError::NotAStruct,
        ),
        derived(InputShape { name, data: DataShape::Union }) == Err::<Seq<char>, DeriveError>(
            DeriveError::NotAStruct,
        ),
        derived(InputShape { name, data: DataShape::Unnamed }) == Err::<Seq<char>, DeriveError>(
            DeriveError::UnnamedFields,
        ),
        match field_plans(fields@) {
            Err(e) => derived(InputShape { name, data: DataShape::Named(fields) }) == Err::<
                Seq<char>,
                DeriveError,
            >(e),
            Ok(plans) => derived(InputShape { name, data: DataShape::Named(fields) }) == Ok::<
                Seq<char>,
                DeriveError,
            >(
                "impl From<"@ + name@ + "> for ::zeek_websocket::value::Value { fn from(value: "@
                    + name@
                    + ") -> Self { let mut fields = ::zeek_websocket::record::Record::new(); "@
                    + push_texts(plans) + "fields.into_value() } } "@
                    + "impl TryFrom<::zeek_websocket::value::Value> for "@ + name@
                    + " { type Error = ::zeek_websocket::convert::ConversionError; fn try_from(value: ::zeek_websocket::value::Value) -> Result<Self, Self::Error> { let mut fields = ::zeek_websocket::record::Fields::from_value(value)?; Ok("@
                    + name@ + " { "@ + take_texts(plans) + "}) } }"@,
            ),
        },
{
    reveal_strlit("");
    if let Ok(plans) = field_plans(fields@) {
        assert(derived(InputShape { name, data: DataShape::Named(fields) })->Ok_0
            =~= "impl From<"@ + name@
            + "> for ::zeek_websocket::value::Value { fn from(value: "@ + name@
            + ") -> Self { let mut fields = ::zeek_websocket::record::Record::new(); "@
            + push_texts(plans) + "fields.into_value() } } "@
            + "impl TryFrom<::zeek_websocket::value::Value> for "@ + name@
            + " { type Error = ::zeek_websocket::convert::ConversionError; fn try_from(value: ::zeek_websocket::value::Value) -> Result<Self, Self::Error> { let mut fields = ::zeek_websocket::record::Fields::from_value(value)?; Ok("@
            + name@ + " { "@ + take_texts(plans) + "}) } }"@);
    }
}

/// What a reader is told of a type that cannot have the conversions.
pub proof fn errors_are_described(n: usize)
    ensures
        DeriveError::NotAStruct.text() == "only structs can derive ZeekType"@,
        DeriveError::UnnamedFields.text() == "only structs with named fields can derive ZeekType"@,
        DeriveError::UnsupportedFieldName(n).text() == "unsupported field name"@,
        DeriveError::UnnamedField(n).text() == "unnamed fields are unsupported"@,
        DeriveError::UnsupportedType(n).text() == "unsupported type"@,
{
}

/// Where the first field without a name stands; behind the last where all have one.
pub open spec fn first_unnamed(fields: Seq<FieldShape>) -> int
    decreases fields.len(),
{
    if fields.len() == 0 || fields[0].name is None {
        0
    } else {
        1 + first_unnamed(fields.drop_first())
    }
}

proof fn lemma_first_unnamed(fields: Seq<FieldShape>, n: int)
    requires
        0 <= n <= fields.len(),
        forall|i: int| 0 <= i < n ==> (#[trigger] fields[i]).name is Some,
        n < fields.len() ==> fields[n].name is None,
    ensures
        first_unnamed(fields) == n,
    decreases fields.len(),
{
    if n > 0 {
        assert(fields[0].name is Some);
        assert forall|i: int| 0 <= i < n - 1 implies (
        #[trigger] fields.drop_first()[i]).name is Some by {
            assert(fields[i + 1].name is Some);
        }
        lemma_first_unnamed(fields.drop_first(), n - 1);
    }
}

/// The source text of the conversion of a value to a struct, or why there is none: first of all,
/// every field needs a name.
pub open spec fn from_value_derived(name: Seq<char>, fields: Seq<FieldShape>) -> Result<
    Seq<char>,
    DeriveError,
> {
    if 0 <= first_unnamed(fields) < fields.len() {
        Err(DeriveError::UnnamedField(first_unnamed(fields) as usize))
    } else {
        match field_plans(fields) {
            Ok(plans) => Ok(from_value_text(name, take_texts(plans))),
            Err(e) => Err(e),
        }
    }
}

/// A struct whose fields do not all have names cannot be made from a value, and the first without a
/// name is told; otherwise its fields decide.
pub proof fn unnamed_fields_are_refused(name: Seq<char>, fields: Seq<FieldShape>, n: int)
    requires
        0 <= n <= fields.len() <= usize::MAX,
        forall|i: int| 0 <= i < n ==> (#[trigger] fields[i]).name is Some,
        n < fields.len() ==> fields[n].name is None,
    ensures
        n < fields.len() ==> from_value_derived(name, fields) == Err::<Seq<char>, DeriveError>(
            DeriveError::UnnamedField(n as usize),
        ),
        n == fields.len() ==> match field_plans(fields) {
            Ok(plans) => from_value_derived(name, fields) == Ok::<Seq<char>, DeriveError>(
                "impl TryFrom<::zeek_websocket::value::Value> for "@ + name
                    + " { type Error = ::zeek_websocket::convert::ConversionError; fn try_from(value: ::zeek_websocket::value::Value) -> Result<Self, Self::Error> { let mut fields = ::zeek_websocket::record::Fields::from_value(value)?; Ok("@
                    + name + " { "@ + take_texts(plans) + "}) } }"@,
            ),
            Err(e) => from_value_derived(name, fields) == Err::<Seq<char>, DeriveError>(e),
        },
{
    lemma_first_unnamed(fields, n);
    if let Ok(plans) = field_plans(fields) {
        assert(from_value_text(name, take_texts(plans))
            =~= "impl TryFrom<::zeek_websocket::value::Value> for "@ + name
            + " { type Error = ::zeek_websocket::convert::ConversionError; fn try_from(value: ::zeek_websocket::value::Value) -> Result<Self, Self::Error> { let mut fields = ::zeek_websocket::record::Fields::from_value(value)?; Ok("@
            + name + " { "@ + take_texts(plans) + "}) } }"@);
    }
}

/// Where all fields can be converted, all have names.
proof fn lemma_plans_named(fields: Seq<FieldShape>)
    requires
        field_plans(fields) is Ok,
    ensures
        first_unnamed(fields) == fields.len(),
        forall|i: int| 0 <= i < fields.len() ==> (#[trigger] fields[i]).name is Some,
    decreases fields.len(),
{
    if fields.len() > 0 {
        let front = fields.drop_last();
        lemma_plans_named(front);
        assert(fields.last().name is Some);
        assert forall|i: int| 0 <= i < fields.len() implies (
        #[trigger] fields[i]).name is Some by {
            if i < front.len() {
                assert(front[i] == fields[i]);
            }
        }
    }
    lemma_first_unnamed(fields, fields.len() as int);
}

/// The source text of the conversion of a value to a struct.
pub fn impl_from_value(name: &str, fields: &Vec<FieldShape>) -> (r: Result<String, DeriveError>)
    ensures
        match from_value_derived(name@, fields@) {
            Ok(text) => r matches Ok(s) && s@ == text,
            Err(e) => r == Err::<String, DeriveError>(e),
        },
{
    let mut n: usize = 0;
    while n < fields.len() && fields[n].name.is_some()
        invariant
            n <= fields.len(),
            forall|i: int| 0 <= i < n ==> (#[trigger] fields@[i]).name is Some,
        decreases fields.len() - n,
    {
        n = n + 1;
    }
    proof {
        lemma_first_unnamed(fields@, n as int);
    }
    if n < fields.len() {
        return Err(DeriveError::UnnamedField(n));
    }
    let mut takes = String::new();
    let mut i: usize = 0;
    while i < fields.len()
        invariant
            i <= fields.len(),
            first_unnamed(fields@) == fields.len(),
            field_plans(fields@.take(i as int)) matches Ok(plans) && takes@ == take_texts(plans),
        decreases fields.len() - i,
    {
        assert(fields@.take(i + 1).drop_last() =~= fields@.take(i as int));
        let ghost plans = field_plans(fields@.take(i as int))->Ok_0;
        match plan_field(&fields[i], i) {
            Err(e) => {
                proof {
                    lemma_plans_fail(fields@, i + 1);
                }
                return Err(e);
            },
            Ok((field, optional)) => {
                let text = if optional {
                    joined("", field.as_str(), ": fields.optional()?, ")
                } else {
                    joined("", field.as_str(), ": fields.required()?, ")
                };
                takes.append(text.as_str());
                proof {
                    let all = field_plans(fields@.take(i + 1))->Ok_0;
                    assert(all.drop_last() =~= plans);
                }
            },
        }
        i = i + 1;
    }
    assert(fields@.take(i as int) =~= fields@);
    let head = joined(
        "impl TryFrom<::zeek_websocket::value::Value> for ",
        name,
        " { type Error = ::zeek_websocket::convert::ConversionError; fn try_from(value: ::zeek_websocket::value::Value) -> Result<Self, Self::Error> { let mut fields = ::zeek_websocket::record::Fields::from_value(value)?; Ok(",
    );
    let body = joined(name, " { ", takes.as_str());
    Ok(joined(head.as_str(), body.as_str(), "}) } }"))
}

/// The conversions that a type gets, or why it gets none.
pub open spec fn derived(input: InputShape) -> Result<Seq<char>, DeriveError> {
    match input.data {
        DataShape::Enum => Err(DeriveError::NotAStruct),
        DataShape::Union => Err(DeriveError::NotAStruct),
        DataShape::Unnamed => Err(DeriveError::UnnamedFields),
        DataShape::Named(fields) => match field_plans(fields@) {
            Err(e) => Err(e),
            Ok(plans) => Ok(
                value_from_text(input.name@, push_texts(plans)) + from_value_text(
                    input.name@,
                    take_texts(plans),
                ) + ""@,
            ),
        },
    }
}

/// The source text of both conversions.
pub fn derive_impl(input: &InputShape) -> (r: Result<String, DeriveError>)
    ensures
        match derived(*input) {
            Ok(text) => r matches Ok(s) && s@ == text,
            Err(e) => r == Err::<String, DeriveError>(e),
        },
{
    let fields = match &input.data {
        DataShape::Named(fields) => fields,
        DataShape::Unnamed => {
            return Err(DeriveError::UnnamedFields);
        },
        DataShape::Enum => {
            return Err(DeriveError::NotAStruct);
        },
        DataShape::Union => {
            return Err(DeriveError::NotAStruct);
        },
    };
    let name = input.name.as_str();
    match impl_value_from(name, fields) {
        Err(e) => Err(e),
        Ok(value_from) => {
            proof {
                lemma_plans_named(fields@);
            }
            match impl_from_value(name, fields) {
                Err(e) => Err(e),
                Ok(from_value) => Ok(joined(value_from.as_str(), from_value.as_str(), "")),
            }
        },
    }
}

} // verus!
