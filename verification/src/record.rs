//! Zeek `record` values, which the WebSocket API encodes as vectors.
//!
//! A [`Record`] is filled field by field and becomes a value; [`Fields`] hands the fields of a
//! value out one by one. Fields that may be unset are optional: an unset one is encoded as
//! [`Value::Nil`], and one that is missing at the end counts as unset. Surplus values are
//! discarded.
use vstd::prelude::*;

use crate::convert::ConversionError;
use crate::sorted::views;
use crate::value::{lemma_view, Value, ValueView};

verus! {

/// A field as mathematics has it: one that is always set, or one that may be unset.
pub enum Field {
    Required(ValueView),
    Optional(Option<ValueView>),
}

impl Field {
    /// What a field is encoded as.
    pub open spec fn value(self) -> ValueView {
        match self {
            Field::Required(v) => v,
            Field::Optional(Some(v)) => v,
            Field::Optional(None) => ValueView::Nil,
        }
    }

    pub open spec fn is_optional(self) -> bool {
        self is Optional
    }

    /// The field that a value is decoded to.
    pub open spec fn of(v: ValueView, optional: bool) -> Field {
        if !optional {
            Field::Required(v)
        } else if v is Nil {
            Field::Optional(None)
        } else {
            Field::Optional(Some(v))
        }
    }

    /// An optional field that is set to nothing cannot be told from one that is unset.
    pub open spec fn distinct(self) -> bool {
        !(self matches Field::Optional(Some(v)) && v is Nil)
    }
}

/// What the fields of a record are encoded as.
pub open spec fn record_values(fields: Seq<Field>) -> Seq<ValueView> {
    Seq::new(fields.len(), |i: int| fields[i].value())
}

/// The value in front, or nothing where no value is left.
pub open spec fn front_value(values: Seq<ValueView>) -> ValueView {
    if values.len() > 0 {
        values[0]
    } else {
        ValueView::Nil
    }
}

/// What is left behind the value in front.
pub open spec fn behind_front(values: Seq<ValueView>) -> Seq<ValueView> {
    if values.len() > 0 {
        values.drop_first()
    } else {
        values
    }
}

/// The fields that the values of a record are decoded to, given which fields are optional.
pub open spec fn record_fields(values: Seq<ValueView>, optional: Seq<bool>) -> Seq<Field>
    decreases optional.len(),
{
    if optional.len() == 0 {
        Seq::empty()
    } else {
        seq![Field::of(front_value(values), optional[0])] + record_fields(
            behind_front(values),
            optional.drop_first(),
        )
    }
}

/// A field that is set is encoded as what it holds, and one that is not set as nothing. Of optional
/// fields nothing is decoded to one that is not set, and anything else to one that holds it; what
/// is always set is decoded to what is there.
pub proof fn fields_are_values(v: ValueView)
    ensures
        Field::Required(v).value() == v,
        Field::Optional(Some(v)).value() == v,
        Field::Optional(None).value() == ValueView::Nil,
        Field::of(v, false) == Field::Required(v),
        Field::of(ValueView::Nil, true) == Field::Optional(None),
        v != ValueView::Nil ==> Field::of(v, true) == Field::Optional(Some(v)),
        !Field::Required(v).is_optional(),
        Field::Optional(Some(v)).is_optional(),
        Field::Optional(None).is_optional(),
        v != ValueView::Nil ==> Field::Optional(Some(v)).distinct(),
        Field::Required(v).distinct(),
        Field::Optional(None).distinct(),
{
}

/// Values are taken from the front, one at a time, and nothing once none is left.
pub proof fn values_are_taken(v: ValueView, rest: Seq<ValueView>)
    ensures
        front_value(seq![v] + rest) == v,
        behind_front(seq![v] + rest) == rest,
        front_value(Seq::empty()) == ValueView::Nil,
        behind_front(Seq::empty()) == Seq::<ValueView>::empty(),
{
    assert((seq![v] + rest).drop_first() =~= rest);
}

/// Which fields are optional.
pub open spec fn optional_flags(fields: Seq<Field>) -> Seq<bool> {
    Seq::new(fields.len(), |i: int| fields[i].is_optional())
}

/// Each field is decoded from the value in its place, and fields without a value from nothing.
pub proof fn fields_by_place(values: Seq<ValueView>, optional: Seq<bool>)
    ensures
        record_fields(values, optional) == Seq::new(
            optional.len(),
            |i: int|
                Field::of(
                    if i < values.len() {
                        values[i]
                    } else {
                        ValueView::Nil
                    },
                    optional[i],
                ),
        ),
    decreases optional.len(),
{
    let by_place = Seq::new(
        optional.len(),
        |i: int|
            Field::of(
                if i < values.len() {
                    values[i]
                } else {
                    ValueView::Nil
                },
                optional[i],
            ),
    );
    if optional.len() > 0 {
        fields_by_place(behind_front(values), optional.drop_first());
        assert(record_fields(values, optional) =~= by_place);
    } else {
        assert(record_fields(values, optional) =~= by_place);
    }
}

/// A record is decoded to the fields that it was encoded from, whatever values stand behind
/// them.
pub proof fn record_reads_back(fields: Seq<Field>, surplus: Seq<ValueView>)
    requires
        forall|i: int| 0 <= i < fields.len() ==> (#[trigger] fields[i]).distinct(),
    ensures
        record_fields(record_values(fields) + surplus, optional_flags(fields)) == fields,
{
    let values = record_values(fields) + surplus;
    fields_by_place(values, optional_flags(fields));
    let back = record_fields(values, optional_flags(fields));
    assert forall|i: int| 0 <= i < fields.len() implies back[i] == fields[i] by {
        assert(values[i] == fields[i].value());
        assert(fields[i].distinct());
    }
    assert(back =~= fields);
}

/// A record from an older peer, which lacks the optional fields at the end, is decoded with
/// those fields unset.
pub proof fn missing_fields_are_unset(fields: Seq<Field>, known: int)
    requires
        0 <= known <= fields.len(),
        forall|i: int| 0 <= i < fields.len() ==> (#[trigger] fields[i]).distinct(),
        forall|i: int| known <= i < fields.len() ==> (#[trigger] fields[i]).is_optional(),
    ensures
        record_fields(record_values(fields.take(known)), optional_flags(fields)) == Seq::new(
            fields.len(),
            |i: int|
                if i < known {
                    fields[i]
                } else {
                    Field::Optional(None)
                },
        ),
{
    let values = record_values(fields.take(known));
    let wanted = Seq::new(
        fields.len(),
        |i: int|
            if i < known {
                fields[i]
            } else {
                Field::Optional(None)
            },
    );
    fields_by_place(values, optional_flags(fields));
    let back = record_fields(values, optional_flags(fields));
    assert forall|i: int| 0 <= i < fields.len() implies back[i] == wanted[i] by {
        assert(fields[i].distinct());
        if i < known {
            assert(values[i] == fields[i].value());
        } else {
            assert(fields[i].is_optional());
        }
    }
    assert(back =~= wanted);
}

/// A record that is being encoded.
#[derive(Debug)]
pub struct Record {
    values: Vec<Value>,
}

impl View for Record {
    type V = Seq<ValueView>;

    closed spec fn view(&self) -> Seq<ValueView> {
        views(self.values@)
    }
}

impl Record {
    pub fn new() -> (r: Record)
        ensures
            r@ == Seq::<ValueView>::empty(),
    {
        let r = Record { values: Vec::new() };
        assert(r@ =~= Seq::<ValueView>::empty());
        r
    }

    /// Adds a field that is always set.
    pub fn push<T: Into<Value>>(&mut self, field: T)
        ensures
            exists|v: Value|
                #![trigger v@]
                call_ensures(T::into, (field,), v) && final(self)@ == old(self)@.push(
                    Field::Required(v@).value(),
                ),
    {
        let v: Value = field.into();
        let ghost view = v@;
        self.values.push(v);
        assert(self@ =~= old(self)@.push(view));
    }

    /// Adds a field that may be unset.
    pub fn push_optional<T: Into<Value>>(&mut self, field: Option<T>)
        ensures
            match field {
                None => final(self)@ == old(self)@.push(Field::Optional(None).value()),
                Some(x) => exists|v: Value|
                    #![trigger v@]
                    call_ensures(T::into, (x,), v) && final(self)@ == old(self)@.push(
                        Field::Optional(Some(v@)).value(),
                    ),
            },
    {
        broadcast use lemma_view;

        let v: Value = match field {
            Some(x) => x.into(),
            None => Value::Nil,
        };
        let ghost view = v@;
        self.values.push(v);
        assert(self@ =~= old(self)@.push(view));
    }

    /// The value that encodes the record.
    pub fn into_value(self) -> (r: Value)
        ensures
            r@ == ValueView::Vector(self@),
    {
        broadcast use lemma_view;

        Value::Vector(self.values)
    }
}

/// A record that is being decoded.
#[derive(Debug)]
pub struct Fields {
    values: Vec<Value>,
    next: usize,
}

impl View for Fields {
    type V = Seq<ValueView>;

    /// The values that are left.
    closed spec fn view(&self) -> Seq<ValueView> {
        views(self.values@).skip(self.next as int)
    }
}

impl Fields {
    #[verifier::type_invariant]
    spec fn valid(self) -> bool {
        self.next <= self.values.len()
    }

    /// The fields of a value, which has to be a vector.
    pub fn from_value(value: Value) -> (r: Result<Fields, ConversionError>)
        ensures
            match r {
                Ok(fields) => value@ == ValueView::Vector(fields@),
                Err(e) => e == ConversionError::MismatchedTypes && !(value@ is Vector),
            },
    {
        broadcast use lemma_view;

        match value {
            Value::Vector(values) => {
                let r = Fields { values, next: 0 };
                assert(r@ =~= views(values@));
                Ok(r)
            },
            _ => Err(ConversionError::MismatchedTypes),
        }
    }

    fn take(&mut self) -> (r: Value)
        ensures
            r@ == front_value(old(self)@),
            final(self)@ == behind_front(old(self)@),
    {
        broadcast use lemma_view;

        proof {
            use_type_invariant(&*self);
        }
        if self.next < self.values.len() {
            let v = self.values[self.next].clone();
            let ghost before = self@;
            assert(before[0] == v@);
            self.next = self.next + 1;
            assert(self@ =~= before.drop_first());
            v
        } else {
            assert(self@.len() == 0);
            Value::Nil
        }
    }

    /// Takes out a field that is always set.
    pub fn required<T: TryFrom<Value>>(&mut self) -> (r: Result<T, T::Error>)
        ensures
            final(self)@ == behind_front(old(self)@),
            exists|v: Value|
                #![trigger v@]
                v@ == front_value(old(self)@) && call_ensures(T::try_from, (v,), r),
    {
        let v = self.take();
        T::try_from(v)
    }

    /// Takes out a field that may be unset.
    pub fn optional<T: TryFrom<Value>>(&mut self) -> (r: Result<Option<T>, T::Error>)
        ensures
            final(self)@ == behind_front(old(self)@),
            match Field::of(front_value(old(self)@), true) {
                Field::Optional(Some(view)) => exists|v: Value|
                    #![trigger v@]
                    v@ == view && match r {
                        Ok(x) => x matches Some(t) && call_ensures(
                            T::try_from,
                            (v,),
                            Ok::<T, T::Error>(t),
                        ),
                        Err(e) => call_ensures(T::try_from, (v,), Err::<T, T::Error>(e)),
                    },
                _ => r matches Ok(None),
            },
    {
        broadcast use lemma_view;

        match self.take() {
            Value::Nil => Ok(None),
            v => match T::try_from(v) {
                Ok(t) => Ok(Some(t)),
                Err(e) => Err(e),
            },
        }
    }
}

} // verus!
