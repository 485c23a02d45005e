//! Formatters: types that say how values of other types are written.

use core::marker::PhantomData;

use vstd::prelude::*;
use vstd::string::*;

use crate::descriptor::KnownShape;
use crate::traits::{object_members, object_value, ObjectValue};
use crate::value::{nested_models, value_models, ValueModel, WrittenValue};

verus! {

/// Keeps [`Liftability`] to the types of this library.
pub trait Sealed {}

/// Whether a formatter for a type is one for what contains it as well.
pub trait Liftability: Sealed {}

/// The formatter is one for options, boxes and the like as well.
pub struct Lifted;

/// The formatter is one for the type alone.
pub struct NotLifted;

impl Sealed for Lifted {}

impl Sealed for NotLifted {}

impl Liftability for Lifted {}

impl Liftability for NotLifted {}

/// The shape that a formatter gives a value.
#[derive(Debug)]
pub enum FormattedShape {
    /// A scalar.
    Known(KnownShape),
    /// Something that may be missing.
    Optional(Box<FormattedShape>),
    /// A list.
    List(Box<FormattedShape>),
    /// A nested object.
    Object,
    /// A shape that is not known beforehand.
    Opaque,
}

/// Says how values of type `V` are written.
pub trait ValueFormatter<V, L: Liftability = Lifted> {
    /// Whether the value may be written so.
    open spec fn formats(value: &V, written: ValueModel) -> bool {
        arbitrary()
    }

    /// The shape that values are written in.
    open spec fn shape_spec() -> FormattedShape {
        arbitrary()
    }

    /// Hands over what the value is written as.
    fn format_value(value: &V) -> (written: WrittenValue)
        ensures
            Self::formats(value, written@),
    ;

    /// The shape that values are written in.
    fn shape() -> (shape: FormattedShape)
        ensures
            shape == Self::shape_spec(),
    ;
}

/// Writes a value as the string that it is displayed as.
pub struct ToString;

impl<T: std::fmt::Display> ValueFormatter<T, NotLifted> for ToString {
    open spec fn formats(value: &T, written: ValueModel) -> bool {
        exists|s: String| #[trigger]
            to_string_from_display_ensures::<T>(value, s) && written == ValueModel::Text(s@)
    }

    open spec fn shape_spec() -> FormattedShape {
        FormattedShape::Known(KnownShape::String)
    }

    fn format_value(value: &T) -> (written: WrittenValue) {
        WrittenValue::Text(value.to_string())
    }

    fn shape() -> (shape: FormattedShape) {
        FormattedShape::Known(KnownShape::String)
    }
}

impl<V, F: ValueFormatter<V>> ValueFormatter<&V> for F {
    open spec fn formats(value: &&V, written: ValueModel) -> bool {
        <F as ValueFormatter<V>>::formats(*value, written)
    }

    open spec fn shape_spec() -> FormattedShape {
        <F as ValueFormatter<V>>::shape_spec()
    }

    fn format_value(value: &&V) -> (written: WrittenValue) {
        <F as ValueFormatter<V>>::format_value(*value)
    }

    fn shape() -> (shape: FormattedShape) {
        <F as ValueFormatter<V>>::shape()
    }
}

impl<V, F: ValueFormatter<V>> ValueFormatter<Option<V>> for F {
    open spec fn formats(value: &Option<V>, written: ValueModel) -> bool {
        match *value {
            Some(v) => <F as ValueFormatter<V>>::formats(&v, written),
            None => written == ValueModel::Nothing,
        }
    }

    open spec fn shape_spec() -> FormattedShape {
        FormattedShape::Optional(Box::new(<F as ValueFormatter<V>>::shape_spec()))
    }

    fn format_value(value: &Option<V>) -> (written: WrittenValue) {
        match value {
            Some(v) => <F as ValueFormatter<V>>::format_value(v),
            None => WrittenValue::Nothing,
        }
    }

    fn shape() -> (shape: FormattedShape) {
        FormattedShape::Optional(Box::new(<F as ValueFormatter<V>>::shape()))
    }
}

impl<V, F: ValueFormatter<V>> ValueFormatter<Box<V>> for F {
    open spec fn formats(value: &Box<V>, written: ValueModel) -> bool {
        <F as ValueFormatter<V>>::formats(&**value, written)
    }

    open spec fn shape_spec() -> FormattedShape {
        <F as ValueFormatter<V>>::shape_spec()
    }

    fn format_value(value: &Box<V>) -> (written: WrittenValue) {
        <F as ValueFormatter<V>>::format_value(&**value)
    }

    fn shape() -> (shape: FormattedShape) {
        <F as ValueFormatter<V>>::shape()
    }
}

impl<V, F: ValueFormatter<V>> ValueFormatter<std::sync::Arc<V>> for F {
    open spec fn formats(value: &std::sync::Arc<V>, written: ValueModel) -> bool {
        <F as ValueFormatter<V>>::formats(&**value, written)
    }

    open spec fn shape_spec() -> FormattedShape {
        <F as ValueFormatter<V>>::shape_spec()
    }

    fn format_value(value: &std::sync::Arc<V>) -> (written: WrittenValue) {
        <F as ValueFormatter<V>>::format_value(&**value)
    }

    fn shape() -> (shape: FormattedShape) {
        <F as ValueFormatter<V>>::shape()
    }
}

/// A value that a formatter writes.
#[derive(Debug)]
pub struct FormattedValue<'a, V, VF, L> {
    value: &'a V,
    _formatter: PhantomData<(VF, L)>,
}

impl<'a, V, VF, L> FormattedValue<'a, V, VF, L> {
    /// The value itself.
    pub closed spec fn inner(self) -> V {
        *self.value
    }

    /// A value that the formatter writes.
    pub fn new(value: &'a V) -> (f: FormattedValue<'a, V, VF, L>)
        ensures
            f.inner() == *value,
    {
        FormattedValue { value, _formatter: PhantomData }
    }
}

impl<'a, V, VF: ValueFormatter<V, L>, L: Liftability> FormattedValue<'a, V, VF, L> {
    /// Hands over what the formatter writes of the value.
    pub fn write(&self) -> (written: WrittenValue)
        ensures
            VF::formats(&self.inner(), written@),
    {
        VF::format_value(self.value)
    }
}

/// Writes something as a nested object.
pub struct AsObject;

impl AsObject {
    /// Hands over the members of the object.
    pub fn format_object<V: ObjectValue>(value: &V) -> (written: WrittenValue)
        ensures
            written@ == ValueModel::Object(object_members(value.object_items())),
    {
        object_value(value.write_object())
    }
}

/// Writes each element of a list with another formatter.
pub struct Each<F> {
    _formatter: PhantomData<F>,
}

/// Whether `written` is the list of what the formatter writes of each element.
pub open spec fn formats_each<T, F: ValueFormatter<T>>(list: Seq<T>, written: ValueModel) -> bool {
    written matches ValueModel::List(items) && items.len() == list.len() && forall|i: int|
        0 <= i < list.len() ==> F::formats(&list[i], #[trigger] items[i])
}

impl<F> Each<F> {
    /// Hands over what the formatter writes of each element.
    pub fn format_list<T>(list: &[T]) -> (written: WrittenValue) where F: ValueFormatter<T>
        ensures
            formats_each::<T, F>(list@, written@),
    {
        broadcast use nested_models;

        let mut items: Vec<WrittenValue> = Vec::new();
        for i in 0..list.len()
            invariant
                items@.len() == i,
                forall|j: int| 0 <= j < i ==> F::formats(&list@[j], (#[trigger] items@[j])@),
        {
            let item = FormattedValue::<T, F, Lifted>::new(&list[i]).write();
            items.push(item);
        }
        proof {
            let models = value_models(items@);
            assert forall|i: int| 0 <= i < list@.len() implies F::formats(
                &list@[i],
                #[trigger] models[i],
            ) by {
                assert(models[i] == items@[i]@);
            }
        }
        WrittenValue::List(items)
    }
}

impl<T, F: ValueFormatter<T>> ValueFormatter<Vec<T>> for Each<F> {
    open spec fn formats(value: &Vec<T>, written: ValueModel) -> bool {
        formats_each::<T, F>(value@, written)
    }

    open spec fn shape_spec() -> FormattedShape {
        FormattedShape::List(Box::new(<F as ValueFormatter<T>>::shape_spec()))
    }

    fn format_value(value: &Vec<T>) -> (written: WrittenValue) {
        Self::format_list(value.as_slice())
    }

    fn shape() -> (shape: FormattedShape) {
        FormattedShape::List(Box::new(<F as ValueFormatter<T>>::shape()))
    }
}

impl<T, F: ValueFormatter<T>, const N: usize> ValueFormatter<[T; N]> for Each<F> {
    open spec fn formats(value: &[T; N], written: ValueModel) -> bool {
        formats_each::<T, F>(value@, written)
    }

    open spec fn shape_spec() -> FormattedShape {
        FormattedShape::List(Box::new(<F as ValueFormatter<T>>::shape_spec()))
    }

    fn format_value(value: &[T; N]) -> (written: WrittenValue) {
        Self::format_list(value.as_slice())
    }

    fn shape() -> (shape: FormattedShape) {
        FormattedShape::List(Box::new(<F as ValueFormatter<T>>::shape()))
    }
}

/// A formatter writes what may be missing as it writes what is there, and nothing of what is missing.
/// Behind a reference or in a box it writes a value as it is.
pub proof fn formatters_are_lifted<V, F: ValueFormatter<V>>(value: V, written: ValueModel)
    ensures
        <F as ValueFormatter<Option<V>>>::formats(&Some(value), written) == <F as ValueFormatter<
            V,
        >>::formats(&value, written),
        <F as ValueFormatter<Option<V>>>::formats(&None::<V>, written) <==> written
            == ValueModel::Nothing,
        <F as ValueFormatter<&V>>::formats(&&value, written) == <F as ValueFormatter<V>>::formats(
            &value,
            written,
        ),
        <F as ValueFormatter<Box<V>>>::formats(&Box::new(value), written) == <F as ValueFormatter<
            V,
        >>::formats(&value, written),
{
}

/// A list is written as a list of as many values, each of them as the formatter writes it.
pub proof fn lists_are_formatted<T, F: ValueFormatter<T>>(list: Vec<T>, written: ValueModel)
    requires
        <Each<F> as ValueFormatter<Vec<T>>>::formats(&list, written),
    ensures
        written matches ValueModel::List(items) && items.len() == list@.len() && forall|i: int|
            0 <= i < list@.len() ==> F::formats(&list@[i], #[trigger] items[i]),
{
}

/// An array is written as a list of as many values, each of them as the formatter writes it.
pub proof fn arrays_are_formatted<T, F: ValueFormatter<T>, const N: usize>(
    list: [T; N],
    written: ValueModel,
)
    requires
        <Each<F> as ValueFormatter<[T; N]>>::formats(&list, written),
    ensures
        written matches ValueModel::List(items) && items.len() == list@.len() && forall|i: int|
            0 <= i < list@.len() ==> F::formats(&list@[i], #[trigger] items[i]),
{
}

/// In a shared pointer a formatter writes a value as it is.
pub proof fn shared_values_are_formatted<V, F: ValueFormatter<V>>(
    value: std::sync::Arc<V>,
    written: ValueModel,
)
    ensures
        <F as ValueFormatter<std::sync::Arc<V>>>::formats(&value, written) == <F as ValueFormatter<
            V,
        >>::formats(&*value, written),
{
}

/// What may be missing has a shape that may be missing, a list the shape of a list, and what is
/// behind a reference or in a box or a shared pointer the shape of the value itself. Strings have the
/// shape of a string.
pub proof fn shapes_are_lifted<V, F: ValueFormatter<V>, D: std::fmt::Display, const N: usize>()
    ensures
        <F as ValueFormatter<Option<V>>>::shape_spec() matches FormattedShape::Optional(inner)
            && *inner == <F as ValueFormatter<V>>::shape_spec(),
        <F as ValueFormatter<&V>>::shape_spec() == <F as ValueFormatter<V>>::shape_spec(),
        <F as ValueFormatter<Box<V>>>::shape_spec() == <F as ValueFormatter<V>>::shape_spec(),
        <F as ValueFormatter<std::sync::Arc<V>>>::shape_spec() == <F as ValueFormatter<
            V,
        >>::shape_spec(),
        <Each<F> as ValueFormatter<Vec<V>>>::shape_spec() matches FormattedShape::List(inner)
            && *inner == <F as ValueFormatter<V>>::shape_spec(),
        <Each<F> as ValueFormatter<[V; N]>>::shape_spec() matches FormattedShape::List(inner)
            && *inner == <F as ValueFormatter<V>>::shape_spec(),
        <ToString as ValueFormatter<D, NotLifted>>::shape_spec() == FormattedShape::Known(
            KnownShape::String,
        ),
{
}

} // verus!
