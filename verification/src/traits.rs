//! Values, metrics and objects as traits.

use vstd::prelude::*;
use vstd::string::*;

use crate::dimension::{WithDimension, WithDimensions};
use crate::entry::{item_models, EntryItem, ItemModel};
use crate::flags::MetricFlags;
use crate::unit::{Convert, Unit, UnitTag};
use crate::unit_tags::NoUnit;
use crate::value::{
    member_models, pairs, MetricCall, MetricModel, Observation, ValueModel, WrittenValue,
};
use crate::with_unit::WithUnit;

verus! {

/// Something that can be written under a name.
pub trait Value {
    /// What the value hands to its writer.
    open spec fn model(&self) -> ValueModel {
        arbitrary()
    }

    /// Hands over what the value consists of.
    fn write(&self) -> (written: WrittenValue)
        ensures
            written@ == self.model(),
    ;
}

/// A value that promises to write a metric in a unit.
pub trait MetricValue: Value {
    /// The unit that is promised.
    type Unit: UnitTag;

    /// The value, to be converted to a unit when it is written.
    fn with_unit<U: UnitTag>(self) -> (w: WithUnit<Self, U>) where
        Self: Sized,
        Self::Unit: Convert<U>,

        ensures
            w.inner() == self,
    {
        WithUnit::new(self)
    }

    /// The value with a dimension added after those that it has.
    fn with_dimension(self, key: String, value: String) -> (w: WithDimension<Self>) where Self: Sized
        ensures
            w.inner() == self,
            w.added() == seq![(key@, value@)],
    {
        WithDimension::new(self, key, value)
    }

    /// The value with dimensions added after those that it has.
    fn with_dimensions<const N: usize>(self, dimensions: Vec<(String, String)>) -> (w:
        WithDimensions<Self, N>) where Self: Sized
        ensures
            w.inner() == self,
            w.added() == pairs(dimensions@),
    {
        WithDimensions::new_with_dimensions(self, dimensions)
    }
}

/// A metric of one observation without a unit.
pub open spec fn single_metric(o: crate::value::ObservationModel) -> ValueModel {
    ValueModel::Metric(
        MetricModel {
            distribution: seq![o],
            unit: Unit::NoUnit,
            dimensions: Seq::empty(),
            flags: MetricFlags::Empty,
        },
    )
}

impl Value for Observation {
    open spec fn model(&self) -> ValueModel {
        single_metric(self@)
    }

    fn write(&self) -> (written: WrittenValue) {
        let m = MetricCall {
            distribution: vec![self.duplicate()],
            unit: Unit::NoUnit,
            dimensions: Vec::new(),
            flags: MetricFlags::Empty,
        };
        assert(m@.distribution =~= seq![self@]);
        assert(m@.dimensions =~= Seq::empty());
        WrittenValue::Metric(m)
    }
}

impl MetricValue for Observation {
    type Unit = NoUnit;
}

impl<T: Value> Value for &T {
    open spec fn model(&self) -> ValueModel {
        (**self).model()
    }

    fn write(&self) -> (written: WrittenValue) {
        (**self).write()
    }
}

impl<T: MetricValue> MetricValue for &T {
    type Unit = T::Unit;
}

impl<T: Value> Value for Option<T> {
    open spec fn model(&self) -> ValueModel {
        match *self {
            Some(value) => value.model(),
            None => ValueModel::Nothing,
        }
    }

    fn write(&self) -> (written: WrittenValue) {
        match self {
            Some(value) => value.write(),
            None => WrittenValue::Nothing,
        }
    }
}

impl<T: MetricValue> MetricValue for Option<T> {
    type Unit = T::Unit;
}

impl<T: Value> Value for Box<T> {
    open spec fn model(&self) -> ValueModel {
        (**self).model()
    }

    fn write(&self) -> (written: WrittenValue) {
        (**self).write()
    }
}

impl<T: MetricValue> MetricValue for Box<T> {
    type Unit = T::Unit;
}

impl<T: Value> Value for std::sync::Arc<T> {
    open spec fn model(&self) -> ValueModel {
        (**self).model()
    }

    fn write(&self) -> (written: WrittenValue) {
        (**self).write()
    }
}

impl<T: MetricValue> MetricValue for std::sync::Arc<T> {
    type Unit = T::Unit;
}

/// Something whose parts can be the members of a nested object.
pub trait ObjectValue {
    /// What the object hands to its writer, in order.
    open spec fn object_items(&self) -> Seq<ItemModel> {
        arbitrary()
    }

    /// Hands over what the object consists of, in order.
    fn write_object(&self) -> (items: Vec<EntryItem>)
        ensures
            item_models(items@) == self.object_items(),
    ;
}

impl<T: ObjectValue> ObjectValue for &T {
    open spec fn object_items(&self) -> Seq<ItemModel> {
        (**self).object_items()
    }

    fn write_object(&self) -> (items: Vec<EntryItem>) {
        (**self).write_object()
    }
}

impl<T: ObjectValue> ObjectValue for Box<T> {
    open spec fn object_items(&self) -> Seq<ItemModel> {
        (**self).object_items()
    }

    fn write_object(&self) -> (items: Vec<EntryItem>) {
        (**self).write_object()
    }
}

impl<T: ObjectValue> ObjectValue for std::sync::Arc<T> {
    open spec fn object_items(&self) -> Seq<ItemModel> {
        (**self).object_items()
    }

    fn write_object(&self) -> (items: Vec<EntryItem>) {
        (**self).write_object()
    }
}

/// The members that an object is made of: its values. It has no timestamp and no settings.
pub open spec fn object_members(items: Seq<ItemModel>) -> Seq<(Seq<char>, ValueModel)>
    decreases items.len(),
{
    if items.len() == 0 {
        Seq::empty()
    } else {
        let init = object_members(items.drop_last());
        match items.last() {
            ItemModel::Value(name, value) => init.push((name, value)),
            _ => init,
        }
    }
}

/// An object as a value.
pub fn object_value(items: Vec<EntryItem>) -> (written: WrittenValue)
    ensures
        written@ == ValueModel::Object(object_members(item_models(items@))),
{
    broadcast use crate::value::nested_models;

    let ghost all = item_models(items@);
    let ghost list = items@;
    let mut rest = items;
    let mut members: Vec<(String, WrittenValue)> = Vec::new();
    let ghost mut k: int = 0;
    assert(rest@ =~= list.skip(0));
    assert(member_models(members@) =~= object_members(all.take(0)));
    while rest.len() > 0
        invariant
            all == item_models(list),
            0 <= k <= list.len(),
            rest@ == list.skip(k),
            member_models(members@) == object_members(all.take(k)),
        decreases rest.len(),
    {
        let ghost before = members@;
        let item = rest.remove(0);
        proof {
            assert(item == list[k]);
            assert(all.take(k + 1).drop_last() =~= all.take(k));
            assert(all.take(k + 1).last() == item@);
        }
        if let EntryItem::Value(name, value) = item {
            let ghost entry = (name@, value@);
            members.push((name, value));
            assert(member_models(members@) =~= member_models(before).push(entry));
        }
        proof {
            assert(rest@ =~= list.skip(k + 1));
            k = k + 1;
        }
    }
    assert(all.take(k) =~= all);
    WrittenValue::Object(members)
}

/// A value that may be missing is written as it is if it is there, and not at all if it is missing.
/// Behind a reference or in a box a value is written as it is.
pub proof fn values_are_written_as_they_are<T: Value>(value: T)
    ensures
        Some(value).model() == value.model(),
        None::<T>.model() == ValueModel::Nothing,
        (&value).model() == value.model(),
        Box::new(value).model() == value.model(),
{
}

/// The members of an object are all of its values, in order, each under its name; neither its
/// timestamps nor its settings are.
pub proof fn objects_hold_their_values(items: Seq<ItemModel>) -> (at: Seq<int>)
    ensures
        crate::listing::selects(at, items.len(), |i: int| items[i] is Value),
        object_members(items).len() == at.len(),
        forall|k: int|
            0 <= k < at.len() ==> items[at[k]] == ItemModel::Value(
                (#[trigger] object_members(items)[k]).0,
                object_members(items)[k].1,
            ),
    decreases items.len(),
{
    if items.len() == 0 {
        crate::listing::selects_none(|i: int| items[i] is Value);
        Seq::empty()
    } else {
        let init = items.drop_last();
        let n = init.len();
        let before = objects_hold_their_values(init);
        let f = |i: int| init[i] is Value;
        let g = |i: int| items[i] is Value;
        assert forall|i: int| 0 <= i < n implies #[trigger] f(i) == g(i) by {
            assert(init[i] == items[i]);
        }
        crate::listing::selects_more(before, n, f, g);
        let at = if g(n as int) {
            before.push(n as int)
        } else {
            before
        };
        let members = object_members(items);
        assert forall|k: int| 0 <= k < at.len() implies items[at[k]] == ItemModel::Value(
            (#[trigger] object_members(items)[k]).0,
            object_members(items)[k].1,
        ) by {
            if k < before.len() {
                assert(members[k] == object_members(init)[k]);
                assert(at[k] == before[k]);
                assert(init[before[k]] == items[before[k]]);
            }
        }
        at
    }
}

/// In a shared pointer a value is written as it is, and so is an object, be it shared, in a box or
/// behind a reference.
pub proof fn pointers_make_no_difference<T: Value, O: ObjectValue>(
    value: std::sync::Arc<T>,
    shared: std::sync::Arc<O>,
    boxed: Box<O>,
    referenced: &O,
)
    ensures
        value.model() == (*value).model(),
        shared.object_items() == (*shared).object_items(),
        boxed.object_items() == (*boxed).object_items(),
        (&referenced).object_items() == referenced.object_items(),
{
}

/// An observation by itself is a metric of just that observation, without a unit, without dimensions
/// and without flags.
pub proof fn observations_are_metrics(o: Observation)
    ensures
        o.model() matches ValueModel::Metric(m) && m.distribution.len() == 1 && m.distribution[0]
            == o@ && m.unit == Unit::NoUnit && m.dimensions.len() == 0 && m.flags
            == MetricFlags::Empty,
{
}

} // verus!
