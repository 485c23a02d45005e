//! Values, and what they hand to a format when they are written.

use vstd::prelude::*;
use vstd::string::*;

use crate::flags::MetricFlags;
use crate::float::{Float, FloatModel};
use crate::unit::Unit;
use crate::validate::{ErrorModel, ValidationError};

verus! {

/// A number to add to a metric.
#[derive(Debug)]
#[non_exhaustive]
pub enum Observation {
    /// A natural number.
    Unsigned(u64),
    /// A floating-point number.
    Floating(Float),
    /// The sum of a number of occurrences. `mean` is the sum divided by their
    /// number; it says nothing if that number is zero.
    Repeated { total: Float, occurrences: u64, mean: Float },
}

/// What an observation says.
pub ghost enum ObservationModel {
    Unsigned(u64),
    Floating(FloatModel),
    Repeated { total: FloatModel, occurrences: u64, mean: FloatModel },
}

impl View for Observation {
    type V = ObservationModel;

    open spec fn view(&self) -> ObservationModel {
        match *self {
            Observation::Unsigned(v) => ObservationModel::Unsigned(v),
            Observation::Floating(f) => ObservationModel::Floating(f@),
            Observation::Repeated { total, occurrences, mean } => ObservationModel::Repeated {
                total: total@,
                occurrences,
                mean: mean@,
            },
        }
    }
}

impl Observation {
    /// The sum `total` of `occurrences` observations. `divide` gives a double
    /// divided by a number that is not zero.
    pub fn repeated<F: Fn(u64, u64) -> Float>(
        total: Float,
        occurrences: u64,
        divide: F,
    ) -> (o: Observation)
        requires
            forall|bits: u64, n: u64| n > 0 ==> call_requires(divide, (bits, n)),
        ensures
            o matches Observation::Repeated { total: t, occurrences: n, mean } && t == total && n
                == occurrences && (n > 0 ==> call_ensures(divide, (total.bits, n), mean)),
    {
        let mean = if occurrences == 0 {
            total.duplicate()
        } else {
            divide(total.bits, occurrences)
        };
        Observation::Repeated { total, occurrences, mean }
    }

    /// A copy of the observation.
    pub fn duplicate(&self) -> (o: Observation)
        ensures
            o == *self,
    {
        match self {
            Observation::Unsigned(v) => Observation::Unsigned(*v),
            Observation::Floating(f) => Observation::Floating(f.duplicate()),
            Observation::Repeated { total, occurrences, mean } => Observation::Repeated {
                total: total.duplicate(),
                occurrences: *occurrences,
                mean: mean.duplicate(),
            },
        }
    }
}

/// A metric, as a value writes it.
#[derive(Debug)]
pub struct MetricCall {
    /// The numbers to record.
    pub distribution: Vec<Observation>,
    /// The unit they are in.
    pub unit: Unit,
    /// The names and instances of the dimensions of this metric alone.
    pub dimensions: Vec<(String, String)>,
    /// How a format is to treat the metric.
    pub flags: MetricFlags,
}

/// What a metric says.
pub ghost struct MetricModel {
    pub distribution: Seq<ObservationModel>,
    pub unit: Unit,
    pub dimensions: Seq<(Seq<char>, Seq<char>)>,
    pub flags: MetricFlags,
}

/// What a list of observations says.
pub open spec fn observations(list: Seq<Observation>) -> Seq<ObservationModel> {
    list.map_values(|o: Observation| o@)
}

/// The texts of a list of pairs.
pub open spec fn pairs(list: Seq<(String, String)>) -> Seq<(Seq<char>, Seq<char>)> {
    list.map_values(|p: (String, String)| (p.0@, p.1@))
}

impl View for MetricCall {
    type V = MetricModel;

    open spec fn view(&self) -> MetricModel {
        MetricModel {
            distribution: observations(self.distribution@),
            unit: self.unit,
            dimensions: pairs(self.dimensions@),
            flags: self.flags,
        }
    }
}

/// What a value hands to its writer: nothing, or one of the things that a
/// writer takes.
#[derive(Debug)]
pub enum WrittenValue {
    /// The value writes nothing.
    Nothing,
    /// A string property.
    Text(String),
    /// A metric.
    Metric(MetricCall),
    /// A list of values.
    List(Vec<WrittenValue>),
    /// A nested object, with its members in order.
    Object(Vec<(String, WrittenValue)>),
    /// An error in place of a value.
    Error(ValidationError),
}

/// What a written value says.
pub ghost enum ValueModel {
    Nothing,
    Text(Seq<char>),
    Metric(MetricModel),
    List(Seq<ValueModel>),
    Object(Seq<(Seq<char>, ValueModel)>),
    Error(ErrorModel),
}

/// What a written value says.
pub open spec fn value_model(value: WrittenValue) -> ValueModel
    decreases value,
{
    match value {
        WrittenValue::Nothing => ValueModel::Nothing,
        WrittenValue::Text(s) => ValueModel::Text(s@),
        WrittenValue::Metric(m) => ValueModel::Metric(m@),
        WrittenValue::List(items) => ValueModel::List(
            Seq::new(
                items@.len(),
                |i: int|
                    if 0 <= i < items@.len() {
                        value_model(items@[i])
                    } else {
                        ValueModel::Nothing
                    },
            ),
        ),
        WrittenValue::Object(members) => ValueModel::Object(
            Seq::new(
                members@.len(),
                |i: int|
                    if 0 <= i < members@.len() {
                        (members@[i].0@, value_model(members@[i].1))
                    } else {
                        (Seq::empty(), ValueModel::Nothing)
                    },
            ),
        ),
        WrittenValue::Error(e) => ValueModel::Error(e@),
    }
}

impl View for WrittenValue {
    type V = ValueModel;

    open spec fn view(&self) -> ValueModel {
        value_model(*self)
    }
}

/// What a list of written values says.
pub open spec fn value_models(items: Seq<WrittenValue>) -> Seq<ValueModel> {
    items.map_values(|w: WrittenValue| w@)
}

/// What the members of an object say.
pub open spec fn member_models(members: Seq<(String, WrittenValue)>) -> Seq<
    (Seq<char>, ValueModel),
> {
    members.map_values(|m: (String, WrittenValue)| (m.0@, m.1@))
}

/// What a list or an object says is what its parts say.
pub broadcast proof fn nested_models(value: WrittenValue)
    ensures
        #[trigger] value_model(value) == match value {
            WrittenValue::List(items) => ValueModel::List(value_models(items@)),
            WrittenValue::Object(members) => ValueModel::Object(member_models(members@)),
            _ => value_model(value),
        },
{
    match value {
        WrittenValue::List(items) => {
            assert(value_model(value)->List_0 =~= value_models(items@));
        },
        WrittenValue::Object(members) => {
            assert(value_model(value)->Object_0 =~= member_models(members@));
        },
        _ => {},
    }
}

} // verus!
