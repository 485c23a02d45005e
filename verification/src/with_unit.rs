//! Values that are converted to a unit when they are written.

use core::marker::PhantomData;

use vstd::prelude::*;
use vstd::string::*;

use crate::float::Float;
use crate::traits::MetricValue;
use crate::unit::{is_converted, same_unit, unit_name, Convert, DoubleOp, Unit, UnitTag};
use crate::validate::{plain_error, ValidationError};
use crate::value::{MetricCall, Observation, ValueModel, WrittenValue};

verus! {

/// A value that is converted to a unit when it is written.
#[derive(Debug)]
pub struct WithUnit<V, U> {
    value: V,
    _unit_tag: PhantomData<U>,
}

/// What is said of a value that wrote another unit than it promised.
pub open spec fn broken_promise(promised: Unit, wrote: Unit) -> Seq<char> {
    "value promised to write unit `"@ + unit_name(promised) + "` but wrote `"@ + unit_name(wrote)
        + "` instead"@
}

impl<V, U> WithUnit<V, U> {
    /// The value itself.
    pub closed spec fn inner(self) -> V {
        self.value
    }

    /// A value that is to be converted.
    pub fn new(value: V) -> (w: WithUnit<V, U>)
        ensures
            w.inner() == value,
    {
        WithUnit { value, _unit_tag: PhantomData }
    }

    /// The value itself.
    pub fn into_inner(self) -> (value: V)
        ensures
            value == self.inner(),
    {
        self.value
    }

    /// The value itself.
    pub fn as_inner(&self) -> (value: &V)
        ensures
            *value == self.inner(),
    {
        &self.value
    }
}

impl<V: MetricValue, U> From<V> for WithUnit<V, U> {
    /// A value that is to be converted.
    fn from(value: V) -> (w: WithUnit<V, U>)
        ensures
            w.inner() == value,
    {
        WithUnit::new(value)
    }
}

impl<V: MetricValue, U> vstd::std_specs::convert::FromSpecImpl<V> for WithUnit<V, U> {
    open spec fn obeys_from_spec() -> bool {
        false
    }

    open spec fn from_spec(value: V) -> WithUnit<V, U> {
        arbitrary()
    }
}

/// Whether `after` is what is written in place of `before` when it is converted from one unit to
/// another: metrics in the promised unit with each observation converted, objects as they are,
/// errors in place of strings, lists and metrics in any other unit.
pub open spec fn is_written_in<F: Fn(DoubleOp) -> Float>(
    compute: F,
    from: Unit,
    ratio: crate::unit::Ratio,
    to: Unit,
    before: WrittenValue,
    after: WrittenValue,
) -> bool {
    match before {
        WrittenValue::Text(_) | WrittenValue::List(_) => after@ == ValueModel::Error(
            plain_error("can't apply a unit to a string value"@),
        ),
        WrittenValue::Metric(m) => if !same_unit(m.unit, from) {
            after@ == ValueModel::Error(plain_error(broken_promise(from, m.unit)))
        } else {
            after matches WrittenValue::Metric(n) && n.unit == to && n.dimensions == m.dimensions
                && n.flags == m.flags && n.distribution@.len() == m.distribution@.len() && forall|
                i: int,
            |
                0 <= i < m.distribution@.len() ==> is_converted(
                    compute,
                    m.distribution@[i],
                    ratio,
                    #[trigger] n.distribution@[i],
                )
        },
        _ => after == before,
    }
}

/// Converts what a value wrote from the unit that it promised to another.
pub fn write_in_unit<From: Convert<To>, To: UnitTag, F: Fn(DoubleOp) -> Float>(
    written: WrittenValue,
    compute: &F,
) -> (res: WrittenValue)
    requires
        forall|op: DoubleOp| call_requires(compute, (op,)),
    ensures
        is_written_in(*compute, From::tag(), From::ratio_spec(), To::tag(), written, res),
{
    match written {
        WrittenValue::Text(_) | WrittenValue::List(_) => WrittenValue::Error(
            ValidationError::invalid("can't apply a unit to a string value"),
        ),
        WrittenValue::Metric(m) => {
            let promised = From::unit();
            if !m.unit.same_as(promised) {
                let mut reason = "value promised to write unit `".to_owned();
                reason.append(promised.name());
                reason.append("` but wrote `");
                reason.append(m.unit.name());
                reason.append("` instead");
                return WrittenValue::Error(ValidationError::invalid(reason.as_str()));
            }
            let ghost before = m.distribution@;
            let mut rest = m.distribution;
            let mut distribution: Vec<Observation> = Vec::new();
            let ghost mut k: int = 0;
            assert(rest@ =~= before.skip(0));
            while rest.len() > 0
                invariant
                    forall|op: DoubleOp| call_requires(compute, (op,)),
                    0 <= k <= before.len(),
                    rest@ == before.skip(k),
                    distribution@.len() == k,
                    forall|i: int|
                        0 <= i < k ==> is_converted(
                            *compute,
                            before[i],
                            From::ratio_spec(),
                            #[trigger] distribution@[i],
                        ),
                decreases rest.len(),
            {
                let observation = rest.remove(0);
                assert(observation == before[k]);
                distribution.push(From::convert(observation, compute));
                proof {
                    assert(rest@ =~= before.skip(k + 1));
                    k = k + 1;
                }
            }
            WrittenValue::Metric(
                MetricCall {
                    distribution,
                    unit: To::unit(),
                    dimensions: m.dimensions,
                    flags: m.flags,
                },
            )
        },
        other => other,
    }
}

impl<V: MetricValue, U: UnitTag> WithUnit<V, U> where V::Unit: Convert<U> {
    /// Hands over the value, converted to the unit. `compute` does the arithmetic.
    pub fn write<F: Fn(DoubleOp) -> Float>(&self, compute: &F) -> (written: WrittenValue)
        requires
            forall|op: DoubleOp| call_requires(compute, (op,)),
        ensures
            exists|inner: WrittenValue|
                inner@ == self.inner().model() && #[trigger] is_written_in(
                    *compute,
                    V::Unit::tag(),
                    <V::Unit as Convert<U>>::ratio_spec(),
                    U::tag(),
                    inner,
                    written,
                ),
    {
        write_in_unit::<V::Unit, U, F>(self.value.write(), compute)
    }
}

} // verus!
