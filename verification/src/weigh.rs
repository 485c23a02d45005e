//! Entries that stand for several.

use vstd::prelude::*;
use vstd::string::*;

use crate::entry::{item_models, EntryItem, ItemModel};
use crate::float::{Float, FloatModel};
use crate::nested::{saturating_mul, saturating_product};
use crate::unit::{DoubleOp, Ratio};
use crate::value::{
    observations, MetricCall, MetricModel, Observation, ObservationModel, ValueModel, WrittenValue,
};

verus! {

/// The ratio that multiplies by a number.
pub open spec fn times(n: u64) -> Ratio {
    Ratio { numerator: n, denominator: 1 }
}

/// Whether `computed` is what an operation gives.
pub open spec fn is_computed<F: Fn(DoubleOp) -> Float>(
    compute: F,
    op: DoubleOp,
    computed: FloatModel,
) -> bool {
    exists|f: Float| #[trigger] call_ensures(compute, (op,), f) && computed == f@
}

/// Whether `after` stands for `n` times `before`: a number becomes the sum of as many occurrences of
/// it; of repeated observations there are as many times more occurrences. Nothing changes where `n`
/// is one.
pub open spec fn is_weighed<F: Fn(DoubleOp) -> Float>(
    compute: F,
    n: u64,
    before: ObservationModel,
    after: ObservationModel,
) -> bool {
    if n == 1 {
        after == before
    } else {
        match before {
            ObservationModel::Unsigned(value) => after matches ObservationModel::Repeated {
                total,
                occurrences,
                mean,
            } && occurrences == n && is_computed(
                compute,
                DoubleOp::ScaleInteger { value, ratio: times(n) },
                total,
            ) && is_computed(
                compute,
                DoubleOp::ScaleInteger { value, ratio: times(1) },
                mean,
            ),
            ObservationModel::Floating(f) => after matches ObservationModel::Repeated {
                total,
                occurrences,
                mean,
            } && occurrences == n && is_computed(
                compute,
                DoubleOp::ScaleDouble { bits: f.bits, ratio: times(n) },
                total,
            ) && mean == f,
            ObservationModel::Repeated { total, occurrences, mean } => after
                == ObservationModel::Repeated {
                total,
                occurrences: saturating_product(occurrences, n),
                mean,
            },
        }
    }
}

/// Whether each of the observations stands for `n` of those before.
pub open spec fn are_weighed_observations<F: Fn(DoubleOp) -> Float>(
    compute: F,
    n: u64,
    before: Seq<ObservationModel>,
    after: Seq<ObservationModel>,
) -> bool {
    after.len() == before.len() && forall|i: int|
        0 <= i < before.len() ==> is_weighed(compute, n, before[i], #[trigger] after[i])
}

/// Whether an item stands for `n` of those before: metrics do with each of their observations,
/// everything else stays as it is.
pub open spec fn is_weighed_item<F: Fn(DoubleOp) -> Float>(
    compute: F,
    n: u64,
    before: ItemModel,
    after: ItemModel,
) -> bool {
    match before {
        ItemModel::Value(name, ValueModel::Metric(m)) => after matches ItemModel::Value(
            other_name,
            ValueModel::Metric(k),
        ) && other_name == name && are_weighed_observations(
            compute,
            n,
            m.distribution,
            k.distribution,
        ) && k == (MetricModel { distribution: k.distribution, ..m }),
        _ => after == before,
    }
}

/// Whether each of the items stands for `n` of those before.
pub open spec fn are_weighed<F: Fn(DoubleOp) -> Float>(
    compute: F,
    n: u64,
    before: Seq<ItemModel>,
    after: Seq<ItemModel>,
) -> bool {
    after.len() == before.len() && forall|i: int|
        0 <= i < before.len() ==> is_weighed_item(compute, n, before[i], #[trigger] after[i])
}

/// An observation that stands for `n` of them. `compute` does the arithmetic.
fn weigh_observation<F: Fn(DoubleOp) -> Float>(observation: Observation, n: u64, compute: &F) -> (res:
    Observation)
    requires
        forall|op: DoubleOp| call_requires(compute, (op,)),
    ensures
        is_weighed(*compute, n, observation@, res@),
{
    if n == 1 {
        return observation;
    }
    let ratio = Ratio { numerator: n, denominator: 1 };
    match observation {
        Observation::Unsigned(value) => {
            let total = compute(DoubleOp::ScaleInteger { value, ratio });
            let mean = compute(
                DoubleOp::ScaleInteger { value, ratio: Ratio { numerator: 1, denominator: 1 } },
            );
            Observation::Repeated { total, occurrences: n, mean }
        },
        Observation::Floating(f) => {
            let total = compute(DoubleOp::ScaleDouble { bits: f.bits, ratio });
            Observation::Repeated { total, occurrences: n, mean: f }
        },
        Observation::Repeated { total, occurrences, mean } => Observation::Repeated {
            total,
            occurrences: saturating_mul(occurrences, n),
            mean,
        },
    }
}

/// A metric that stands for `n` of them.
fn weigh_metric<F: Fn(DoubleOp) -> Float>(m: MetricCall, n: u64, compute: &F) -> (res: MetricCall)
    requires
        forall|op: DoubleOp| call_requires(compute, (op,)),
    ensures
        are_weighed_observations(*compute, n, m@.distribution, res@.distribution),
        res@ == (MetricModel { distribution: res@.distribution, ..m@ }),
{
    let ghost before = m.distribution@;
    let mut rest = m.distribution;
    let mut distribution: Vec<Observation> = Vec::new();
    let ghost mut k: int = 0;
    assert(rest@ =~= before.skip(0));
    while rest.len() > 0
        invariant
            forall|op: DoubleOp| call_requires(compute, (op,)),
            0 <= k <= before.len(),
            rest@ == before.skip(k),
            distribution@.len() == k,
            forall|i: int|
                0 <= i < k ==> is_weighed(*compute, n, before[i]@, (#[trigger] distribution@[i])@),
        decreases rest.len(),
    {
        let observation = rest.remove(0);
        assert(observation == before[k]);
        distribution.push(weigh_observation(observation, n, compute));
        proof {
            assert(rest@ =~= before.skip(k + 1));
            k = k + 1;
        }
    }
    let res = MetricCall {
        distribution,
        unit: m.unit,
        dimensions: m.dimensions,
        flags: m.flags,
    };
    proof {
        let after = observations(distribution@);
        assert forall|i: int| 0 <= i < before.len() implies is_weighed(
            *compute,
            n,
            m@.distribution[i],
            #[trigger] res@.distribution[i],
        ) by {
            assert(res@.distribution[i] == distribution@[i]@);
        }
    }
    res
}

/// The items of an entry that stands for `n` of them. `compute` does the arithmetic.
pub fn weigh<F: Fn(DoubleOp) -> Float>(items: Vec<EntryItem>, n: u64, compute: &F) -> (res: Vec<
    EntryItem,
>)
    requires
        forall|op: DoubleOp| call_requires(compute, (op,)),
    ensures
        are_weighed(*compute, n, item_models(items@), item_models(res@)),
{
    let ghost before = items@;
    let mut rest = items;
    let mut res: Vec<EntryItem> = Vec::new();
    let ghost mut k: int = 0;
    assert(rest@ =~= before.skip(0));
    while rest.len() > 0
        invariant
            forall|op: DoubleOp| call_requires(compute, (op,)),
            0 <= k <= before.len(),
            rest@ == before.skip(k),
            res@.len() == k,
            forall|i: int|
                0 <= i < k ==> is_weighed_item(*compute, n, before[i]@, (#[trigger] res@[i])@),
        decreases rest.len(),
    {
        let item = rest.remove(0);
        assert(item == before[k]);
        let item = match item {
            EntryItem::Value(name, WrittenValue::Metric(m)) => EntryItem::Value(
                name,
                WrittenValue::Metric(weigh_metric(m, n, compute)),
            ),
            other => other,
        };
        res.push(item);
        proof {
            assert(rest@ =~= before.skip(k + 1));
            k = k + 1;
        }
    }
    proof {
        assert forall|i: int| 0 <= i < before.len() implies is_weighed_item(
            *compute,
            n,
            item_models(before)[i],
            #[trigger] item_models(res@)[i],
        ) by {
            assert(item_models(res@)[i] == res@[i]@);
        }
    }
    res
}

/// An entry that stands for one alone is as it was.
pub proof fn weighing_once<F: Fn(DoubleOp) -> Float>(
    compute: F,
    before: Seq<ItemModel>,
    after: Seq<ItemModel>,
)
    requires
        are_weighed(compute, 1, before, after),
    ensures
        after == before,
{
    assert forall|i: int| 0 <= i < before.len() implies #[trigger] after[i] == before[i] by {
        assert(is_weighed_item(compute, 1, before[i], after[i]));
        if let ItemModel::Value(_, ValueModel::Metric(m)) = before[i] {
            if let ItemModel::Value(_, ValueModel::Metric(k)) = after[i] {
                assert(k.distribution =~= m.distribution);
            }
        }
    }
    assert(after =~= before);
}

/// Each observation of an entry that stands for several has the multiplicity in its count: what
/// was one observation counts `n` times, and repeated ones `n` times as often as before, as far as
/// that fits in 64 bits.
pub proof fn every_observation_carries_the_multiplicity<F: Fn(DoubleOp) -> Float>(
    compute: F,
    n: u64,
    before: ObservationModel,
    after: ObservationModel,
)
    requires
        is_weighed(compute, n, before, after),
        n != 1,
    ensures
        after matches ObservationModel::Repeated { occurrences, .. } && occurrences == match before {
            ObservationModel::Repeated { occurrences: o, .. } => saturating_product(o, n),
            _ => n,
        },
{
}

/// A number of an entry that stands for `n` of them becomes `n` occurrences: their sum is `n` times
/// the number, and their mean is the number. Of repeated observations there are `n` times as many,
/// as far as that fits in 64 bits.
pub proof fn observations_are_weighed<F: Fn(DoubleOp) -> Float>(
    compute: F,
    n: u64,
    before: ObservationModel,
    after: ObservationModel,
)
    requires
        is_weighed(compute, n, before, after),
    ensures
        n == 1 ==> after == before,
        n != 1 ==> (after matches ObservationModel::Repeated { total, occurrences, mean } && match before {
            ObservationModel::Unsigned(v) => {
                &&& occurrences == n
                &&& exists|f: Float| #[trigger]
                    call_ensures(
                        compute,
                        (
                            DoubleOp::ScaleInteger {
                                value: v,
                                ratio: Ratio { numerator: n, denominator: 1 },
                            },
                        ),
                        f,
                    ) && total == f@
                &&& exists|f: Float| #[trigger]
                    call_ensures(
                        compute,
                        (
                            DoubleOp::ScaleInteger {
                                value: v,
                                ratio: Ratio { numerator: 1, denominator: 1 },
                            },
                        ),
                        f,
                    ) && mean == f@
            },
            ObservationModel::Floating(b) => {
                &&& occurrences == n
                &&& exists|f: Float| #[trigger]
                    call_ensures(
                        compute,
                        (
                            DoubleOp::ScaleDouble {
                                bits: b.bits,
                                ratio: Ratio { numerator: n, denominator: 1 },
                            },
                        ),
                        f,
                    ) && total == f@
                &&& mean == b
            },
            ObservationModel::Repeated { total: t, occurrences: o, mean: m } => {
                &&& total == t
                &&& mean == m
                &&& o * n <= 0xffff_ffff_ffff_ffff ==> occurrences == o * n
                &&& o * n > 0xffff_ffff_ffff_ffff ==> occurrences == 0xffff_ffff_ffff_ffffu64
            },
        }),
{
    if n != 1 {
        if let ObservationModel::Repeated { occurrences, .. } = before {
            assert(0 <= occurrences * n) by (nonlinear_arith);
        }
    }
}

/// All else of an entry that stands for several is as it was: each item is where it was, under its
/// name, and a metric has as many observations as before, its unit, its dimensions and its flags.
pub proof fn entries_are_weighed<F: Fn(DoubleOp) -> Float>(
    compute: F,
    n: u64,
    before: Seq<ItemModel>,
    after: Seq<ItemModel>,
    i: int,
)
    requires
        are_weighed(compute, n, before, after),
        0 <= i < before.len(),
    ensures
        after.len() == before.len(),
        before[i] matches ItemModel::Value(name, ValueModel::Metric(m))
            ==> after[i] matches ItemModel::Value(k, ValueModel::Metric(w)) && k == name && w.unit
            == m.unit && w.dimensions == m.dimensions && w.flags == m.flags && w.distribution.len()
            == m.distribution.len() && forall|j: int|
            0 <= j < m.distribution.len() ==> is_weighed(
                compute,
                n,
                m.distribution[j],
                #[trigger] w.distribution[j],
            ),
        !(before[i] matches ItemModel::Value(_, ValueModel::Metric(_))) ==> after[i] == before[i],
{
    assert(is_weighed_item(compute, n, before[i], after[i]));
}

} // verus!
