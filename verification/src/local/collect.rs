//! What an entry hands over, in the form that it is shown from.

use vstd::prelude::*;
use vstd::string::*;

use crate::entry::{item_models, EntryItem, ItemModel};
use crate::flags::MetricFlags;
use crate::float::{
    below_2_63, double_from, has_no_fraction, is_integral, is_nan, nearest_double, order_key,
    ordering_number, truncate_to_i64, truncated,
};
use crate::local::percentile::{total_count, total_weight, ONE, Percentile, WeightedObservation};
use crate::local::pretty::is_below_2_63;
use crate::local::tree::JsonTree;
use crate::nested::{captured, captured_text};
use crate::unit::Unit;
use crate::validate::error_text;
use crate::value::{
    observations, pairs, MetricCall, MetricModel, Observation, ObservationModel, ValueModel,
    WrittenValue,
};

verus! {

/// The text that the `jiff` crate writes a point in time as, if it is in its range.
pub uninterp spec fn iso_text(nanos: i128) -> Option<Seq<char>>;

/// `jiff::Timestamp::from_nanosecond` gives the point in time that lies that many nanoseconds
/// after the epoch, if it is in range, and its `to_string` writes it in ISO 8601.
#[verifier::external_body]
fn jiff_timestamp(nanos: i128) -> (res: Option<String>)
    ensures
        iso_text(nanos) == match res {
            Some(text) => Some(text@),
            None => None,
        },
{
    jiff::Timestamp::from_nanosecond(nanos).ok().map(|t| t.to_string())
}

/// What it takes to show doubles and points in time.
pub struct LocalOps<P, R, S, N, T> {
    /// A value in a unit.
    pub pretty: P,
    /// A fraction of a number of observations, rounded up.
    pub rank: R,
    /// The bits of the seconds since the epoch.
    pub seconds: S,
    /// A double as a number in JSON, if it is one.
    pub number: N,
    /// A point in time that has no other text.
    pub time: T,
}

impl<
    P: Fn(u64, Unit) -> String,
    R: Fn(u64, u64) -> u64,
    S: Fn(i128) -> u64,
    N: Fn(u64) -> Option<serde_json::Number>,
    T: Fn(i128) -> String,
> LocalOps<P, R, S, N, T> {
    /// Whether anything can be asked for.
    pub open spec fn total(self) -> bool {
        &&& forall|bits: u64, unit: Unit| call_requires(self.pretty, (bits, unit))
        &&& forall|count: u64, fraction: u64| call_requires(self.rank, (count, fraction))
        &&& forall|nanos: i128| call_requires(self.seconds, (nanos,))
        &&& forall|bits: u64| call_requires(self.number, (bits,))
        &&& forall|nanos: i128| call_requires(self.time, (nanos,))
    }

    /// Whether `tree` is the number with the given bits: an integer where it is one of 64
    /// bits.
    pub open spec fn is_json(self, bits: u64, tree: JsonTree) -> bool {
        if is_integral(bits) && below_2_63(bits) {
            tree == JsonTree::Int(truncated(bits))
        } else {
            exists|number: Option<serde_json::Number>| #[trigger]
                call_ensures(self.number, (bits,), number) && tree == match number {
                    Some(n) => JsonTree::Number(n),
                    None => JsonTree::Null,
                }
        }
    }

    /// Whether `target` is the sum of weights that the percentile for a fraction reaches:
    /// none of the weight up to zero, all of it from one on.
    pub open spec fn is_target(self, fraction: u64, count: u64, target: u64) -> bool {
        if !is_nan(fraction) && order_key(fraction) <= 0 {
            target == 0
        } else if !is_nan(fraction) && order_key(fraction) >= order_key(ONE) {
            target == count
        } else {
            call_ensures(self.rank, (count, fraction), target)
        }
    }

    /// Whether `text` is a point in time.
    pub open spec fn is_time(self, nanos: i128, text: String) -> bool {
        match iso_text(nanos) {
            Some(iso) => text@ == iso,
            None => call_ensures(self.time, (nanos,), text),
        }
    }

    /// Whether the observation is a value with a weight, shown in a unit.
    pub open spec fn is_observation(self, o: WeightedObservation, value: (u64, u64), unit: Unit)
        -> bool {
        &&& o.value == value.0
        &&& o.weight == value.1
        &&& call_ensures(self.pretty, (value.0, unit), o.text)
        &&& self.is_json(value.0, o.json)
    }

    /// Whether the field is what a value under a name is shown from.
    pub open spec fn is_field(
        self,
        percentiles: Seq<Percentile>,
        name: Seq<char>,
        value: ValueModel,
        field: Field,
    ) -> bool {
        &&& field.name@ == name
        &&& match value {
            ValueModel::Nothing => false,
            ValueModel::Metric(m) => field.data matches FieldData::Metric(data)
                && self.is_metric(percentiles, m, data),
            ValueModel::Error(e) => field.data matches FieldData::Text(s) && s@ == "ERROR: "@
                + error_text(e),
            _ => field.data matches FieldData::Text(s) && s@ == captured(value),
        }
    }

    /// Whether `c` is what an entry of such items is shown from: its last timestamp, and the
    /// values that it writes, in order.
    pub open spec fn is_collected(
        self,
        percentiles: Seq<Percentile>,
        items: Seq<ItemModel>,
        c: Collector,
    ) -> bool {
        &&& c.wf(percentiles.len())
        &&& match last_timestamp(items) {
            Some(nanos) => c.timestamp matches Some(t) && t.nanos == nanos && self.is_time(
                nanos,
                t.text,
            ) && (nanos >= 0 ==> exists|bits: u64| #[trigger]
                call_ensures(self.seconds, (nanos,), bits) && self.is_json(bits, t.seconds)),
            None => c.timestamp is None,
        }
        &&& c.fields@.len() == written_values(items).len()
        &&& forall|i: int|
            0 <= i < c.fields@.len() ==> self.is_field(
                percentiles,
                written_values(items)[i].0,
                written_values(items)[i].1,
                #[trigger] c.fields@[i],
            )
    }

    /// Whether the field is what a metric is shown from.
    pub open spec fn is_metric(
        self,
        percentiles: Seq<Percentile>,
        m: MetricModel,
        data: MetricField,
    ) -> bool {
        let values = weighted_values(m.distribution);
        &&& data.observations@.len() == values.len()
        &&& forall|i: int|
            0 <= i < values.len() ==> self.is_observation(
                #[trigger] data.observations@[i],
                values[i],
                m.unit,
            )
        &&& data.targets@.len() == percentiles.len()
        &&& forall|k: int|
            0 <= k < percentiles.len() ==> self.is_target(
                (#[trigger] percentiles[k]).fraction,
                total_weight(data.observations@) as u64,
                data.targets@[k],
            )
        &&& call_ensures(self.pretty, (0u64, m.unit), data.zero_text)
        &&& data.unit == m.unit
        &&& pairs(data.dimensions@) == m.dimensions
        &&& data.is_distribution == (m.flags == MetricFlags::Distribution)
    }

    /// A double as a number in JSON.
    pub fn format_json_value(&self, bits: u64) -> (tree: JsonTree)
        requires
            self.total(),
        ensures
            self.is_json(bits, tree),
            !(tree is Object),
    {
        if has_no_fraction(bits) && is_below_2_63(bits) {
            JsonTree::Int(truncate_to_i64(bits))
        } else {
            let number = &self.number;
            match number(bits) {
                Some(n) => JsonTree::Number(n),
                None => JsonTree::Null,
            }
        }
    }

    /// A point in time as text.
    pub fn format_timestamp(&self, nanos: i128) -> (text: String)
        requires
            self.total(),
        ensures
            self.is_time(nanos, text),
    {
        match jiff_timestamp(nanos) {
            Some(text) => text,
            None => {
                let time = &self.time;
                time(nanos)
            },
        }
    }

    /// The sum of weights that the percentile for a fraction reaches.
    fn target(&self, fraction: u64, count: u64) -> (target: u64)
        requires
            self.total(),
        ensures
            self.is_target(fraction, count, target),
    {
        let key: i128 = ordering_number(fraction);
        let nan: i128 = 0x8000_0000_0000_0000;
        if key <= 0 {
            0
        } else if key != nan && key >= ordering_number(ONE) {
            count
        } else {
            let rank = &self.rank;
            rank(count, fraction)
        }
    }

    /// A value with a weight, shown in a unit.
    fn observation(&self, value: u64, weight: u64, unit: Unit) -> (o: WeightedObservation)
        requires
            self.total(),
        ensures
            self.is_observation(o, (value, weight), unit),
            !(o.json is Object),
    {
        let pretty = &self.pretty;
        WeightedObservation {
            value,
            weight,
            text: pretty(value, unit),
            json: self.format_json_value(value),
        }
    }

    /// What a metric is shown from.
    fn metric(&self, percentiles: &Vec<Percentile>, m: &MetricCall) -> (data: MetricField)
        requires
            self.total(),
            weight_sum(weighted_values(m@.distribution)) <= u64::MAX,
        ensures
            self.is_metric(percentiles@, m@, data),
            data.wf(percentiles@.len()),
    {
        let ghost all = m@.distribution;
        let mut list: Vec<WeightedObservation> = Vec::new();
        for i in 0..m.distribution.len()
            invariant
                self.total(),
                all == observations(m.distribution@),
                list@.len() == weighted_values(all.take(i as int)).len(),
                forall|j: int|
                    0 <= j < list@.len() ==> self.is_observation(
                        #[trigger] list@[j],
                        weighted_values(all.take(i as int))[j],
                        m.unit,
                    ),
                forall|j: int| 0 <= j < list@.len() ==> !((#[trigger] list@[j]).json is Object),
                total_weight(list@) == weight_sum(weighted_values(all.take(i as int))),
        {
            let ghost before = list@;
            proof {
                assert(all.take(i + 1).drop_last() =~= all.take(i as int));
                assert(all.take(i + 1).last() == m.distribution@[i as int]@);
            }
            match &m.distribution[i] {
                Observation::Unsigned(v) => {
                    list.push(self.observation(double_from(*v), 1, m.unit));
                },
                Observation::Floating(f) => {
                    list.push(self.observation(f.bits, 1, m.unit));
                },
                Observation::Repeated { occurrences, mean, .. } => {
                    if *occurrences > 0 {
                        list.push(self.observation(mean.bits, *occurrences, m.unit));
                    }
                },
            }
            proof {
                let now = weighted_values(all.take(i + 1));
                let then = weighted_values(all.take(i as int));
                if list@.len() > before.len() {
                    assert(list@.drop_last() =~= before);
                    assert(now.drop_last() =~= then);
                }
                assert forall|j: int| 0 <= j < list@.len() implies self.is_observation(
                    #[trigger] list@[j],
                    now[j],
                    m.unit,
                ) by {
                    if j < before.len() {
                        assert(list@[j] == before[j]);
                        assert(now[j] == then[j]);
                    }
                }
            }
        }
        assert(all.take(all.len() as int) =~= all);
        let count: u64 = total_count(&list);
        let mut targets: Vec<u64> = Vec::new();
        for k in 0..percentiles.len()
            invariant
                self.total(),
                targets@.len() == k,
                forall|j: int|
                    0 <= j < k ==> self.is_target(
                        (#[trigger] percentiles@[j]).fraction,
                        count,
                        targets@[j],
                    ),
        {
            targets.push(self.target(percentiles[k].fraction, count));
        }
        let mut dimensions: Vec<(String, String)> = Vec::new();
        for i in 0..m.dimensions.len()
            invariant
                dimensions@ == m.dimensions@.take(i as int),
        {
            dimensions.push((m.dimensions[i].0.clone(), m.dimensions[i].1.clone()));
            assert(dimensions@ =~= m.dimensions@.take(i + 1));
        }
        assert(dimensions@ =~= m.dimensions@);
        let pretty = &self.pretty;
        MetricField {
            observations: list,
            targets,
            zero_text: pretty(0, m.unit),
            unit: m.unit,
            dimensions,
            is_distribution: m.flags == MetricFlags::Distribution,
        }
    }

    /// Collects what an entry hands over.
    pub fn collect(&self, percentiles: &Vec<Percentile>, items: &Vec<EntryItem>) -> (c: Collector)
        requires
            self.total(),
            weights_fit(item_models(items@)),
        ensures
            self.is_collected(percentiles@, item_models(items@), c),
    {
        let ghost all = item_models(items@);
        let mut timestamp: Option<i128> = None;
        let mut fields: Vec<Field> = Vec::new();
        for i in 0..items.len()
            invariant
                self.total(),
                all == item_models(items@),
                weights_fit(all),
                timestamp == last_timestamp(all.take(i as int)),
                fields@.len() == written_values(all.take(i as int)).len(),
                forall|j: int|
                    0 <= j < fields@.len() ==> self.is_field(
                        percentiles@,
                        written_values(all.take(i as int))[j].0,
                        written_values(all.take(i as int))[j].1,
                        #[trigger] fields@[j],
                    ),
                forall|j: int|
                    0 <= j < fields@.len() ==> (#[trigger] fields@[j]).wf(percentiles@.len()),
        {
            let ghost before = fields@;
            proof {
                assert(all.take(i + 1).drop_last() =~= all.take(i as int));
                assert(all.take(i + 1).last() == items@[i as int]@);
                assert(all[i as int] == items@[i as int]@);
            }
            match &items[i] {
                EntryItem::Timestamp(t) => {
                    timestamp = Some(t.nanos);
                },
                EntryItem::Value(name, value) => {
                    let data = match value {
                        WrittenValue::Nothing => None,
                        WrittenValue::Metric(m) => Some(
                            FieldData::Metric(self.metric(percentiles, m)),
                        ),
                        WrittenValue::Error(e) => {
                            let mut text = "ERROR: ".to_owned();
                            text.append(e.message().as_str());
                            Some(FieldData::Text(text))
                        },
                        _ => Some(FieldData::Text(captured_text(value))),
                    };
                    if let Some(data) = data {
                        let field = Field { name: name.clone(), data };
                        fields.push(field);
                    }
                },
                EntryItem::Config(_) => {},
            }
            proof {
                let now = written_values(all.take(i + 1));
                let then = written_values(all.take(i as int));
                assert forall|j: int| 0 <= j < fields@.len() implies self.is_field(
                    percentiles@,
                    now[j].0,
                    now[j].1,
                    #[trigger] fields@[j],
                ) by {
                    if j < before.len() {
                        assert(fields@[j] == before[j]);
                        assert(now[j] == then[j]);
                    }
                }
                assert forall|j: int| 0 <= j < fields@.len() implies (#[trigger] fields@[j]).wf(
                    percentiles@.len(),
                ) by {
                    if j < before.len() {
                        assert(fields@[j] == before[j]);
                    }
                }
            }
        }
        assert(all.take(all.len() as int) =~= all);
        let timestamp = match timestamp {
            Some(nanos) => {
                let seconds = if nanos >= 0 {
                    let seconds = &self.seconds;
                    let bits: u64 = seconds(nanos);
                    self.format_json_value(bits)
                } else {
                    JsonTree::Null
                };
                Some(CollectedTime { nanos, text: self.format_timestamp(nanos), seconds })
            },
            None => None,
        };
        Collector { timestamp, fields }
    }
}

/// The values and weights of observations. Repeated ones count by their number with their
/// mean; none is left of those that never occurred.
pub open spec fn weighted_values(list: Seq<ObservationModel>) -> Seq<(u64, u64)>
    decreases list.len(),
{
    if list.len() == 0 {
        Seq::empty()
    } else {
        let init = weighted_values(list.drop_last());
        match list.last() {
            ObservationModel::Unsigned(v) => init.push((nearest_double(v), 1)),
            ObservationModel::Floating(f) => init.push((f.bits, 1)),
            ObservationModel::Repeated { occurrences, mean, .. } => if occurrences > 0 {
                init.push((mean.bits, occurrences))
            } else {
                init
            },
        }
    }
}

/// The sum of weights.
pub open spec fn weight_sum(values: Seq<(u64, u64)>) -> nat
    decreases values.len(),
{
    if values.len() == 0 {
        0
    } else {
        weight_sum(values.drop_last()) + values.last().1 as nat
    }
}

/// Whether the number of observations of each metric fits in 64 bits.
pub open spec fn weights_fit(items: Seq<ItemModel>) -> bool {
    forall|i: int|
        0 <= i < items.len() ==> (#[trigger] items[i] matches ItemModel::Value(
            _,
            ValueModel::Metric(m),
        ) ==> weight_sum(weighted_values(m.distribution)) <= u64::MAX)
}

/// The last timestamp.
pub open spec fn last_timestamp(items: Seq<ItemModel>) -> Option<i128>
    decreases items.len(),
{
    if items.len() == 0 {
        None
    } else {
        match items.last() {
            ItemModel::Timestamp(nanos) => Some(nanos),
            _ => last_timestamp(items.drop_last()),
        }
    }
}

/// The values that write anything, with their names.
pub open spec fn written_values(items: Seq<ItemModel>) -> Seq<(Seq<char>, ValueModel)>
    decreases items.len(),
{
    if items.len() == 0 {
        Seq::empty()
    } else {
        let init = written_values(items.drop_last());
        match items.last() {
            ItemModel::Value(name, value) => if value is Nothing {
                init
            } else {
                init.push((name, value))
            },
            _ => init,
        }
    }
}

/// What a metric is shown from.
#[derive(Debug)]
pub struct MetricField {
    pub observations: Vec<WeightedObservation>,
    /// The sum of weights that each percentile reaches.
    pub targets: Vec<u64>,
    /// Zero in the unit of the metric.
    pub zero_text: String,
    pub unit: Unit,
    pub dimensions: Vec<(String, String)>,
    pub is_distribution: bool,
}

impl MetricField {
    /// There is a target for each percentile, the weights add up to 64 bits, and numbers are
    /// not objects.
    pub open spec fn wf(self, percentiles: nat) -> bool {
        &&& self.targets@.len() == percentiles
        &&& total_weight(self.observations@) <= u64::MAX
        &&& forall|i: int|
            0 <= i < self.observations@.len() ==> !((#[trigger] self.observations@[i]).json
                is Object)
    }
}

/// What a field is shown from.
#[derive(Debug)]
pub enum FieldData {
    Text(String),
    Metric(MetricField),
}

/// A field, with its name.
#[derive(Debug)]
pub struct Field {
    pub name: String,
    pub data: FieldData,
}

impl Field {
    /// Metrics are well-formed.
    pub open spec fn wf(self, percentiles: nat) -> bool {
        self.data matches FieldData::Metric(m) ==> m.wf(percentiles)
    }
}

/// A point in time, as text and as seconds since the epoch.
#[derive(Debug)]
pub struct CollectedTime {
    pub nanos: i128,
    pub text: String,
    pub seconds: JsonTree,
}

/// What an entry is shown from.
#[derive(Debug)]
pub struct Collector {
    pub timestamp: Option<CollectedTime>,
    pub fields: Vec<Field>,
}

impl Collector {
    /// Fields are well-formed, and the seconds are a number.
    pub open spec fn wf(self, percentiles: nat) -> bool {
        &&& self.timestamp matches Some(t) ==> !(t.seconds is Object)
        &&& forall|i: int|
            0 <= i < self.fields@.len() ==> (#[trigger] self.fields@[i]).wf(percentiles)
    }
}

} // verus!
