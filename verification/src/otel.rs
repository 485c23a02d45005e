//! Entries as records of OpenTelemetry instruments.

use vstd::prelude::*;
use vstd::string::*;

use crate::entry::{item_models, Entry, EntryItem, ItemModel};
use crate::flags::{InstrumentKind, MetricFlags};
use crate::nested::{captured, captured_text};
use crate::unit::Unit;
use crate::value::{
    observations, pairs, MetricCall, MetricModel, Observation, ObservationModel, ValueModel,
    WrittenValue,
};

verus! {

/// A metric that is kept until all of the strings of its entry are known.
#[derive(Debug)]
pub struct PendingMetric {
    name: String,
    kind: InstrumentKind,
    observations: Vec<Observation>,
    unit: Unit,
    per_metric_dimensions: Vec<(String, String)>,
}

/// What is recorded on an instrument.
pub ghost struct RecordModel {
    pub name: Seq<char>,
    pub kind: InstrumentKind,
    pub observations: Seq<ObservationModel>,
    pub unit: Unit,
    pub attributes: Seq<(Seq<char>, Seq<char>)>,
}

impl View for PendingMetric {
    type V = RecordModel;

    closed spec fn view(&self) -> RecordModel {
        RecordModel {
            name: self.name@,
            kind: self.kind,
            observations: observations(self.observations@),
            unit: self.unit,
            attributes: pairs(self.per_metric_dimensions@),
        }
    }
}

/// What is recorded on an instrument.
#[derive(Debug)]
pub struct Record {
    pub name: String,
    pub kind: InstrumentKind,
    pub observations: Vec<Observation>,
    pub unit: Unit,
    pub attributes: Vec<(String, String)>,
}

impl View for Record {
    type V = RecordModel;

    open spec fn view(&self) -> RecordModel {
        RecordModel {
            name: self.name@,
            kind: self.kind,
            observations: observations(self.observations@),
            unit: self.unit,
            attributes: pairs(self.attributes@),
        }
    }
}

/// What records say.
pub open spec fn record_models(list: Seq<Record>) -> Seq<RecordModel> {
    list.map_values(|r: Record| r@)
}

/// The instrument for a metric with these flags, if there is one: the one that the flags name, or
/// a histogram for a distribution.
pub open spec fn instrument(flags: MetricFlags) -> Option<InstrumentKind> {
    match flags {
        MetricFlags::Otel(kind) => Some(kind),
        MetricFlags::Distribution => Some(InstrumentKind::Histogram),
        _ => None,
    }
}

/// The attributes of an entry: its strings, with lists and objects as strings, in order.
pub open spec fn entry_attributes(items: Seq<ItemModel>) -> Seq<(Seq<char>, Seq<char>)>
    decreases items.len(),
{
    if items.len() == 0 {
        Seq::empty()
    } else {
        let init = entry_attributes(items.drop_last());
        match items.last() {
            ItemModel::Value(name, value) => match value {
                ValueModel::Text(_) | ValueModel::List(_) | ValueModel::Object(_) => init.push(
                    (name, captured(value)),
                ),
                _ => init,
            },
            _ => init,
        }
    }
}

/// The metrics of an entry that have an instrument, in order, each with its own dimensions.
pub open spec fn entry_metrics(items: Seq<ItemModel>) -> Seq<RecordModel>
    decreases items.len(),
{
    if items.len() == 0 {
        Seq::empty()
    } else {
        let init = entry_metrics(items.drop_last());
        match items.last() {
            ItemModel::Value(name, ValueModel::Metric(m)) => match instrument(m.flags) {
                Some(kind) => init.push(
                    RecordModel {
                        name,
                        kind,
                        observations: m.distribution,
                        unit: m.unit,
                        attributes: m.dimensions,
                    },
                ),
                None => init,
            },
            _ => init,
        }
    }
}

/// The records of an entry: its metrics from the last to the first, each with its own dimensions
/// and then with the attributes of the entry.
pub open spec fn records(items: Seq<ItemModel>) -> Seq<RecordModel> {
    let metrics = entry_metrics(items);
    Seq::new(
        metrics.len(),
        |i: int|
            {
                let m = metrics[metrics.len() - 1 - i];
                RecordModel { attributes: m.attributes + entry_attributes(items), ..m }
            },
    )
}

/// A slot that no metric was put in yet. Its kind and its unit stand for nothing.
pub open spec fn empty_slot() -> RecordModel {
    RecordModel {
        name: Seq::empty(),
        kind: InstrumentKind::Counter,
        observations: Seq::empty(),
        unit: Unit::NoUnit,
        attributes: Seq::empty(),
    }
}

/// Buffers that are used again for each entry.
#[derive(Debug)]
pub struct WriterBufs {
    entry_attributes: Vec<(String, String)>,
    pending: Vec<PendingMetric>,
    metric_pool: Vec<PendingMetric>,
}

/// The greater of two numbers.
pub open spec fn more(a: nat, b: nat) -> nat {
    if a < b {
        b
    } else {
        a
    }
}

/// A slot with no metric in it, made of one that had a metric.
fn emptied(m: PendingMetric) -> (slot: PendingMetric)
    ensures
        slot.is_empty(),
{
    let mut slot = m;
    slot.name = String::new();
    slot.observations.clear();
    slot.per_metric_dimensions.clear();
    slot
}

impl PendingMetric {
    /// Whether there is no metric in the slot.
    spec fn is_empty(self) -> bool {
        self.name@.len() == 0 && self.observations@.len() == 0
            && self.per_metric_dimensions@.len() == 0
    }
}

impl WriterBufs {
    /// Whether nothing is left of an entry.
    pub closed spec fn is_clear(self) -> bool {
        self.entry_attributes@.len() == 0 && self.pending@.len() == 0
    }

    /// How many slots for metrics are put aside.
    pub closed spec fn spare_slots(self) -> nat {
        self.metric_pool@.len()
    }

    /// Empty buffers: nothing of an entry, and no slots put aside.
    pub fn new() -> (bufs: WriterBufs)
        ensures
            bufs.is_clear(),
            bufs.spare_slots() == 0,
            bufs.slots_are_empty(),
    {
        WriterBufs {
            entry_attributes: Vec::new(),
            pending: Vec::new(),
            metric_pool: Vec::new(),
        }
    }

    /// Whether there is no metric in any of the slots that are put aside.
    pub closed spec fn slots_are_empty(self) -> bool {
        forall|i: int| 0 <= i < self.metric_pool@.len() ==> (#[trigger] self.metric_pool@[i]).is_empty()
    }

    /// How many slots there are, put aside or not.
    spec fn slots(self) -> nat {
        self.spare_slots() + self.kept()
    }

    /// How many metrics are kept.
    spec fn kept(self) -> nat {
        self.pending@.len()
    }

    /// Empties whatever is left of an entry, and puts its slots aside.
    fn reset(&mut self)
        ensures
            final(self).is_clear(),
            final(self).spare_slots() == old(self).spare_slots() + old(self).kept(),
            old(self).slots_are_empty() ==> final(self).slots_are_empty(),
    {
        self.entry_attributes.clear();
        while self.pending.len() > 0
            invariant
                self.entry_attributes@.len() == 0,
                self.spare_slots() + self.kept() == old(self).spare_slots() + old(self).kept(),
                old(self).slots_are_empty() ==> self.slots_are_empty(),
            decreases self.pending.len(),
        {
            if let Some(m) = self.pending.pop() {
                self.metric_pool.push(emptied(m));
            }
        }
    }

    /// A slot for a metric: the last one that was put aside, or an empty one if there is none.
    fn take_metric(&mut self) -> (m: PendingMetric)
        ensures
            final(self).entry_attributes == old(self).entry_attributes,
            final(self).pending == old(self).pending,
            old(self).metric_pool@.len() > 0 ==> m == old(self).metric_pool@.last()
                && final(self).metric_pool@ == old(self).metric_pool@.drop_last(),
            old(self).metric_pool@.len() == 0 ==> m@ == empty_slot() && final(self).metric_pool@
                == old(self).metric_pool@,
            old(self).slots_are_empty() ==> m.is_empty() && final(self).slots_are_empty(),
    {
        match self.metric_pool.pop() {
            Some(m) => m,
            None => {
                let m = PendingMetric {
                    name: String::new(),
                    kind: InstrumentKind::Counter,
                    observations: Vec::new(),
                    unit: Unit::NoUnit,
                    per_metric_dimensions: Vec::new(),
                };
                proof {
                    assert(m@.name =~= Seq::empty());
                    assert(m@.observations =~= Seq::empty());
                    assert(m@.attributes =~= Seq::empty());
                }
                m
            },
        }
    }

    /// Whether the buffers hold what has been written of an entry.
    spec fn holds(self, items: Seq<ItemModel>) -> bool {
        &&& pairs(self.entry_attributes@) == entry_attributes(items)
        &&& self.pending@.map_values(|m: PendingMetric| m@) == entry_metrics(items)
    }

    /// Keeps a metric under a name, if it has an instrument.
    fn metric(&mut self, name: &str, m: &MetricCall, Ghost(items): Ghost<Seq<ItemModel>>)
        requires
            old(self).holds(items),
        ensures
            final(self).holds(items.push(ItemModel::Value(name@, ValueModel::Metric(m@)))),
            final(self).kept() >= old(self).kept(),
            final(self).slots() == more(old(self).slots(), final(self).kept()),
            old(self).slots_are_empty() ==> final(self).slots_are_empty(),
    {
        proof {
            let item = ItemModel::Value(name@, ValueModel::Metric(m@));
            assert(items.push(item).drop_last() =~= items);
        }
        let kind = match m.flags {
            MetricFlags::Otel(kind) => kind,
            MetricFlags::Distribution => InstrumentKind::Histogram,
            _ => {
                return;
            },
        };
        let mut metric = self.take_metric();
        metric.name = name.to_owned();
        metric.kind = kind;
        metric.unit = m.unit;
        metric.observations.clear();
        for i in 0..m.distribution.len()
            invariant
                metric.observations@ == m.distribution@.take(i as int),
                metric.name@ == name@,
                metric.kind == kind,
                metric.unit == m.unit,
        {
            metric.observations.push(m.distribution[i].duplicate());
            assert(metric.observations@ =~= m.distribution@.take(i + 1));
        }
        assert(metric.observations@ =~= m.distribution@);
        metric.per_metric_dimensions.clear();
        for i in 0..m.dimensions.len()
            invariant
                metric.per_metric_dimensions@ == m.dimensions@.take(i as int),
                metric.observations@ == m.distribution@,
                metric.name@ == name@,
                metric.kind == kind,
                metric.unit == m.unit,
        {
            metric.per_metric_dimensions.push(
                (m.dimensions[i].0.clone(), m.dimensions[i].1.clone()),
            );
            assert(metric.per_metric_dimensions@ =~= m.dimensions@.take(i + 1));
        }
        assert(metric.per_metric_dimensions@ =~= m.dimensions@);
        let ghost before = self.pending@;
        let ghost added = metric@;
        self.pending.push(metric);
        assert(self.pending@.map_values(|m: PendingMetric| m@) =~= before.map_values(
            |m: PendingMetric| m@,
        ).push(added));
    }

    /// Keeps an attribute.
    fn attribute(&mut self, name: &String, value: String)
        ensures
            pairs(final(self).entry_attributes@) == pairs(old(self).entry_attributes@).push(
                (name@, value@),
            ),
            final(self).pending == old(self).pending,
            final(self).metric_pool == old(self).metric_pool,
    {
        self.entry_attributes.push((name.clone(), value));
        assert(pairs(self.entry_attributes@) =~= pairs(old(self).entry_attributes@).push(
            (name@, value@),
        ));
    }

    /// Keeps what an entry hands over.
    fn write(&mut self, items: &Vec<EntryItem>)
        requires
            old(self).is_clear(),
        ensures
            final(self).holds(item_models(items@)),
            final(self).slots() == more(old(self).slots(), final(self).kept()),
            old(self).slots_are_empty() ==> final(self).slots_are_empty(),
    {
        let ghost all = item_models(items@);
        assert(pairs(self.entry_attributes@) =~= Seq::empty());
        assert(self.pending@.map_values(|m: PendingMetric| m@) =~= Seq::empty());
        for i in 0..items.len()
            invariant
                all == item_models(items@),
                self.holds(all.take(i as int)),
                self.slots() == more(old(self).slots(), self.kept()),
                old(self).slots_are_empty() ==> self.slots_are_empty(),
        {
            let ghost before = all.take(i as int);
            proof {
                assert(all.take(i + 1) =~= before.push(items@[i as int]@));
                assert(all.take(i + 1).drop_last() =~= before);
            }
            if let EntryItem::Value(name, value) = &items[i] {
                match value {
                    WrittenValue::Metric(m) => {
                        self.metric(name.as_str(), m, Ghost(before));
                    },
                    WrittenValue::Text(_) | WrittenValue::List(_) | WrittenValue::Object(_) => {
                        proof {
                            crate::value::nested_models(*value);
                        }
                        self.attribute(name, captured_text(value));
                    },
                    _ => {},
                }
            }
        }
        assert(all.take(all.len() as int) =~= all);
    }

    /// The records of what was kept.
    fn finish(&mut self, Ghost(items): Ghost<Seq<ItemModel>>) -> (list: Vec<Record>)
        requires
            old(self).holds(items),
        ensures
            record_models(list@) == records(items),
            list@.len() == old(self).kept(),
            final(self).kept() == 0,
            final(self).spare_slots() == old(self).slots(),
            old(self).slots_are_empty() ==> final(self).slots_are_empty(),
    {
        let ghost metrics = entry_metrics(items);
        let ghost goal = records(items);
        let mut list: Vec<Record> = Vec::new();
        assert(record_models(list@) =~= goal.take(0));
        assert(metrics.take(metrics.len() as int) =~= metrics);
        while self.pending.len() > 0
            invariant
                metrics == entry_metrics(items),
                goal == records(items),
                pairs(self.entry_attributes@) == entry_attributes(items),
                list@.len() + self.pending@.len() == metrics.len(),
                self.pending@.map_values(|m: PendingMetric| m@) == metrics.take(
                    self.pending@.len() as int,
                ),
                record_models(list@) == goal.take(list@.len() as int),
                self.slots() == old(self).slots(),
                old(self).slots_are_empty() ==> self.slots_are_empty(),
            decreases self.pending.len(),
        {
            let ghost k = list@.len() as int;
            let ghost earlier = list@;
            let ghost kept = self.pending@;
            if let Some(m) = self.pending.pop() {
                proof {
                    assert(kept.map_values(|m: PendingMetric| m@)[kept.len() - 1] == m@);
                    assert(m@ == metrics[metrics.len() - 1 - k]);
                    assert(self.pending@.map_values(|m: PendingMetric| m@) =~= metrics.take(
                        self.pending@.len() as int,
                    ));
                }
                let ghost model = m@;
                let mut attributes: Vec<(String, String)> = Vec::new();
                for i in 0..m.per_metric_dimensions.len()
                    invariant
                        attributes@ == m.per_metric_dimensions@.take(i as int),
                {
                    attributes.push(
                        (
                            m.per_metric_dimensions[i].0.clone(),
                            m.per_metric_dimensions[i].1.clone(),
                        ),
                    );
                    assert(attributes@ =~= m.per_metric_dimensions@.take(i + 1));
                }
                assert(attributes@ =~= m.per_metric_dimensions@);
                let ghost own = pairs(attributes@);
                let ghost shared = entry_attributes(items);
                assert(own + shared.take(0) =~= own);
                for i in 0..self.entry_attributes.len()
                    invariant
                        shared == pairs(self.entry_attributes@),
                        pairs(attributes@) == own + shared.take(i as int),
                {
                    let ghost before = attributes@;
                    attributes.push(
                        (self.entry_attributes[i].0.clone(), self.entry_attributes[i].1.clone()),
                    );
                    proof {
                        assert(pairs(attributes@) =~= pairs(before).push(shared[i as int]));
                        assert(own + shared.take(i + 1) =~= (own + shared.take(i as int)).push(
                            shared[i as int],
                        ));
                    }
                }
                assert(shared.take(shared.len() as int) =~= shared);
                let mut distribution: Vec<Observation> = Vec::new();
                for i in 0..m.observations.len()
                    invariant
                        distribution@ == m.observations@.take(i as int),
                {
                    distribution.push(m.observations[i].duplicate());
                    assert(distribution@ =~= m.observations@.take(i + 1));
                }
                assert(distribution@ =~= m.observations@);
                let record = Record {
                    name: m.name.clone(),
                    kind: m.kind,
                    observations: distribution,
                    unit: m.unit,
                    attributes,
                };
                self.metric_pool.push(emptied(m));
                let ghost recorded = record@;
                list.push(record);
                proof {
                    assert(recorded == goal[k]);
                    assert(record_models(list@) =~= record_models(earlier).push(recorded));
                    assert(goal.take(k + 1) =~= goal.take(k).push(goal[k]));
                }
            }
        }
        assert(goal.take(list@.len() as int) =~= goal);
        list
    }

    /// The records of an entry. What is left in the buffers from another entry makes no
    /// difference. All slots are put aside, emptied, to be used again.
    pub fn run<E: Entry>(&mut self, entry: &E) -> (list: Vec<Record>)
        ensures
            record_models(list@) == records(entry.items()),
            final(self).spare_slots() >= list@.len(),
            final(self).spare_slots() >= old(self).spare_slots(),
            old(self).slots_are_empty() ==> final(self).slots_are_empty(),
    {
        self.reset();
        let items = entry.write();
        self.write(&items);
        self.finish(Ghost(item_models(items@)))
    }
}

/// Each record of an entry ends with all of the attributes of the entry, whether they were written
/// before the metric or after it.
pub proof fn attributes_reach_all_records(items: Seq<ItemModel>, i: int)
    requires
        0 <= i < records(items).len(),
    ensures
        ({
            let attributes = records(items)[i].attributes;
            let shared = entry_attributes(items);
            attributes.len() >= shared.len() && attributes.skip(attributes.len() - shared.len())
                == shared
        }),
{
    let attributes = records(items)[i].attributes;
    let shared = entry_attributes(items);
    assert(attributes.skip(attributes.len() - shared.len()) =~= shared);
}

/// Whether a metric with these flags is recorded, and on which kind of instrument: on the one that
/// the flags name, or on a histogram if they say that it is a distribution.
pub open spec fn is_recorded_on(flags: MetricFlags, kind: InstrumentKind) -> bool {
    flags == MetricFlags::Otel(kind) || (flags == MetricFlags::Distribution && kind
        == InstrumentKind::Histogram)
}

/// Whether a metric with these flags is recorded at all.
pub open spec fn is_recorded(flags: MetricFlags) -> bool {
    flags is Otel || flags == MetricFlags::Distribution
}

/// Whether a record is that of an item: its name, its observations and its unit, on the instrument
/// for its flags, and its own dimensions before the `shared` attributes.
pub open spec fn is_record_of(
    item: ItemModel,
    shared: Seq<(Seq<char>, Seq<char>)>,
    record: RecordModel,
) -> bool {
    item matches ItemModel::Value(name, ValueModel::Metric(m)) && record.name == name
        && is_recorded_on(m.flags, record.kind) && record.observations == m.distribution
        && record.unit == m.unit && record.attributes == m.dimensions + shared
}

/// Whether an attribute is that of an item: a string under its name, and a list or an object as a
/// string.
pub open spec fn is_attribute_of(item: ItemModel, attribute: (Seq<char>, Seq<char>)) -> bool {
    item matches ItemModel::Value(name, value) && attribute.0 == name && match value {
        ValueModel::Text(text) => attribute.1 == text,
        ValueModel::List(_) | ValueModel::Object(_) => attribute.1 == captured(value),
        _ => false,
    }
}

/// Whether the attributes are those of the items at the given positions, in order, and there is no
/// other string, list or object.
pub open spec fn are_attributes_at(
    items: Seq<ItemModel>,
    at: Seq<int>,
    attributes: Seq<(Seq<char>, Seq<char>)>,
) -> bool {
    &&& at.len() == attributes.len()
    &&& forall|k: int|
        0 <= k < at.len() ==> 0 <= #[trigger] at[k] < items.len() && is_attribute_of(
            items[at[k]],
            attributes[k],
        )
    &&& forall|j: int, k: int| 0 <= j < k < at.len() ==> #[trigger] at[j] < #[trigger] at[k]
    &&& forall|i: int|
        0 <= i < items.len() && (#[trigger] items[i] matches ItemModel::Value(_, value) && (
        value is Text || value is List || value is Object)) ==> at.contains(i)
}

/// Whether the records are those of the items at the given positions, from the last to the first,
/// and there is no other metric that is recorded.
pub open spec fn are_records_at(
    items: Seq<ItemModel>,
    at: Seq<int>,
    shared: Seq<(Seq<char>, Seq<char>)>,
    list: Seq<RecordModel>,
) -> bool {
    &&& at.len() == list.len()
    &&& forall|k: int|
        0 <= k < at.len() ==> 0 <= #[trigger] at[k] < items.len() && is_record_of(
            items[at[k]],
            shared,
            list[k],
        )
    &&& forall|j: int, k: int| 0 <= j < k < at.len() ==> #[trigger] at[j] > #[trigger] at[k]
    &&& forall|i: int|
        0 <= i < items.len() && (#[trigger] items[i] matches ItemModel::Value(
            _,
            ValueModel::Metric(m),
        ) && is_recorded(m.flags)) ==> at.contains(i)
}

proof fn positions_of_attributes(items: Seq<ItemModel>) -> (at: Seq<int>)
    ensures
        are_attributes_at(items, at, entry_attributes(items)),
    decreases items.len(),
{
    if items.len() == 0 {
        Seq::empty()
    } else {
        let init = items.drop_last();
        let n = init.len() as int;
        let before = positions_of_attributes(init);
        let at = if entry_attributes(items).len() > entry_attributes(init).len() {
            before.push(n)
        } else {
            before
        };
        assert forall|i: int|
            0 <= i < items.len() && (#[trigger] items[i] matches ItemModel::Value(_, value) && (
            value is Text || value is List || value is Object)) implies at.contains(i) by {
            if i < n {
                assert(init[i] == items[i]);
                assert(before.contains(i));
                let k = choose|k: int| 0 <= k < before.len() && before[k] == i;
                assert(at[k] == i);
            } else {
                assert(at[at.len() - 1] == i);
            }
        }
        assert forall|k: int| 0 <= k < at.len() implies 0 <= #[trigger] at[k] < items.len()
            && is_attribute_of(items[at[k]], entry_attributes(items)[k]) by {
            if k < before.len() {
                assert(at[k] == before[k]);
                assert(init[before[k]] == items[before[k]]);
            }
        }
        assert forall|j: int, k: int| 0 <= j < k < at.len() implies #[trigger] at[j]
            < #[trigger] at[k] by {
            assert(at[j] == before[j]);
            if k < before.len() {
                assert(at[k] == before[k]);
            }
        }
        at
    }
}

/// Whether the metrics are those of the items at the given positions, in order.
spec fn are_metrics_at(items: Seq<ItemModel>, at: Seq<int>) -> bool {
    let list = entry_metrics(items);
    &&& at.len() == list.len()
    &&& forall|k: int|
        0 <= k < at.len() ==> 0 <= #[trigger] at[k] < items.len() && is_record_of(
            items[at[k]],
            Seq::empty(),
            list[k],
        )
    &&& forall|j: int, k: int| 0 <= j < k < at.len() ==> #[trigger] at[j] < #[trigger] at[k]
    &&& forall|i: int|
        0 <= i < items.len() && (#[trigger] items[i] matches ItemModel::Value(
            _,
            ValueModel::Metric(m),
        ) && is_recorded(m.flags)) ==> at.contains(i)
}

proof fn positions_of_metrics(items: Seq<ItemModel>) -> (at: Seq<int>)
    ensures
        are_metrics_at(items, at),
    decreases items.len(),
{
    if items.len() == 0 {
        Seq::empty()
    } else {
        let init = items.drop_last();
        let n = init.len() as int;
        let before = positions_of_metrics(init);
        let at = if entry_metrics(items).len() > entry_metrics(init).len() {
            before.push(n)
        } else {
            before
        };
        assert forall|i: int|
            0 <= i < items.len() && (#[trigger] items[i] matches ItemModel::Value(
                _,
                ValueModel::Metric(m),
            ) && is_recorded(m.flags)) implies at.contains(i) by {
            if i < n {
                assert(init[i] == items[i]);
                assert(before.contains(i));
                let k = choose|k: int| 0 <= k < before.len() && before[k] == i;
                assert(at[k] == i);
            } else {
                assert(at[at.len() - 1] == i);
            }
        }
        assert forall|k: int| 0 <= k < at.len() implies 0 <= #[trigger] at[k] < items.len()
            && is_record_of(items[at[k]], Seq::empty(), entry_metrics(items)[k]) by {
            if k < before.len() {
                assert(at[k] == before[k]);
                assert(init[before[k]] == items[before[k]]);
            } else if let ItemModel::Value(_, ValueModel::Metric(m)) = items[n] {
                assert(m.dimensions + Seq::<(Seq<char>, Seq<char>)>::empty() =~= m.dimensions);
            }
        }
        assert forall|j: int, k: int| 0 <= j < k < at.len() implies #[trigger] at[j]
            < #[trigger] at[k] by {
            assert(at[j] == before[j]);
            if k < before.len() {
                assert(at[k] == before[k]);
            }
        }
        at
    }
}

/// The records of an entry are its metrics, from the last to the first: each metric whose flags
/// name a kind of instrument, on that kind; each distribution, on a histogram; and no other. A
/// record has the name, the observations and the unit of its metric, and as attributes the
/// dimensions of the metric and after them the strings of the entry, in order.
pub proof fn records_are_the_metrics(items: Seq<ItemModel>)
    ensures
        exists|at: Seq<int>, from: Seq<int>, shared: Seq<(Seq<char>, Seq<char>)>| #[trigger]
            are_records_at(items, at, shared, records(items)) && #[trigger] are_attributes_at(
                items,
                from,
                shared,
            ),
{
    let from = positions_of_attributes(items);
    let shared = entry_attributes(items);
    let forward = positions_of_metrics(items);
    let n = forward.len() as int;
    let at = Seq::new(forward.len(), |k: int| forward[n - 1 - k]);
    let list = records(items);
    assert forall|k: int| 0 <= k < at.len() implies 0 <= #[trigger] at[k] < items.len()
        && is_record_of(items[at[k]], shared, list[k]) by {
        let metric = entry_metrics(items)[n - 1 - k];
        assert(forward[n - 1 - k] == at[k]);
        assert(is_record_of(items[at[k]], Seq::empty(), metric));
        if let ItemModel::Value(_, ValueModel::Metric(m)) = items[at[k]] {
            assert(m.dimensions + Seq::<(Seq<char>, Seq<char>)>::empty() =~= m.dimensions);
        }
    }
    assert forall|i: int|
        0 <= i < items.len() && (#[trigger] items[i] matches ItemModel::Value(
            _,
            ValueModel::Metric(m),
        ) && is_recorded(m.flags)) implies at.contains(i) by {
        assert(forward.contains(i));
        let k = choose|k: int| 0 <= k < forward.len() && forward[k] == i;
        assert(at[n - 1 - k] == i);
    }
    assert(are_records_at(items, at, shared, list));
}

/// A metric whose flags name a kind of instrument is recorded on that kind, under its name, with
/// its observations, its unit and its dimensions.
pub proof fn metrics_are_recorded_on_their_instruments(
    items: Seq<ItemModel>,
    i: int,
    name: Seq<char>,
    m: MetricModel,
    kind: InstrumentKind,
)
    requires
        0 <= i < items.len(),
        items[i] == ItemModel::Value(name, ValueModel::Metric(m)),
        m.flags == MetricFlags::Otel(kind),
    ensures
        exists|k: int|
            0 <= k < records(items).len() && (#[trigger] records(items)[k]).name == name && records(
                items,
            )[k].kind == kind && records(items)[k].observations == m.distribution && records(
                items,
            )[k].unit == m.unit && m.dimensions.is_prefix_of(records(items)[k].attributes),
{
    records_are_the_metrics(items);
    let (at, from, shared) = choose|
        at: Seq<int>,
        from: Seq<int>,
        shared: Seq<(Seq<char>, Seq<char>)>,
    | #[trigger]
        are_records_at(items, at, shared, records(items)) && #[trigger] are_attributes_at(
            items,
            from,
            shared,
        );
    assert(at.contains(i));
    let k = choose|k: int| 0 <= k < at.len() && at[k] == i;
    assert(is_record_of(items[at[k]], shared, records(items)[k]));
}

} // verus!
