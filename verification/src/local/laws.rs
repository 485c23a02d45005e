//! What is shown of an entry.

use vstd::prelude::*;
use vstd::string::*;

use crate::assoc::{
    has_member, member_position, member_position_is_first, names_differ, put, put_is_found,
};
use crate::entry::ItemModel;
use crate::flags::MetricFlags;
use crate::float::{exponent_field, is_integral, nearest_double, truncated};
use crate::listing::{selects, selects_more, selects_none};
use crate::local::collect::{
    iso_text, last_timestamp, weighted_values, written_values, Collector, Field, FieldData,
    LocalOps, MetricField,
};
use crate::local::format::{shown, OutputStyle};
use crate::local::output::{
    byte_len, column_width, dimension_members, entry_json, entry_members, field_rows,
    histogram_members, metric_json, percentile_lines, percentile_rows, pretty_field, pretty_text,
    row_text, table_rows, table_text, timestamp_members, with_field,
};
use crate::local::percentile::{
    is_default, percentile_position, total_weight, Percentile, WeightedObservation,
};
use crate::local::tree::{
    compact_text, indented_text, sorted_members, sorted_tree, sorting_keeps_members, JsonModel,
    JsonTree, NumberModel,
};
use crate::nested::captured;
use crate::text::{concat, decimal, joined};
use crate::unit::{unit_name, Unit};
use crate::validate::error_text;
use crate::value::{pairs, MetricModel, ObservationModel, ValueModel};

verus! {

// ---------------------------------------------------------------------------
// What is collected
// ---------------------------------------------------------------------------

/// The number of observations is the sum of how often each of them counts.
pub proof fn weights_add_up(a: Seq<WeightedObservation>, b: Seq<WeightedObservation>)
    ensures
        total_weight(a + b) == total_weight(a) + total_weight(b),
        a.len() == 0 ==> total_weight(a) == 0,
        a.len() == 1 ==> total_weight(a) == a[0].weight,
    decreases b.len(),
{
    reveal_with_fuel(total_weight, 2);
    if b.len() == 0 {
        assert(a + b =~= a);
    } else {
        weights_add_up(a, b.drop_last());
        assert((a + b).drop_last() =~= a + b.drop_last());
    }
}

/// The percentiles that are shown unless others are chosen: the least observation, the median, two
/// percentiles near the end, and the greatest observation.
pub proof fn default_percentiles_are(list: Seq<Percentile>)
    requires
        is_default(list),
    ensures
        list.len() == 5,
        list[0].label@ == "min"@ && list[0].fraction == 0,
        list[1].label@ == "p50"@ && list[1].fraction == 0x3fe0_0000_0000_0000,
        list[2].label@ == "p99"@ && list[2].fraction == 0x3fef_ae14_7ae1_47ae,
        list[3].label@ == "p99.9"@ && list[3].fraction == 0x3fef_f7ce_d916_872b,
        list[4].label@ == "max"@ && list[4].fraction == 0x3ff0_0000_0000_0000,
{
}

/// Whether an observation occurred at all.
pub open spec fn occurred(o: ObservationModel) -> bool {
    !(o matches ObservationModel::Repeated { occurrences, .. } && occurrences == 0)
}

/// The value of an observation, by its bits, and how often it counts: repeated observations count by
/// their number, with their mean.
pub open spec fn value_and_weight(o: ObservationModel) -> (u64, u64) {
    match o {
        ObservationModel::Unsigned(v) => (nearest_double(v), 1),
        ObservationModel::Floating(f) => (f.bits, 1),
        ObservationModel::Repeated { occurrences, mean, .. } => (mean.bits, occurrences),
    }
}

/// Whether values and weights are those of the observations at the given positions, in order, and no
/// other observation occurred.
pub open spec fn are_weights_at(
    list: Seq<ObservationModel>,
    at: Seq<int>,
    values: Seq<(u64, u64)>,
) -> bool {
    &&& selects(at, list.len(), |i: int| occurred(list[i]))
    &&& values.len() == at.len()
    &&& forall|k: int| 0 <= k < at.len() ==> #[trigger] values[k] == value_and_weight(list[at[k]])
}

/// Each observation that occurred counts, and as often as it occurred.
pub proof fn observations_count(list: Seq<ObservationModel>) -> (at: Seq<int>)
    ensures
        are_weights_at(list, at, weighted_values(list)),
    decreases list.len(),
{
    if list.len() == 0 {
        selects_none(|i: int| occurred(list[i]));
        Seq::empty()
    } else {
        let init = list.drop_last();
        let n = init.len();
        let before = observations_count(init);
        let f = |i: int| occurred(init[i]);
        let g = |i: int| occurred(list[i]);
        assert forall|i: int| 0 <= i < n implies #[trigger] f(i) == g(i) by {
            assert(init[i] == list[i]);
        }
        selects_more(before, n, f, g);
        let at = if g(n as int) {
            before.push(n as int)
        } else {
            before
        };
        let values = weighted_values(list);
        assert forall|k: int| 0 <= k < at.len() implies #[trigger] values[k] == value_and_weight(
            list[at[k]],
        ) by {
            if k < before.len() {
                assert(values[k] == weighted_values(init)[k]);
                assert(at[k] == before[k]);
                assert(init[before[k]] == list[before[k]]);
            }
        }
        at
    }
}

/// Whether an item is a value that writes anything.
pub open spec fn writes(item: ItemModel) -> bool {
    item matches ItemModel::Value(_, value) && !(value is Nothing)
}

proof fn written_at(items: Seq<ItemModel>) -> (at: Seq<int>)
    ensures
        selects(at, items.len(), |i: int| writes(items[i])),
        written_values(items).len() == at.len(),
        forall|k: int|
            0 <= k < at.len() ==> items[at[k]] == ItemModel::Value(
                (#[trigger] written_values(items)[k]).0,
                written_values(items)[k].1,
            ),
    decreases items.len(),
{
    if items.len() == 0 {
        selects_none(|i: int| writes(items[i]));
        Seq::empty()
    } else {
        let init = items.drop_last();
        let n = init.len();
        let before = written_at(init);
        let f = |i: int| writes(init[i]);
        let g = |i: int| writes(items[i]);
        assert forall|i: int| 0 <= i < n implies #[trigger] f(i) == g(i) by {
            assert(init[i] == items[i]);
        }
        selects_more(before, n, f, g);
        let at = if g(n as int) {
            before.push(n as int)
        } else {
            before
        };
        let values = written_values(items);
        assert forall|k: int| 0 <= k < at.len() implies items[at[k]] == ItemModel::Value(
            (#[trigger] written_values(items)[k]).0,
            written_values(items)[k].1,
        ) by {
            if k < before.len() {
                assert(values[k] == written_values(init)[k]);
                assert(at[k] == before[k]);
                assert(init[before[k]] == items[before[k]]);
            }
        }
        at
    }
}

/// The time of an entry is that of its last timestamp.
pub proof fn last_timestamps_count(items: Seq<ItemModel>)
    ensures
        last_timestamp(items) matches Some(t) ==> exists|i: int|
            0 <= i < items.len() && #[trigger] items[i] == ItemModel::Timestamp(t) && forall|j: int|
                i < j < items.len() ==> !(#[trigger] items[j] is Timestamp),
        last_timestamp(items) is None ==> forall|i: int|
            0 <= i < items.len() ==> !(#[trigger] items[i] is Timestamp),
    decreases items.len(),
{
    if items.len() > 0 {
        let init = items.drop_last();
        let n = init.len() as int;
        last_timestamps_count(init);
        assert(items[n] == items.last());
        if !(items[n] is Timestamp) {
            if let Some(t) = last_timestamp(items) {
                let i = choose|i: int|
                    0 <= i < init.len() && #[trigger] init[i] == ItemModel::Timestamp(t) && forall|
                        j: int,
                    |
                        i < j < init.len() ==> !(#[trigger] init[j] is Timestamp);
                assert(items[i] == ItemModel::Timestamp(t));
                assert forall|j: int| i < j < items.len() implies !(#[trigger] items[j] is Timestamp) by {
                    if j < n {
                        assert(init[j] == items[j]);
                    }
                }
            } else {
                assert forall|i: int| 0 <= i < items.len() implies !(
                #[trigger] items[i] is Timestamp) by {
                    if i < n {
                        assert(init[i] == items[i]);
                    }
                }
            }
        }
    }
}

/// Whether a metric is shown from its observations that occurred, each with its value and its weight
/// and as it is shown in the unit of the metric; from how much weight each percentile has to reach,
/// which is none for the least observation and all of it for the greatest; and from its unit and
/// its dimensions.
pub open spec fn is_shown_from<
    P: Fn(u64, Unit) -> String,
    R: Fn(u64, u64) -> u64,
    S: Fn(i128) -> u64,
    N: Fn(u64) -> Option<serde_json::Number>,
    T: Fn(i128) -> String,
>(
    ops: LocalOps<P, R, S, N, T>,
    percentiles: Seq<Percentile>,
    m: MetricModel,
    at: Seq<int>,
    data: MetricField,
) -> bool {
    let count = total_weight(data.observations@);
    &&& selects(at, m.distribution.len(), |i: int| occurred(m.distribution[i]))
    &&& data.observations@.len() == at.len()
    &&& forall|k: int|
        0 <= k < at.len() ==> {
            let o = #[trigger] data.observations@[k];
            &&& (o.value, o.weight) == value_and_weight(m.distribution[at[k]])
            &&& call_ensures(ops.pretty, (o.value, m.unit), o.text)
            &&& ops.is_json(o.value, o.json)
        }
    &&& data.targets@.len() == percentiles.len()
    &&& forall|k: int|
        0 <= k < percentiles.len() ==> {
            let f = (#[trigger] percentiles[k]).fraction;
            &&& f == 0 || 0x8000_0000_0000_0000 <= f <= 0xfff0_0000_0000_0000 ==> data.targets@[k]
                == 0
            &&& 0x3ff0_0000_0000_0000 <= f <= 0x7ff0_0000_0000_0000 ==> data.targets@[k] == count
            &&& 0 < f < 0x3ff0_0000_0000_0000 ==> call_ensures(
                ops.rank,
                (count as u64, f),
                data.targets@[k],
            )
        }
    &&& call_ensures(ops.pretty, (0u64, m.unit), data.zero_text)
    &&& data.unit == m.unit
    &&& pairs(data.dimensions@) == m.dimensions
    &&& data.is_distribution <==> m.flags == MetricFlags::Distribution
}

/// Whether a field is what an item is shown from: under its name, a string as it is, a list or an
/// object as a string, an error by its message, and a metric by its observations.
pub open spec fn is_field_of<
    P: Fn(u64, Unit) -> String,
    R: Fn(u64, u64) -> u64,
    S: Fn(i128) -> u64,
    N: Fn(u64) -> Option<serde_json::Number>,
    T: Fn(i128) -> String,
>(
    ops: LocalOps<P, R, S, N, T>,
    percentiles: Seq<Percentile>,
    item: ItemModel,
    field: Field,
) -> bool {
    item matches ItemModel::Value(name, value) && field.name@ == name && match value {
        ValueModel::Nothing => false,
        ValueModel::Text(s) => field.data matches FieldData::Text(t) && t@ == s,
        ValueModel::List(_) | ValueModel::Object(_) => field.data matches FieldData::Text(t) && t@
            == captured(value),
        ValueModel::Error(e) => field.data matches FieldData::Text(t) && t@ == "ERROR: "@
            + error_text(e),
        ValueModel::Metric(m) => field.data matches FieldData::Metric(data) && exists|at: Seq<int>|
            #[trigger] is_shown_from(ops, percentiles, m, at, data),
    }
}

proof fn metric_is_shown<
    P: Fn(u64, Unit) -> String,
    R: Fn(u64, u64) -> u64,
    S: Fn(i128) -> u64,
    N: Fn(u64) -> Option<serde_json::Number>,
    T: Fn(i128) -> String,
>(
    ops: LocalOps<P, R, S, N, T>,
    percentiles: Seq<Percentile>,
    m: MetricModel,
    data: MetricField,
) -> (at: Seq<int>)
    requires
        ops.is_metric(percentiles, m, data),
        total_weight(data.observations@) <= u64::MAX,
    ensures
        is_shown_from(ops, percentiles, m, at, data),
{
    let at = observations_count(m.distribution);
    let values = weighted_values(m.distribution);
    assert forall|k: int| 0 <= k < at.len() implies {
        let o = #[trigger] data.observations@[k];
        &&& (o.value, o.weight) == value_and_weight(m.distribution[at[k]])
        &&& call_ensures(ops.pretty, (o.value, m.unit), o.text)
        &&& ops.is_json(o.value, o.json)
    } by {
        assert(ops.is_observation(data.observations@[k], values[k], m.unit));
    }
    at
}

/// An entry is shown from its values, all that write anything, in order, and from its last timestamp.
pub proof fn entries_are_collected<
    P: Fn(u64, Unit) -> String,
    R: Fn(u64, u64) -> u64,
    S: Fn(i128) -> u64,
    N: Fn(u64) -> Option<serde_json::Number>,
    T: Fn(i128) -> String,
>(
    ops: LocalOps<P, R, S, N, T>,
    percentiles: Seq<Percentile>,
    items: Seq<ItemModel>,
    c: Collector,
) -> (at: Seq<int>)
    requires
        ops.is_collected(percentiles, items, c),
    ensures
        selects(at, items.len(), |i: int| writes(items[i])),
        c.fields@.len() == at.len(),
        forall|k: int|
            0 <= k < at.len() ==> is_field_of(
                ops,
                percentiles,
                items[at[k]],
                #[trigger] c.fields@[k],
            ),
        c.timestamp matches Some(t) ==> {
            &&& iso_text(t.nanos) matches Some(iso) ==> t.text@ == iso
            &&& iso_text(t.nanos) is None ==> call_ensures(ops.time, (t.nanos,), t.text)
            &&& t.nanos >= 0 ==> exists|bits: u64| #[trigger]
                call_ensures(ops.seconds, (t.nanos,), bits) && ops.is_json(bits, t.seconds)
        },
        c.timestamp matches Some(t) ==> exists|i: int|
            0 <= i < items.len() && #[trigger] items[i] == ItemModel::Timestamp(t.nanos) && forall|
                j: int,
            |
                i < j < items.len() ==> !(#[trigger] items[j] is Timestamp),
        c.timestamp is None ==> forall|i: int|
            0 <= i < items.len() ==> !(#[trigger] items[i] is Timestamp),
{
    let at = written_at(items);
    last_timestamps_count(items);
    assert forall|k: int| 0 <= k < at.len() implies is_field_of(
        ops,
        percentiles,
        items[at[k]],
        #[trigger] c.fields@[k],
    ) by {
        let (name, value) = written_values(items)[k];
        assert(ops.is_field(percentiles, name, value, c.fields@[k]));
        assert(c.fields@[k].wf(percentiles.len()));
        assert(items[at[k]] == ItemModel::Value(name, value));
        if let ValueModel::Metric(m) = value {
            if let FieldData::Metric(data) = c.fields@[k].data {
                let shown_at = metric_is_shown(ops, percentiles, m, data);
                assert(is_shown_from(ops, percentiles, m, shown_at, data));
            }
        }
    }
    at
}

// ---------------------------------------------------------------------------
// Text
// ---------------------------------------------------------------------------

/// Whether a metric is shown by percentiles: if it is a distribution, or there is more than one
/// observation of it.
pub open spec fn is_histogram(m: MetricField) -> bool {
    m.is_distribution || total_weight(m.observations@) > 1
}

/// The text of a metric that is not shown by percentiles: that of its observation, or of zero in its
/// unit if it has none.
pub open spec fn text_of(m: MetricField) -> Seq<char> {
    if m.observations@.len() == 0 {
        m.zero_text@
    } else {
        m.observations@[0].text@
    }
}

/// The text of the observation that a percentile falls on.
pub open spec fn text_at(m: MetricField, k: int) -> Seq<char> {
    m.observations@[percentile_position(m.observations@, m.targets@[k]) as int].text@
}

/// How many percentiles are shown: all of them, unless there are no observations.
pub open spec fn how_many(m: MetricField, percentiles: Seq<Percentile>) -> nat {
    if m.observations@.len() == 0 {
        0
    } else {
        percentiles.len()
    }
}

/// The dimensions of a metric in one line.
pub open spec fn dimensions_in_brackets(dimensions: Seq<(Seq<char>, Seq<char>)>) -> Seq<char> {
    "["@ + joined(
        dimensions.map_values(|d: (Seq<char>, Seq<char>)| d.0 + "="@ + d.1),
        ", "@,
    ) + "]"@
}

/// The lines for a field, where `rows` are those for the percentiles.
pub open spec fn lines_of(field: Field, rows: Seq<Seq<char>>) -> Seq<char> {
    match field.data {
        FieldData::Text(s) => "  "@ + field.name@ + ": "@ + s@ + "\n"@,
        FieldData::Metric(m) => if m.dimensions@.len() == 0 {
            if is_histogram(m) {
                "  "@ + field.name@ + " ("@ + decimal(total_weight(m.observations@))
                    + " samples):\n"@ + concat(rows)
            } else {
                "  "@ + field.name@ + ": "@ + text_of(m) + "\n"@
            }
        } else {
            "  "@ + field.name@ + " "@ + dimensions_in_brackets(pairs(m.dimensions@)) + ":\n"@ + (
            if is_histogram(m) {
                "    ("@ + decimal(total_weight(m.observations@)) + " samples):\n"@ + concat(rows)
            } else {
                "    "@ + text_of(m) + "\n"@
            })
        },
    }
}

/// Whether there is a row for each percentile that is shown: its label, and the observation that it
/// falls on.
pub open spec fn are_rows_of(field: Field, percentiles: Seq<Percentile>, rows: Seq<Seq<char>>) -> bool {
    field.data matches FieldData::Metric(m) ==> {
        &&& rows.len() == how_many(m, percentiles)
        &&& forall|k: int|
            0 <= k < rows.len() ==> #[trigger] rows[k] == "    "@ + percentiles[k].label@ + ": "@
                + text_at(m, k) + "\n"@
    }
}

proof fn rows_of_percentiles(m: MetricField, percentiles: Seq<Percentile>, n: nat) -> (rows: Seq<
    Seq<char>,
>)
    ensures
        rows.len() == n,
        forall|k: int|
            0 <= k < n ==> #[trigger] rows[k] == "    "@ + percentiles[k].label@ + ": "@ + text_at(
                m,
                k,
            ) + "\n"@,
        percentile_lines(m, percentiles, n) == concat(rows),
    decreases n,
{
    if n == 0 {
        Seq::empty()
    } else {
        let before = rows_of_percentiles(m, percentiles, (n - 1) as nat);
        let row = "    "@ + percentiles[n - 1].label@ + ": "@ + text_at(m, n - 1) + "\n"@;
        let rows = before.push(row);
        assert(rows.drop_last() =~= before);
        rows
    }
}

/// A field in text: its name, and a string as it is, or the one observation of a metric in its unit,
/// or how many observations there are of a metric and the observation that each percentile falls on.
/// The dimensions of a metric come before.
pub proof fn fields_as_text(field: Field, percentiles: Seq<Percentile>) -> (rows: Seq<Seq<char>>)
    ensures
        are_rows_of(field, percentiles, rows),
        pretty_field(field, percentiles) == lines_of(field, rows),
{
    match field.data {
        FieldData::Metric(m) => {
            let rows = rows_of_percentiles(m, percentiles, how_many(m, percentiles));
            let text = pretty_field(field, percentiles);
            reveal_strlit(" [");
            reveal_strlit(" ");
            reveal_strlit("[");
            reveal_strlit("]:\n");
            reveal_strlit("]");
            reveal_strlit(":\n");
            reveal_strlit("   ");
            reveal_strlit(" (");
            reveal_strlit("    (");
            assert(" ["@ =~= " "@ + "["@);
            assert("]:\n"@ =~= "]"@ + ":\n"@);
            assert("    ("@ =~= "   "@ + " ("@);
            assert(text =~= lines_of(field, rows));
            rows
        },
        FieldData::Text(_) => Seq::empty(),
    }
}

/// An entry in text: a line of dashes, its time if it has one, and its fields, in order.
pub proof fn entries_as_text(c: Collector, percentiles: Seq<Percentile>)
    ensures
        pretty_text(c, percentiles) == "---\n"@ + (match c.timestamp {
            Some(t) => "  timestamp: "@ + t.text@ + "\n"@,
            None => Seq::empty(),
        }) + concat(c.fields@.map_values(|f: Field| pretty_field(f, percentiles))),
{
}

// ---------------------------------------------------------------------------
// Tables
// ---------------------------------------------------------------------------

/// The rows for a field: the dimensions of a metric; a string, or the one observation of a metric;
/// or the observation that each percentile falls on and how many observations there are.
pub open spec fn are_field_rows(
    field: Field,
    percentiles: Seq<Percentile>,
    rows: Seq<(Seq<char>, Seq<char>)>,
) -> bool {
    let name = field.name@;
    match field.data {
        FieldData::Text(s) => rows == seq![(name, s@)],
        FieldData::Metric(m) => {
            let d = m.dimensions@.len() as int;
            &&& forall|k: int|
                0 <= k < d ==> #[trigger] rows[k] == (
                    name + "."@ + m.dimensions@[k].0@,
                    m.dimensions@[k].1@,
                )
            &&& is_histogram(m) ==> {
                let n = how_many(m, percentiles);
                &&& rows.len() == d + n + 1
                &&& forall|k: int|
                    d <= k < d + n ==> #[trigger] rows[k] == (
                        name + "."@ + percentiles[k - d].label@,
                        text_at(m, k - d),
                    )
                &&& rows.last() == (name + ".count"@, decimal(total_weight(m.observations@)))
            }
            &&& !is_histogram(m) ==> rows.len() == d + 1 && rows.last() == (name, text_of(m))
        },
    }
}

proof fn rows_in_tables(
    name: Seq<char>,
    m: MetricField,
    percentiles: Seq<Percentile>,
    n: nat,
)
    ensures
        percentile_rows(name, m, percentiles, n).len() == n,
        forall|k: int|
            0 <= k < n ==> #[trigger] percentile_rows(name, m, percentiles, n)[k] == (
                name + "."@ + percentiles[k].label@,
                text_at(m, k),
            ),
    decreases n,
{
    if n > 0 {
        rows_in_tables(name, m, percentiles, (n - 1) as nat);
        let before = percentile_rows(name, m, percentiles, (n - 1) as nat);
        let rows = percentile_rows(name, m, percentiles, n);
        assert forall|k: int| 0 <= k < n implies #[trigger] rows[k] == (
            name + "."@ + percentiles[k].label@,
            text_at(m, k),
        ) by {
            if k < n - 1 {
                assert(rows[k] == before[k]);
            }
        }
    }
}

/// The rows for a field in a table.
pub proof fn fields_in_tables(field: Field, percentiles: Seq<Percentile>)
    ensures
        are_field_rows(field, percentiles, field_rows(field, percentiles)),
{
    let rows = field_rows(field, percentiles);
    if let FieldData::Metric(m) = field.data {
        let name = field.name@;
        let d = m.dimensions@.len() as int;
        let n = how_many(m, percentiles);
        rows_in_tables(name, m, percentiles, n);
        assert forall|k: int| 0 <= k < d implies #[trigger] rows[k] == (
            name + "."@ + m.dimensions@[k].0@,
            m.dimensions@[k].1@,
        ) by {
            assert(pairs(m.dimensions@)[k] == (m.dimensions@[k].0@, m.dimensions@[k].1@));
        }
        if is_histogram(m) {
            assert forall|k: int| d <= k < d + n implies #[trigger] rows[k] == (
                name + "."@ + percentiles[k - d].label@,
                text_at(m, k - d),
            ) by {
                assert(rows[k] == percentile_rows(name, m, percentiles, n)[k - d]);
            }
        }
    }
}

/// The rows of a table: one for the time if there is one, and those for each field, in order.
pub proof fn tables_have_all_rows(c: Collector, percentiles: Seq<Percentile>, n: nat)
    ensures
        table_rows(c, percentiles, 0) == match c.timestamp {
            Some(t) => seq![("timestamp"@, t.text@)],
            None => Seq::empty(),
        },
        table_rows(c, percentiles, n + 1) == table_rows(c, percentiles, n) + field_rows(
            c.fields@[n as int],
            percentiles,
        ),
{
}

/// Whether a text is a row of a table: a name and a value, each filled up at its end.
pub open spec fn is_row(
    name: Seq<char>,
    value: Seq<char>,
    a: nat,
    b: nat,
    fill: char,
    text: Seq<char>,
) -> bool {
    text == "| "@ + name + Seq::new(a, |i: int| fill) + " | "@ + value + Seq::new(b, |i: int| fill)
        + " |\n"@
}

/// Whether a text is a row of a table.
pub open spec fn shows_row(row: (Seq<char>, Seq<char>), text: Seq<char>) -> bool {
    exists|a: nat, b: nat| #[trigger] is_row(row.0, row.1, a, b, ' ', text)
}

proof fn row_is_shown(row: (Seq<char>, Seq<char>), a: nat, b: nat, text: Seq<char>)
    requires
        is_row(row.0, row.1, a, b, ' ', text),
    ensures
        shows_row(row, text),
{
}

proof fn rows_are_filled(
    name: Seq<char>,
    value: Seq<char>,
    name_width: usize,
    value_width: usize,
    fill: char,
) -> (fills: (nat, nat))
    ensures
        is_row(
            name,
            value,
            fills.0,
            fills.1,
            fill,
            row_text(name, value, name_width, value_width, fill),
        ),
        fills.0 + name.len() == if name.len() < name_width {
            name_width as nat
        } else {
            name.len()
        },
        fills.1 + value.len() == if value.len() < value_width {
            value_width as nat
        } else {
            value.len()
        },
{
    let a: nat = if name.len() < name_width {
        (name_width - name.len()) as nat
    } else {
        0
    };
    let b: nat = if value.len() < value_width {
        (value_width - value.len()) as nat
    } else {
        0
    };
    assert(row_text(name, value, name_width, value_width, fill) =~= "| "@ + name + Seq::new(
        a,
        |i: int| fill,
    ) + " | "@ + value + Seq::new(b, |i: int| fill) + " |\n"@);
    (a, b)
}

/// A table is a heading, a line of dashes, and its rows in order, each with its name and its value.
pub proof fn tables_show_all_rows(rows: Seq<(Seq<char>, Seq<char>)>) -> (lines: Seq<Seq<char>>)
    ensures
        table_text(rows) == concat(lines),
        lines.len() == rows.len() + 2,
        shows_row(("Name"@, "Value"@), lines[0]),
        exists|a: nat, b: nat| #[trigger] is_row(""@, ""@, a, b, '-', lines[1]) && a >= 4 && b >= 5,
        forall|k: int| 0 <= k < rows.len() ==> shows_row(#[trigger] rows[k], lines[k + 2]),
{
    let name_width = crate::local::output::column_width(crate::local::output::name_column(rows), 4);
    let value_width = crate::local::output::column_width(
        crate::local::output::value_column(rows),
        5,
    );
    widths_are_at_least(crate::local::output::name_column(rows), 4);
    widths_are_at_least(crate::local::output::value_column(rows), 5);
    let head = row_text("Name"@, "Value"@, name_width, value_width, ' ');
    let rule = row_text(""@, ""@, name_width, value_width, '-');
    let texts = rows.map_values(
        |r: (Seq<char>, Seq<char>)| row_text(r.0, r.1, name_width, value_width, ' '),
    );
    let lines = seq![head, rule] + texts;
    concat_adds(seq![head, rule], texts);
    reveal_with_fuel(concat, 3);
    assert(seq![head, rule].drop_last() =~= seq![head]);
    assert(concat(seq![head, rule]) =~= head + rule);
    let (a, b) = rows_are_filled("Name"@, "Value"@, name_width, value_width, ' ');
    row_is_shown(("Name"@, "Value"@), a, b, lines[0]);
    reveal_strlit("");
    let (a, b) = rows_are_filled(""@, ""@, name_width, value_width, '-');
    assert(is_row(""@, ""@, a, b, '-', lines[1]));
    assert forall|k: int| 0 <= k < rows.len() implies shows_row(
        #[trigger] rows[k],
        lines[k + 2],
    ) by {
        let (a, b) = rows_are_filled(rows[k].0, rows[k].1, name_width, value_width, ' ');
        assert(lines[k + 2] == texts[k]);
        row_is_shown(rows[k], a, b, lines[k + 2]);
    }
    lines
}

proof fn widths_are_at_least(column: Seq<Seq<char>>, least: usize)
    ensures
        crate::local::output::column_width(column, least) >= least,
    decreases column.len(),
{
    if column.len() > 0 {
        widths_are_at_least(column.drop_last(), least);
    }
}

proof fn concat_adds(a: Seq<Seq<char>>, b: Seq<Seq<char>>)
    ensures
        concat(a + b) == concat(a) + concat(b),
    decreases b.len(),
{
    if b.len() == 0 {
        assert(a + b =~= a);
        assert(concat(a) + concat(b) =~= concat(a));
    } else {
        concat_adds(a, b.drop_last());
        assert((a + b).drop_last() =~= a + b.drop_last());
        assert(concat(a + b) =~= concat(a) + concat(b));
    }
}

// ---------------------------------------------------------------------------
// JSON
// ---------------------------------------------------------------------------

/// What stands under a name.
pub open spec fn found(members: Seq<(Seq<char>, JsonModel)>, name: Seq<char>) -> Option<JsonModel> {
    if has_member(members, name) {
        Some(members[member_position(members, name)].1)
    } else {
        None
    }
}

proof fn found_after_put(
    members: Seq<(Seq<char>, JsonModel)>,
    name: Seq<char>,
    value: JsonModel,
    other: Seq<char>,
)
    requires
        names_differ(members),
    ensures
        names_differ(put(members, name, value)),
        found(put(members, name, value), other) == if other == name {
            Some(value)
        } else {
            found(members, other)
        },
{
    put_is_found(members, name, value, other);
}

/// What a metric is shown by in JSON: its observation, zero if there is none, or an object.
pub open spec fn value_of(m: MetricField, percentiles: Seq<Percentile>) -> JsonModel {
    if is_histogram(m) {
        JsonModel::Object(histogram_members(m, percentiles, how_many(m, percentiles)))
    } else if m.observations@.len() == 0 {
        JsonModel::Number(NumberModel::Integer(0))
    } else {
        m.observations@[0].json@
    }
}

/// What a field puts under a name, if anything: its value under its own name, and for a metric its
/// unit and its dimensions, where it has any, under names that start with its own.
pub open spec fn put_by(field: Field, percentiles: Seq<Percentile>, key: Seq<char>) -> Option<
    JsonModel,
> {
    let name = field.name@;
    match field.data {
        FieldData::Text(s) => if key == name {
            Some(JsonModel::Text(s@))
        } else {
            None
        },
        FieldData::Metric(m) => if key == name {
            Some(value_of(m, percentiles))
        } else if key == name + "_unit"@ && !(m.unit is NoUnit) {
            Some(JsonModel::Text(unit_name(m.unit)))
        } else if key == name + "_dimensions"@ && m.dimensions@.len() > 0 {
            Some(JsonModel::Object(dimension_members(pairs(m.dimensions@), m.dimensions@.len())))
        } else {
            None
        },
    }
}

/// What the time puts under a name, if anything: the seconds since the epoch and the time as text,
/// unless it is before the epoch.
pub open spec fn put_by_time(c: Collector, key: Seq<char>) -> Option<JsonModel> {
    match c.timestamp {
        Some(t) => if t.nanos < 0 {
            None
        } else if key == "timestamp"@ {
            Some(t.seconds@)
        } else if key == "timestamp_iso"@ {
            Some(JsonModel::Text(t.text@))
        } else {
            None
        },
        None => None,
    }
}

proof fn field_in_json(
    members: Seq<(Seq<char>, JsonModel)>,
    field: Field,
    percentiles: Seq<Percentile>,
    key: Seq<char>,
)
    requires
        names_differ(members),
    ensures
        names_differ(with_field(members, field, percentiles)),
        found(with_field(members, field, percentiles), key) == match put_by(
            field,
            percentiles,
            key,
        ) {
            Some(value) => Some(value),
            None => found(members, key),
        },
{
    let name = field.name@;
    reveal_strlit("_unit");
    reveal_strlit("_dimensions");
    assert((name + "_unit"@).len() == name.len() + 5);
    assert((name + "_dimensions"@).len() == name.len() + 11);
    match field.data {
        FieldData::Text(s) => {
            found_after_put(members, name, JsonModel::Text(s@), key);
        },
        FieldData::Metric(m) => {
            let value = metric_json(m, percentiles);
            assert(value == value_of(m, percentiles));
            found_after_put(members, name, value, key);
            let valued = put(members, name, value);
            let united = if m.unit == Unit::NoUnit {
                valued
            } else {
                found_after_put(
                    valued,
                    name + "_unit"@,
                    JsonModel::Text(unit_name(m.unit)),
                    key,
                );
                put(valued, name + "_unit"@, JsonModel::Text(unit_name(m.unit)))
            };
            if m.dimensions@.len() > 0 {
                found_after_put(
                    united,
                    name + "_dimensions"@,
                    JsonModel::Object(
                        dimension_members(pairs(m.dimensions@), m.dimensions@.len()),
                    ),
                    key,
                );
            }
        },
    }
}

proof fn time_in_json(c: Collector, key: Seq<char>)
    ensures
        names_differ(timestamp_members(c)),
        found(timestamp_members(c), key) == put_by_time(c, key),
{
    let none = Seq::<(Seq<char>, JsonModel)>::empty();
    reveal_strlit("timestamp");
    reveal_strlit("timestamp_iso");
    assert("timestamp"@.len() != "timestamp_iso"@.len());
    if let Some(t) = c.timestamp {
        if t.nanos >= 0 {
            found_after_put(none, "timestamp"@, t.seconds@, key);
            found_after_put(
                put(none, "timestamp"@, t.seconds@),
                "timestamp_iso"@,
                JsonModel::Text(t.text@),
                key,
            );
        }
    }
}

proof fn fields_in_json(c: Collector, percentiles: Seq<Percentile>, n: nat, key: Seq<char>)
    requires
        n <= c.fields@.len(),
    ensures
        names_differ(entry_members(c, percentiles, n)),
        (forall|j: int| 0 <= j < n ==> put_by(#[trigger] c.fields@[j], percentiles, key) is None)
            ==> found(entry_members(c, percentiles, n), key) == put_by_time(c, key),
        forall|i: int|
            0 <= i < n && put_by(#[trigger] c.fields@[i], percentiles, key) is Some && (forall|j: int|
                i < j < n ==> put_by(#[trigger] c.fields@[j], percentiles, key) is None) ==> found(
                entry_members(c, percentiles, n),
                key,
            ) == put_by(c.fields@[i], percentiles, key),
    decreases n,
{
    if n == 0 {
        time_in_json(c, key);
    } else {
        let m = (n - 1) as nat;
        fields_in_json(c, percentiles, m, key);
        field_in_json(entry_members(c, percentiles, m), c.fields@[n - 1], percentiles, key);
        assert forall|i: int|
            0 <= i < n && put_by(#[trigger] c.fields@[i], percentiles, key) is Some && (forall|j: int|
                i < j < n ==> put_by(#[trigger] c.fields@[j], percentiles, key) is None) implies found(
            entry_members(c, percentiles, n),
            key,
        ) == put_by(c.fields@[i], percentiles, key) by {
            if i < m {
                assert(put_by(c.fields@[n - 1], percentiles, key) is None);
                assert forall|j: int| i < j < m implies put_by(
                    #[trigger] c.fields@[j],
                    percentiles,
                    key,
                ) is None by {}
            }
        }
        if forall|j: int| 0 <= j < n ==> put_by(#[trigger] c.fields@[j], percentiles, key) is None {
            assert(put_by(c.fields@[n - 1], percentiles, key) is None);
        }
    }
}

/// The object for an entry holds what each field puts under a name, unless a later field puts
/// something there: its value, its unit and its dimensions. Members of objects are ordered by name.
pub proof fn fields_stand_in_json(
    c: Collector,
    percentiles: Seq<Percentile>,
    i: int,
    key: Seq<char>,
    value: JsonModel,
)
    requires
        0 <= i < c.fields@.len(),
        put_by(c.fields@[i], percentiles, key) == Some(value),
        forall|j: int|
            i < j < c.fields@.len() ==> put_by(#[trigger] c.fields@[j], percentiles, key) is None,
    ensures
        entry_json(c, percentiles) matches JsonModel::Object(members) && members.contains(
            (key, sorted_tree(value)),
        ),
{
    let n = c.fields@.len();
    fields_in_json(c, percentiles, n, key);
    let members = entry_members(c, percentiles, n);
    assert(found(members, key) == Some(value));
    found_stands_sorted(members, key, value);
}

/// The object for an entry holds the time, unless a field of that name does.
pub proof fn times_stand_in_json(
    c: Collector,
    percentiles: Seq<Percentile>,
    key: Seq<char>,
    value: JsonModel,
)
    requires
        put_by_time(c, key) == Some(value),
        forall|j: int|
            0 <= j < c.fields@.len() ==> put_by(#[trigger] c.fields@[j], percentiles, key) is None,
    ensures
        entry_json(c, percentiles) matches JsonModel::Object(members) && members.contains(
            (key, sorted_tree(value)),
        ),
{
    let n = c.fields@.len();
    fields_in_json(c, percentiles, n, key);
    found_stands_sorted(entry_members(c, percentiles, n), key, value);
}

/// Nothing else stands in the object for an entry.
pub proof fn nothing_else_stands_in_json(
    c: Collector,
    percentiles: Seq<Percentile>,
    key: Seq<char>,
)
    requires
        put_by_time(c, key) is None,
        forall|j: int|
            0 <= j < c.fields@.len() ==> put_by(#[trigger] c.fields@[j], percentiles, key) is None,
    ensures
        entry_json(c, percentiles) matches JsonModel::Object(members) && !has_member(members, key),
{
    broadcast use vstd::seq_lib::group_to_multiset_ensures;

    let n = c.fields@.len();
    fields_in_json(c, percentiles, n, key);
    let members = entry_members(c, percentiles, n);
    let f = |m: (Seq<char>, JsonModel)| (m.0, sorted_tree(m.1));
    let sorted = sorted_members(members);
    sorting_keeps_members(members);
    assert(!has_member(members, key));
    if has_member(sorted, key) {
        let k = choose|k: int| 0 <= k < sorted.len() && (#[trigger] sorted[k]).0 == key;
        assert(sorted.contains(sorted[k]));
        assert(sorted.to_multiset().count(sorted[k]) > 0);
        assert(members.map_values(f).to_multiset().count(sorted[k]) > 0);
        assert(members.map_values(f).contains(sorted[k]));
        let j = choose|j: int| 0 <= j < members.len() && members.map_values(f)[j] == sorted[k];
        assert(members[j].0 == key);
    }
}

proof fn found_stands_sorted(
    members: Seq<(Seq<char>, JsonModel)>,
    key: Seq<char>,
    value: JsonModel,
)
    requires
        found(members, key) == Some(value),
    ensures
        sorted_members(members).contains((key, sorted_tree(value))),
{
    broadcast use vstd::seq_lib::group_to_multiset_ensures;

    let f = |m: (Seq<char>, JsonModel)| (m.0, sorted_tree(m.1));
    member_position_is_first(members, key);
    let k = member_position(members, key);
    sorting_keeps_members(members);
    let mapped = members.map_values(f);
    assert(mapped[k] == (key, sorted_tree(value)));
    assert(mapped.contains((key, sorted_tree(value))));
    assert(mapped.to_multiset().count((key, sorted_tree(value))) > 0);
    assert(sorted_members(members).to_multiset().count((key, sorted_tree(value))) > 0);
}

/// The object for a metric that is shown by percentiles holds, under the label of each, the
/// observation that it falls on, unless a later one has the same label; and under `count`, unless
/// that is a label, how many observations there are.
pub proof fn percentiles_stand_in_json(
    m: MetricField,
    percentiles: Seq<Percentile>,
    n: nat,
    key: Seq<char>,
)
    ensures
        names_differ(histogram_members(m, percentiles, n)),
        forall|k: int|
            0 <= k < n && (#[trigger] percentiles[k]).label@ == key && (forall|j: int|
                k < j < n ==> (#[trigger] percentiles[j]).label@ != key) ==> found(
                histogram_members(m, percentiles, n),
                key,
            ) == Some(
                m.observations@[percentile_position(
                    m.observations@,
                    m.targets@[k],
                ) as int].json@,
            ),
        (forall|k: int| 0 <= k < n ==> (#[trigger] percentiles[k]).label@ != key) ==> found(
            histogram_members(m, percentiles, n),
            key,
        ) == if key == "count"@ {
            Some(JsonModel::Number(NumberModel::Integer(total_weight(m.observations@) as int)))
        } else {
            None
        },
    decreases n,
{
    let none = Seq::<(Seq<char>, JsonModel)>::empty();
    if n == 0 {
        found_after_put(
            none,
            "count"@,
            JsonModel::Number(NumberModel::Integer(total_weight(m.observations@) as int)),
            key,
        );
    } else {
        let before = (n - 1) as nat;
        percentiles_stand_in_json(m, percentiles, before, key);
        found_after_put(
            histogram_members(m, percentiles, before),
            percentiles[n - 1].label@,
            m.observations@[crate::local::output::percentile_at(m, n - 1)].json@,
            key,
        );
        if forall|k: int| 0 <= k < n ==> (#[trigger] percentiles[k]).label@ != key {
            assert(percentiles[n - 1].label@ != key);
        }
        assert forall|k: int|
            0 <= k < n && (#[trigger] percentiles[k]).label@ == key && (forall|j: int|
                k < j < n ==> (#[trigger] percentiles[j]).label@ != key) implies found(
            histogram_members(m, percentiles, n),
            key,
        ) == Some(
            m.observations@[percentile_position(m.observations@, m.targets@[k]) as int].json@,
        ) by {
            if k < before {
                assert(percentiles[n - 1].label@ != key);
                assert forall|j: int| k < j < before implies (#[trigger] percentiles[j]).label@
                    != key by {}
            }
        }
    }
}

/// The object for the dimensions of a metric holds the instance of each, unless a later one has the
/// same name.
pub proof fn dimensions_stand_in_json(
    dimensions: Seq<(Seq<char>, Seq<char>)>,
    n: nat,
    key: Seq<char>,
)
    ensures
        names_differ(dimension_members(dimensions, n)),
        forall|k: int|
            0 <= k < n && (#[trigger] dimensions[k]).0 == key && (forall|j: int|
                k < j < n ==> (#[trigger] dimensions[j]).0 != key) ==> found(
                dimension_members(dimensions, n),
                key,
            ) == Some(JsonModel::Text(dimensions[k].1)),
        (forall|k: int| 0 <= k < n ==> (#[trigger] dimensions[k]).0 != key) ==> found(
            dimension_members(dimensions, n),
            key,
        ) is None,
    decreases n,
{
    if n > 0 {
        let before = (n - 1) as nat;
        dimensions_stand_in_json(dimensions, before, key);
        found_after_put(
            dimension_members(dimensions, before),
            dimensions[n - 1].0,
            JsonModel::Text(dimensions[n - 1].1),
            key,
        );
        if forall|k: int| 0 <= k < n ==> (#[trigger] dimensions[k]).0 != key {
            assert(dimensions[n - 1].0 != key);
        }
        assert forall|k: int|
            0 <= k < n && (#[trigger] dimensions[k]).0 == key && (forall|j: int|
                k < j < n ==> (#[trigger] dimensions[j]).0 != key) implies found(
            dimension_members(dimensions, n),
            key,
        ) == Some(JsonModel::Text(dimensions[k].1)) by {
            if k < before {
                assert(dimensions[n - 1].0 != key);
                assert forall|j: int| k < j < before implies (#[trigger] dimensions[j]).0 != key by {}
            }
        }
    }
}

// ---------------------------------------------------------------------------
// Styles
// ---------------------------------------------------------------------------

/// A column is as wide as the longest of its texts, in bytes, or as it has to be at least.
pub proof fn columns_are_wide_enough(column: Seq<Seq<char>>, least: usize, k: int)
    requires
        0 <= k < column.len(),
    ensures
        column_width(column, least) >= byte_len(column[k]),
        column_width(column, least) >= least,
        column_width(column, least) == least || exists|j: int|
            0 <= j < column.len() && column_width(column, least) == byte_len(#[trigger] column[j]),
    decreases column.len(),
{
    let init = column.drop_last();
    let n = init.len() as int;
    assert(column[n] == column.last());
    if n > 0 {
        if k < n {
            columns_are_wide_enough(init, least, k);
            assert(init[k] == column[k]);
        } else {
            columns_are_wide_enough(init, least, 0);
        }
        if column_width(init, least) != least {
            let j = choose|j: int|
                0 <= j < init.len() && column_width(init, least) == byte_len(#[trigger] init[j]);
            assert(column[j] == init[j]);
        }
    }
}

/// An entry is shown as text, as an object in one line or with line breaks, or as a table, as the
/// style says.
pub proof fn styles_are_followed(style: OutputStyle, c: Collector, percentiles: Seq<Percentile>)
    ensures
        shown(style, c, percentiles) == match style {
            OutputStyle::Pretty => pretty_text(c, percentiles),
            OutputStyle::Json { compact: true } => compact_text(entry_json(c, percentiles))
                + "\n"@,
            OutputStyle::Json { compact: false } => indented_text(entry_json(c, percentiles))
                + "\n"@,
            OutputStyle::MarkdownTable => table_text(
                table_rows(c, percentiles, c.fields@.len()),
            ),
        },
{
}

/// A number in JSON is an integer where it has no fractional part and is below 2^63, else whatever
/// number it is, and `null` if it is none.
pub proof fn numbers_in_json<
    P: Fn(u64, Unit) -> String,
    R: Fn(u64, u64) -> u64,
    S: Fn(i128) -> u64,
    N: Fn(u64) -> Option<serde_json::Number>,
    T: Fn(i128) -> String,
>(ops: LocalOps<P, R, S, N, T>, bits: u64, tree: JsonTree)
    requires
        ops.is_json(bits, tree),
    ensures
        is_integral(bits) && exponent_field(bits) < 1086 ==> tree == JsonTree::Int(
            truncated(bits),
        ),
        !(is_integral(bits) && exponent_field(bits) < 1086) ==> exists|
            number: Option<serde_json::Number>,
        | #[trigger]
            call_ensures(ops.number, (bits,), number) && (number matches Some(n) ==> tree
                == JsonTree::Number(n)) && (number is None ==> tree is Null),
{
}

} // verus!
