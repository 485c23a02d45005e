//! What the line of an entry in plain JSON holds.

use vstd::prelude::*;
use vstd::string::*;

use crate::entry::{epoch_millis, ItemModel};
use crate::json::{
    accepted_entries, formatted, item_accepted, json_observations, metric_json, with_items,
};
use crate::listing::{selects, selects_more, selects_none, stands_in};
use crate::nested::{elements, json_observation, members, Dialect};
use crate::nested_laws::{is_observation_in_json, observations_are_written};
use crate::text::{decimal, joined, json_quoted_plain};
use crate::unit::{unit_name, Unit};
use crate::validate::ErrorModel;
use crate::value::{MetricModel, ValueModel};

verus! {

/// The point in time that an entry is about: its timestamp, or `now` if it has none.
pub open spec fn is_time_of(items: Seq<ItemModel>, now: i128, time: i128) -> bool {
    ||| exists|i: int| 0 <= i < items.len() && #[trigger] items[i] == ItemModel::Timestamp(time)
    ||| time == now && forall|i: int|
        0 <= i < items.len() ==> !(#[trigger] items[i] is Timestamp)
}

/// Whether that many whole milliseconds have gone by since the epoch; none before it.
pub open spec fn are_millis_of(nanos: i128, millis: nat) -> bool {
    if nanos < 0 {
        millis == 0
    } else {
        millis * 1_000_000 <= nanos < (millis + 1) * 1_000_000
    }
}

/// The whole milliseconds of a point in time.
pub proof fn millis_of(nanos: i128)
    ensures
        are_millis_of(nanos, epoch_millis(nanos) as nat),
{
}

/// Whether an item is a metric that there is something to write of.
pub open spec fn is_metric(item: ItemModel) -> bool {
    item matches ItemModel::Value(_, ValueModel::Metric(m)) && m.distribution.len() > 0
}

/// Whether an item is a string, a list or an object.
pub open spec fn is_property(item: ItemModel) -> bool {
    item matches ItemModel::Value(_, v) && (v is Text || v is List || v is Object)
}

/// Whether a text is the member for a metric: its name, and an object with one value or with all of
/// its values, and with its unit unless it has none.
pub open spec fn is_metric_member(
    name: Seq<char>,
    m: MetricModel,
    values: Seq<Seq<char>>,
    text: Seq<char>,
) -> bool {
    &&& values.len() == m.distribution.len()
    &&& forall|i: int|
        0 <= i < values.len() ==> is_observation_in_json(m.distribution[i], #[trigger] values[i])
    &&& text == json_quoted_plain(name) + ":"@ + (if values.len() == 1 {
        "{\"value\":"@ + values[0]
    } else {
        "{\"values\":["@ + joined(values, seq![',']) + "]"@
    }) + (if m.unit is NoUnit {
        Seq::empty()
    } else {
        ",\"unit\":"@ + json_quoted_plain(unit_name(m.unit))
    }) + "}"@
}

/// Whether a text is the member for an item that is a metric.
pub open spec fn is_metric_of(item: ItemModel, text: Seq<char>) -> bool {
    item matches ItemModel::Value(name, ValueModel::Metric(m)) && exists|values: Seq<Seq<char>>|
        #[trigger] is_metric_member(name, m, values, text)
}

/// Whether a text is the member for an item that is a string, a list or an object.
pub open spec fn is_property_of(item: ItemModel, text: Seq<char>) -> bool {
    item matches ItemModel::Value(name, value) && text == json_quoted_plain(name) + ":"@ + match value {
        ValueModel::Text(s) => json_quoted_plain(s),
        ValueModel::List(list) => "["@ + joined(elements(Dialect::Json, false, list), seq![','])
            + "]"@,
        ValueModel::Object(fields) => "{"@ + joined(members(Dialect::Json, fields), seq![','])
            + "}"@,
        _ => arbitrary(),
    }
}

/// What a line is made of: the time, and the members for the items at some positions.
pub ghost struct Parts {
    pub time: i128,
    pub millis: nat,
    pub metrics: Seq<Seq<char>>,
    pub metrics_at: Seq<int>,
    pub properties: Seq<Seq<char>>,
    pub properties_at: Seq<int>,
}

/// Whether the members for metrics are those of all metrics of an entry, in order.
pub open spec fn metrics_fit(items: Seq<ItemModel>, parts: Parts) -> bool {
    &&& selects(parts.metrics_at, items.len(), |i: int| is_metric(items[i]))
    &&& parts.metrics.len() == parts.metrics_at.len()
    &&& forall|k: int|
        0 <= k < parts.metrics.len() ==> is_metric_of(
            items[parts.metrics_at[k]],
            #[trigger] parts.metrics[k],
        )
}

/// Whether the members for everything else are those of all strings, lists and objects of an entry,
/// in order.
pub open spec fn properties_fit(items: Seq<ItemModel>, parts: Parts) -> bool {
    &&& selects(parts.properties_at, items.len(), |i: int| is_property(items[i]))
    &&& parts.properties.len() == parts.properties_at.len()
    &&& forall|k: int|
        0 <= k < parts.properties.len() ==> is_property_of(
            items[parts.properties_at[k]],
            #[trigger] parts.properties[k],
        )
}

/// Whether a text is the line for an entry, made of these parts: the time in milliseconds, the
/// metrics and the properties, each of these only if there are any.
pub open spec fn is_line_of(
    items: Seq<ItemModel>,
    now: i128,
    parts: Parts,
    text: Seq<char>,
) -> bool {
    &&& is_time_of(items, now, parts.time)
    &&& are_millis_of(parts.time, parts.millis)
    &&& metrics_fit(items, parts)
    &&& properties_fit(items, parts)
    &&& text == "{\"timestamp\":"@ + decimal(parts.millis) + (if parts.metrics.len() == 0 {
        Seq::empty()
    } else {
        ",\"metrics\":{"@ + joined(parts.metrics, seq![',']) + "}"@
    }) + (if parts.properties.len() == 0 {
        Seq::empty()
    } else {
        ",\"properties\":{"@ + joined(parts.properties, seq![',']) + "}"@
    }) + "}\n"@
}

proof fn metric_members(name: Seq<char>, m: MetricModel)
    requires
        m.distribution.len() > 0,
    ensures
        is_metric_member(
            name,
            m,
            json_observations(m.distribution),
            json_quoted_plain(name) + ":"@ + metric_json(m),
        ),
{
    let values = json_observations(m.distribution);
    assert forall|i: int| 0 <= i < values.len() implies is_observation_in_json(
        m.distribution[i],
        #[trigger] values[i],
    ) by {
        observations_are_written(m.distribution[i]);
        assert(values[i] == json_observation(m.distribution[i]));
    }
    let head = if values.len() == 1 {
        "{\"value\":"@ + values[0]
    } else {
        "{\"values\":["@ + joined(values, seq![',']) + "]"@
    };
    let unit = if m.unit is NoUnit {
        Seq::empty()
    } else {
        ",\"unit\":"@ + json_quoted_plain(unit_name(m.unit))
    };
    assert(metric_json(m) == head + unit + "}"@);
    assert(json_quoted_plain(name) + ":"@ + (head + unit + "}"@) =~= json_quoted_plain(name) + ":"@
        + head + unit + "}"@);
}

proof fn parts_of_items(items: Seq<ItemModel>) -> (parts: Parts)
    requires
        forall|i: int| 0 <= i < items.len() ==> item_accepted(#[trigger] items[i]),
    ensures
        metrics_fit(items, parts),
        properties_fit(items, parts),
        parts.metrics == with_items(items).metrics,
        parts.properties == with_items(items).properties,
        with_items(items).timestamp matches Some(t) ==> exists|i: int|
            0 <= i < items.len() && #[trigger] items[i] == ItemModel::Timestamp(t),
        with_items(items).timestamp is None ==> forall|i: int|
            0 <= i < items.len() ==> !(#[trigger] items[i] is Timestamp),
    decreases items.len(),
{
    let w = with_items(items);
    if items.len() == 0 {
        selects_none(|i: int| is_metric(items[i]));
        selects_none(|i: int| is_property(items[i]));
        Parts {
            time: 0,
            millis: 0,
            metrics: w.metrics,
            metrics_at: Seq::empty(),
            properties: w.properties,
            properties_at: Seq::empty(),
        }
    } else {
        let init = items.drop_last();
        let n = init.len();
        assert forall|i: int| 0 <= i < n implies item_accepted(#[trigger] init[i]) by {
            assert(items[i] == init[i]);
        }
        let before = parts_of_items(init);
        let last = items[n as int];
        assert(item_accepted(last));
        let f = |i: int| is_metric(init[i]);
        let g = |i: int| is_metric(items[i]);
        assert forall|i: int| 0 <= i < n implies #[trigger] f(i) == g(i) by {
            assert(init[i] == items[i]);
        }
        selects_more(before.metrics_at, n, f, g);
        let p = |i: int| is_property(init[i]);
        let q = |i: int| is_property(items[i]);
        assert forall|i: int| 0 <= i < n implies #[trigger] p(i) == q(i) by {
            assert(init[i] == items[i]);
        }
        selects_more(before.properties_at, n, p, q);
        if let ItemModel::Value(name, ValueModel::Metric(m)) = last {
            if m.distribution.len() > 0 {
                metric_members(name, m);
            }
        }
        let parts = Parts {
            time: 0,
            millis: 0,
            metrics: w.metrics,
            metrics_at: if g(n as int) {
                before.metrics_at.push(n as int)
            } else {
                before.metrics_at
            },
            properties: w.properties,
            properties_at: if q(n as int) {
                before.properties_at.push(n as int)
            } else {
                before.properties_at
            },
        };
        assert forall|k: int| 0 <= k < parts.metrics.len() implies is_metric_of(
            items[parts.metrics_at[k]],
            #[trigger] parts.metrics[k],
        ) by {
            if k < before.metrics.len() {
                assert(parts.metrics[k] == before.metrics[k]);
                assert(parts.metrics_at[k] == before.metrics_at[k]);
                assert(init[before.metrics_at[k]] == items[before.metrics_at[k]]);
            }
        }
        assert forall|k: int| 0 <= k < parts.properties.len() implies is_property_of(
            items[parts.properties_at[k]],
            #[trigger] parts.properties[k],
        ) by {
            if k < before.properties.len() {
                assert(parts.properties[k] == before.properties[k]);
                assert(parts.properties_at[k] == before.properties_at[k]);
                assert(init[before.properties_at[k]] == items[before.properties_at[k]]);
            }
        }
        if let Some(t) = w.timestamp {
            if last is Timestamp {
                assert(items[n as int] == ItemModel::Timestamp(t));
            } else {
                let i = choose|i: int|
                    0 <= i < init.len() && #[trigger] init[i] == ItemModel::Timestamp(t);
                assert(items[i] == ItemModel::Timestamp(t));
            }
        } else {
            assert forall|i: int| 0 <= i < items.len() implies !(#[trigger] items[i] is Timestamp) by {
                if i < n {
                    assert(init[i] == items[i]);
                }
            }
        }
        parts
    }
}

/// The line for an entry holds the time, a member for each metric that has observations, with its
/// value or values and its unit, and a member for each string, list and object, all of them in order
/// and nothing else.
pub proof fn entries_are_written(items: Seq<ItemModel>, now: i128)
    requires
        formatted(items, now) is Ok,
    ensures
        exists|parts: Parts| #[trigger] is_line_of(items, now, parts, formatted(items, now)->Ok_0),
{
    accepted_entries(items, now);
    let w = with_items(items);
    let found = parts_of_items(items);
    let time = match w.timestamp {
        Some(t) => t,
        None => now,
    };
    millis_of(time);
    let parts = Parts { time, millis: epoch_millis(time) as nat, ..found };
    assert(metrics_fit(items, parts));
    assert(properties_fit(items, parts));
    assert(is_line_of(items, now, parts, formatted(items, now)->Ok_0));
}

proof fn part_stands_in_joined(parts: Seq<Seq<char>>, separator: Seq<char>, k: int)
    requires
        0 <= k < parts.len(),
    ensures
        stands_in(parts[k], joined(parts, separator)),
    decreases parts.len(),
{
    let none = Seq::<char>::empty();
    if parts.len() == 1 {
        assert(joined(parts, separator) =~= none + parts[k] + none);
    } else {
        let init = parts.drop_last();
        if k < init.len() {
            part_stands_in_joined(init, separator, k);
            let (a, b) = choose|a: Seq<char>, b: Seq<char>|
                joined(init, separator) == #[trigger] (a + init[k] + b);
            assert(joined(parts, separator) =~= a + parts[k] + (b + separator + parts.last()));
        } else {
            assert(joined(parts, separator) =~= (joined(init, separator) + separator) + parts[k]
                + none);
        }
    }
}

proof fn metrics_stand_in_lines(text: Seq<char>, parts: Parts, k: int)
    requires
        0 <= k < parts.metrics.len(),
        exists|items: Seq<ItemModel>, now: i128| #[trigger] is_line_of(items, now, parts, text),
    ensures
        stands_in(parts.metrics[k], text),
{
    let member = parts.metrics[k];
    part_stands_in_joined(parts.metrics, seq![','], k);
    let (a, b) = choose|a: Seq<char>, b: Seq<char>|
        joined(parts.metrics, seq![',']) == #[trigger] (a + member + b);
    let tail = if parts.properties.len() == 0 {
        Seq::empty()
    } else {
        ",\"properties\":{"@ + joined(parts.properties, seq![',']) + "}"@
    };
    let before = "{\"timestamp\":"@ + decimal(parts.millis) + ",\"metrics\":{"@ + a;
    let after = b + "}"@ + tail + "}\n"@;
    assert(text =~= before + member + after);
}

/// The object for a metric up to its unit, without its opening brace.
spec fn values_in(values: Seq<Seq<char>>) -> Seq<char> {
    if values.len() == 1 {
        "\"value\":"@ + values[0]
    } else {
        "\"values\":["@ + joined(values, seq![',']) + "]"@
    }
}

proof fn unit_in_member(
    name: Seq<char>,
    m: MetricModel,
    values: Seq<Seq<char>>,
    member: Seq<char>,
)
    requires
        is_metric_member(name, m, values, member),
        m.unit != Unit::NoUnit,
    ensures
        member == json_quoted_plain(name) + ":{"@ + (values_in(values) + ",\"unit\":"@)
            + json_quoted_plain(unit_name(m.unit)) + "}"@,
{
    reveal_strlit(":{");
    reveal_strlit(":");
    reveal_strlit("{\"value\":");
    reveal_strlit("{\"values\":[");
    reveal_strlit("\"value\":");
    reveal_strlit("\"values\":[");
    assert("{\"value\":"@ =~= seq!['{'] + "\"value\":"@);
    assert("{\"values\":["@ =~= seq!['{'] + "\"values\":["@);
    assert(":{"@ =~= ":"@ + seq!['{']);
    let head = if values.len() == 1 {
        "{\"value\":"@ + values[0]
    } else {
        "{\"values\":["@ + joined(values, seq![',']) + "]"@
    };
    let inner = values_in(values);
    assert(head =~= seq!['{'] + inner);
    let unit = json_quoted_plain(unit_name(m.unit));
    assert(json_quoted_plain(name) + ":"@ + (seq!['{'] + inner) + (",\"unit\":"@ + unit) + "}"@
        =~= json_quoted_plain(name) + (":"@ + seq!['{']) + (inner + ",\"unit\":"@) + unit + "}"@);
}

/// Each metric of an entry that has observations stands in its line, however many they are: under
/// its name, with all of its values, and with the name of its unit if and only if it has a unit.
pub proof fn metrics_are_written_with_their_units(
    items: Seq<ItemModel>,
    now: i128,
    i: int,
    name: Seq<char>,
    m: MetricModel,
)
    requires
        formatted(items, now) is Ok,
        0 <= i < items.len(),
        items[i] == ItemModel::Value(name, ValueModel::Metric(m)),
        m.distribution.len() > 0,
    ensures
        exists|values: Seq<Seq<char>>, member: Seq<char>| #[trigger]
            is_metric_member(name, m, values, member) && stands_in(
                member,
                formatted(items, now)->Ok_0,
            ),
        m.unit != Unit::NoUnit ==> exists|inner: Seq<char>|
            stands_in(
                json_quoted_plain(name) + ":{"@ + #[trigger] (inner + ",\"unit\":"@)
                    + json_quoted_plain(unit_name(m.unit)) + "}"@,
                formatted(items, now)->Ok_0,
            ),
{
    entries_are_written(items, now);
    let text = formatted(items, now)->Ok_0;
    let parts = choose|parts: Parts| #[trigger] is_line_of(items, now, parts, text);
    let chosen = |i: int| is_metric(items[i]);
    assert(chosen(i));
    assert(parts.metrics_at.contains(i));
    let k = choose|k: int| 0 <= k < parts.metrics_at.len() && parts.metrics_at[k] == i;
    let member = parts.metrics[k];
    assert(is_metric_of(items[i], member));
    let values = choose|values: Seq<Seq<char>>| #[trigger]
        is_metric_member(name, m, values, member);
    metrics_stand_in_lines(text, parts, k);
    if m.unit != Unit::NoUnit {
        unit_in_member(name, m, values, member);
        let inner = values_in(values);
        assert(member == json_quoted_plain(name) + ":{"@ + (inner + ",\"unit\":"@)
            + json_quoted_plain(unit_name(m.unit)) + "}"@);
    }
}

// ---------------------------------------------------------------------------
// Errors
// ---------------------------------------------------------------------------

/// Whether a timestamp came before.
pub open spec fn has_time_before(items: Seq<ItemModel>, i: int) -> bool {
    exists|j: int| 0 <= j < i && (#[trigger] items[j]) is Timestamp
}

/// Whether an item is refused: a value without a name or that is an error, or a second timestamp.
pub open spec fn is_refused_at(items: Seq<ItemModel>, i: int) -> bool {
    match items[i] {
        ItemModel::Timestamp(_) => has_time_before(items, i),
        ItemModel::Value(name, value) => name.len() == 0 || value is Error,
        ItemModel::Config(_) => false,
    }
}

/// Whether an error says why an item is refused.
pub open spec fn is_reason_for(item: ItemModel, e: ErrorModel) -> bool {
    match item {
        ItemModel::Timestamp(_) => e.field is None && e.reason == "timestamp set more than once"@,
        ItemModel::Value(name, value) => e.field == Some(name) && e.reason == if name.len() == 0 {
            "name can't be empty"@
        } else {
            value->Error_0.reason
        },
        ItemModel::Config(_) => false,
    }
}

/// The errors of an entry are those of the items that are refused, in order.
pub proof fn errors_are_told(items: Seq<ItemModel>) -> (at: Seq<int>)
    ensures
        selects(at, items.len(), |i: int| is_refused_at(items, i)),
        with_items(items).errors.len() == at.len(),
        forall|k: int|
            0 <= k < at.len() ==> is_reason_for(
                items[at[k]],
                #[trigger] with_items(items).errors[k],
            ),
        with_items(items).timestamp is Some == has_time_before(items, items.len() as int),
    decreases items.len(),
{
    if items.len() == 0 {
        selects_none(|i: int| is_refused_at(items, i));
        Seq::empty()
    } else {
        let init = items.drop_last();
        let n = init.len();
        let before = errors_are_told(init);
        let f = |i: int| is_refused_at(init, i);
        let g = |i: int| is_refused_at(items, i);
        assert forall|i: int| 0 <= i <= n implies #[trigger] has_time_before(items, i)
            == has_time_before(init, i) by {
            if has_time_before(init, i) {
                let j = choose|j: int| 0 <= j < i && (#[trigger] init[j]) is Timestamp;
                assert(items[j] is Timestamp);
            }
            if has_time_before(items, i) {
                let j = choose|j: int| 0 <= j < i && (#[trigger] items[j]) is Timestamp;
                assert(init[j] is Timestamp);
            }
        }
        assert forall|i: int| 0 <= i < n implies #[trigger] f(i) == g(i) by {
            assert(init[i] == items[i]);
            assert(has_time_before(items, i) == has_time_before(init, i));
        }
        assert(has_time_before(items, n as int) == has_time_before(init, n as int));
        selects_more(before, n, f, g);
        let at = if g(n as int) {
            before.push(n as int)
        } else {
            before
        };
        let w = with_items(items);
        let earlier = with_items(init);
        reveal_strlit("");
        assert(w.errors.len() == at.len());
        assert forall|k: int| 0 <= k < at.len() implies is_reason_for(
            items[at[k]],
            #[trigger] with_items(items).errors[k],
        ) by {
            if k < before.len() {
                assert(at[k] == before[k]);
                assert(is_reason_for(init[before[k]], earlier.errors[k]));
                assert(w.errors[k] == earlier.errors[k]);
            } else if let ItemModel::Value(name, _) = items[n as int] {
                if name.len() == 0 {
                    assert(name =~= ""@);
                }
            }
        }
        if has_time_before(items, n as int) {
            let j = choose|j: int| 0 <= j < n && (#[trigger] items[j]) is Timestamp;
            assert(items[j] is Timestamp);
        }
        assert(has_time_before(items, items.len() as int) == (has_time_before(items, n as int)
            || items[n as int] is Timestamp));
        at
    }
}

/// An entry is refused for just the errors of its items, in order.
pub proof fn entries_are_refused_for_their_errors(items: Seq<ItemModel>, now: i128) -> (at: Seq<
    int,
>)
    ensures
        selects(at, items.len(), |i: int| is_refused_at(items, i)),
        formatted(items, now) is Ok <==> at.len() == 0,
        formatted(items, now) matches Err(errors) ==> errors.len() == at.len() && forall|k: int|
            0 <= k < at.len() ==> is_reason_for(items[at[k]], #[trigger] errors[k]),
{
    errors_are_told(items)
}

} // verus!
