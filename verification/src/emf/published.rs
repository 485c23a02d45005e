//! What the lines of an entry hold.

use vstd::prelude::*;
use vstd::string::*;

use crate::emf::laws::dimension_order_makes_no_difference;
use crate::emf::metric::{
    count, counts, definitions_with_metric, fields_with_metric, member_name, metric_definition,
    metric_field,
};
use crate::emf::model::{
    combined, effective_dimensions, extended, first_texts, formatted, fresh, initial_lines,
    instance_fields, is_global, name_error, output_lines, set_keys, set_lines, set_position,
    with_item_written, with_items_written, with_set, SetModel, Settings, WriterModel,
};
use crate::emf::refusals::item_keeps;
use crate::emf::valid::notes_keep_texts;
use crate::entry::{epoch_millis, ConfigModel, ItemModel};
use crate::flags::{MetricFlags, StorageMode};
use crate::json_laws::{are_millis_of, is_property, is_time_of, millis_of};
use crate::listing::{selects, selects_more, selects_none, stands_further, stands_in};
use crate::nested::{elements, members, numbers, Dialect};
use crate::nested_laws::{are_numbers_at, has_number, is_number_of, observations_are_written};
use crate::order::{pair_leq, pair_order_is_total, sorted_pairs};
use crate::text::{
    after_commas, after_commas_is_joined, after_commas_push, after_commas_then, concat, decimal,
    joined, joined_push, json_quoted, json_string_array,
};
use crate::unit::unit_name;
use crate::value::{MetricModel, ObservationModel, ValueModel};

verus! {

// ---------------------------------------------------------------------------
// Metrics
// ---------------------------------------------------------------------------

/// How often an observation counts in an entry that stands for `multiplicity` entries: that often,
/// and repeated observations that many times as often, as far as that fits in 64 bits.
pub open spec fn times_counted(o: ObservationModel, multiplicity: Option<u64>) -> nat {
    let n = match multiplicity {
        Some(n) => n as nat,
        None => 1,
    };
    match o {
        ObservationModel::Repeated { occurrences, .. } => if occurrences * n
            > 0xffff_ffff_ffff_ffff {
            0xffff_ffff_ffff_ffff
        } else {
            occurrences as nat * n
        },
        _ => n,
    }
}

/// Whether a text is the member for a metric. There is a value and a count for each observation
/// that has a number, in order. A single observation that stands for itself in an entry that stands
/// for itself is written as its number, anything else as values and counts.
pub open spec fn is_member_text(
    name: Seq<char>,
    m: MetricModel,
    multiplicity: Option<u64>,
    at: Seq<int>,
    values: Seq<Seq<char>>,
    times: Seq<Seq<char>>,
    text: Seq<char>,
) -> bool {
    &&& are_numbers_at(m.distribution, at, values)
    &&& times.len() == at.len()
    &&& forall|k: int|
        0 <= k < at.len() ==> #[trigger] times[k] == decimal(
            times_counted(m.distribution[at[k]], multiplicity),
        )
    &&& text == json_quoted(name) + ":"@ + if m.distribution.len() == 1 && multiplicity is None
        && !(m.distribution[0] is Repeated) {
        values[0]
    } else {
        "{\"Values\":["@ + joined(values, seq![',']) + "],\"Counts\":["@ + joined(times, seq![','])
            + "]}"@
    }
}

/// Whether a text is the member for an item that is a metric.
pub open spec fn is_member_of(item: ItemModel, multiplicity: Option<u64>, text: Seq<char>) -> bool {
    item matches ItemModel::Value(name, ValueModel::Metric(m)) && has_member_text(
        name,
        m,
        multiplicity,
        text,
    )
}

/// Whether a text is the member for a metric.
pub open spec fn has_member_text(
    name: Seq<char>,
    m: MetricModel,
    multiplicity: Option<u64>,
    text: Seq<char>,
) -> bool {
    exists|at: Seq<int>, values: Seq<Seq<char>>, times: Seq<Seq<char>>| #[trigger]
        is_member_text(name, m, multiplicity, at, values, times, text)
}

/// Whether any of the observations has a number.
pub open spec fn any_number(list: Seq<ObservationModel>) -> bool {
    exists|i: int| 0 <= i < list.len() && has_number(#[trigger] list[i])
}

/// Whether an item is a metric with a number.
pub open spec fn is_numeric(item: ItemModel) -> bool {
    item matches ItemModel::Value(_, ValueModel::Metric(m)) && any_number(m.distribution)
}

/// Whether an item is a metric that is published: it has a number, and its flags do not say that it
/// is not to be published.
pub open spec fn is_defined(item: ItemModel) -> bool {
    is_numeric(item) && (item matches ItemModel::Value(_, ValueModel::Metric(m)) && m.flags
        != MetricFlags::Emf(StorageMode::NoMetric))
}

/// Whether a text is the definition of an item that is a metric: its name, its unit unless it has
/// none, and the resolution if its flags ask for a high one.
pub open spec fn is_definition_of(item: ItemModel, text: Seq<char>) -> bool {
    item matches ItemModel::Value(name, ValueModel::Metric(m)) && text == "{\"Name\":"@
        + json_quoted(name) + (if m.unit is NoUnit {
        Seq::empty()
    } else {
        ",\"Unit\":"@ + json_quoted(unit_name(m.unit))
    }) + (if m.flags == MetricFlags::Emf(StorageMode::HighStorageResolution) {
        ",\"StorageResolution\":1}"@
    } else {
        "}"@
    })
}

// ---------------------------------------------------------------------------
// Metrics that share dimensions
// ---------------------------------------------------------------------------

/// The dimensions that an item has of its own, unless such dimensions are ignored.
pub open spec fn own_dimensions(s: Settings, item: ItemModel) -> Seq<(Seq<char>, Seq<char>)> {
    match item {
        ItemModel::Value(_, ValueModel::Metric(m)) => if s.ignore_dimensions {
            Seq::empty()
        } else {
            m.dimensions
        },
        _ => Seq::empty(),
    }
}

/// Whether an item is a metric with just these dimensions of its own, in whatever order.
pub open spec fn belongs(s: Settings, item: ItemModel, key: Seq<(Seq<char>, Seq<char>)>) -> bool {
    item matches ItemModel::Value(_, ValueModel::Metric(_)) && own_dimensions(s, item).to_multiset()
        == key.to_multiset()
}

/// The members and the definitions for metrics that share their own dimensions, and the positions of
/// the items that they are for.
pub ghost struct Group {
    pub key: Seq<(Seq<char>, Seq<char>)>,
    pub members: Seq<Seq<char>>,
    pub members_at: Seq<int>,
    pub definitions: Seq<Seq<char>>,
    pub definitions_at: Seq<int>,
}

/// Whether a group has a member for each metric with its dimensions that has a number, and a
/// definition for each of them that is published, in order and nothing else.
pub open spec fn group_fits(
    s: Settings,
    items: Seq<ItemModel>,
    multiplicity: Option<u64>,
    group: Group,
) -> bool {
    &&& selects(
        group.members_at,
        items.len(),
        |i: int| is_numeric(items[i]) && belongs(s, items[i], group.key),
    )
    &&& group.members.len() == group.members_at.len()
    &&& forall|k: int|
        0 <= k < group.members.len() ==> is_member_of(
            items[group.members_at[k]],
            multiplicity,
            #[trigger] group.members[k],
        )
    &&& selects(
        group.definitions_at,
        items.len(),
        |i: int| is_defined(items[i]) && belongs(s, items[i], group.key),
    )
    &&& group.definitions.len() == group.definitions_at.len()
    &&& forall|k: int|
        0 <= k < group.definitions.len() ==> is_definition_of(
            items[group.definitions_at[k]],
            #[trigger] group.definitions[k],
        )
}

/// Whether dimensions are in the order of their names, and those of one name in the order of their
/// instances.
pub open spec fn in_order(key: Seq<(Seq<char>, Seq<char>)>) -> bool {
    forall|i: int, j: int| 0 <= i < j < key.len() ==> pair_leq(#[trigger] key[i], #[trigger] key[j])
}

// ---------------------------------------------------------------------------
// Lines
// ---------------------------------------------------------------------------

/// Whether a text is the member for an item that is a string, a list or an object.
pub open spec fn is_property_text(item: ItemModel, text: Seq<char>) -> bool {
    item matches ItemModel::Value(name, value) && text == json_quoted(name) + ":"@ + match value {
        ValueModel::Text(s) => json_quoted(s),
        ValueModel::List(list) => "["@ + joined(elements(Dialect::Emf, false, list), seq![','])
            + "]"@,
        ValueModel::Object(fields) => "{"@ + joined(members(Dialect::Emf, fields), seq![','])
            + "}"@,
        _ => arbitrary(),
    }
}

/// Whether the sets are each of the outer ones with each of the inner ones at its end.
pub open spec fn are_products(
    outer: Seq<Seq<Seq<char>>>,
    inner: Seq<Seq<Seq<char>>>,
    sets: Seq<Seq<Seq<char>>>,
) -> bool {
    &&& sets.len() == outer.len() * inner.len()
    &&& forall|a: int, b: int|
        0 <= a < outer.len() && 0 <= b < inner.len() ==> sets[a * inner.len() + b]
            == #[trigger] outer[a] + #[trigger] inner[b]
}

/// Whether these are the sets of dimension names that an entry is published under: those of the
/// formatter, and if the entry has its own, each of those with each of these.
pub open spec fn are_dimensions_of(
    s: Settings,
    items: Seq<ItemModel>,
    dimensions: Seq<Seq<Seq<char>>>,
) -> bool {
    ||| dimensions == s.dimensions && forall|i: int|
        0 <= i < items.len() ==> !(#[trigger] items[i] matches ItemModel::Config(
            ConfigModel::EntryDimensions(_),
        ))
    ||| exists|i: int, sets: Seq<Seq<Seq<char>>>|
        0 <= i < items.len() && #[trigger] items[i] == ItemModel::Config(
            ConfigModel::EntryDimensions(sets),
        ) && #[trigger] are_products(s.dimensions, sets, dimensions)
}

/// The directive that publishes metrics to a namespace.
pub open spec fn publication(
    namespace: Seq<char>,
    dimensions: Seq<Seq<Seq<char>>>,
    definitions: Seq<Seq<char>>,
) -> Seq<char> {
    "{\"Namespace\":"@ + json_quoted(namespace) + ",\"Dimensions\":["@ + joined(
        dimensions.map_values(|set: Seq<Seq<char>>| json_string_array(set)),
        seq![','],
    ) + "],\"Metrics\":["@ + joined(definitions, seq![',']) + "]}"@
}

/// A line: the metrics are published to each namespace under each set of dimensions, then come
/// further directives, the log group if there is one, the time, and the members.
pub open spec fn line_text(
    s: Settings,
    dimensions: Seq<Seq<Seq<char>>>,
    definitions: Seq<Seq<char>>,
    further: Seq<char>,
    millis: nat,
    members: Seq<Seq<char>>,
) -> Seq<char> {
    "{\"_aws\":{\"CloudWatchMetrics\":["@ + joined(
        s.namespaces.map_values(
            |namespace: Seq<char>| publication(namespace, dimensions, definitions),
        ),
        seq![','],
    ) + further + (match s.log_group {
        Some(name) => "],\"LogGroupName\":"@ + json_quoted(name) + ",\"Timestamp\":"@,
        None => "],\"Timestamp\":"@,
    }) + decimal(millis) + "}"@ + after_commas(members) + "}\n"@
}

/// What the output of an entry is made of.
pub ghost struct Report {
    pub time: i128,
    pub millis: nat,
    pub dimensions: Seq<Seq<Seq<char>>>,
    pub strings: Seq<Seq<char>>,
    pub strings_at: Seq<int>,
    /// The metrics without dimensions of their own.
    pub global: Group,
    /// The metrics with dimensions of their own.
    pub groups: Seq<Group>,
}

/// The members that name the instances of dimensions.
pub open spec fn instances(key: Seq<(Seq<char>, Seq<char>)>) -> Seq<Seq<char>> {
    key.map_values(|p: (Seq<char>, Seq<char>)| json_quoted(p.0) + ":"@ + json_quoted(p.1))
}

/// The line for metrics that share dimensions of their own: each set of dimension names has the
/// names of these at its end, and there are members for their instances.
pub open spec fn group_line(s: Settings, r: Report, group: Group) -> Seq<char> {
    line_text(
        s,
        r.dimensions.map_values(
            |set: Seq<Seq<char>>| set + group.key.map_values(|p: (Seq<char>, Seq<char>)| p.0),
        ),
        group.definitions,
        Seq::empty(),
        r.millis,
        instances(group.key) + group.members + r.strings,
    )
}

/// The line for metrics without dimensions of their own.
pub open spec fn plain_line(s: Settings, r: Report) -> Seq<char> {
    line_text(
        s,
        r.dimensions,
        r.global.definitions,
        s.directives,
        r.millis,
        r.global.members + r.strings,
    )
}

/// Whether the groups are those of the metrics with dimensions of their own that have a number: one
/// group for all with the same dimensions.
pub open spec fn groups_fit(
    s: Settings,
    items: Seq<ItemModel>,
    multiplicity: Option<u64>,
    groups: Seq<Group>,
) -> bool {
    &&& forall|g: int|
        0 <= g < groups.len() ==> {
            &&& group_fits(s, items, multiplicity, #[trigger] groups[g])
            &&& groups[g].key.len() > 0
            &&& in_order(groups[g].key)
            &&& groups[g].members.len() > 0
        }
    &&& forall|g: int, h: int|
        0 <= g < h < groups.len() ==> (#[trigger] groups[g]).key.to_multiset() != (
        #[trigger] groups[h]).key.to_multiset()
    &&& forall|i: int|
        0 <= i < items.len() && is_numeric(#[trigger] items[i]) && own_dimensions(s, items[i]).len()
            > 0 ==> exists|g: int|
            0 <= g < groups.len() && belongs(s, items[i], (#[trigger] groups[g]).key)
}

/// Whether a text is the output of an entry, made of these parts: a line for each group of metrics
/// that share dimensions of their own, and a line for the others, which is left out if there are
/// none of them but there is another line. The strings of the entry are in each line.
pub open spec fn is_output_of(
    s: Settings,
    items: Seq<ItemModel>,
    multiplicity: Option<u64>,
    now: i128,
    r: Report,
    text: Seq<char>,
) -> bool {
    &&& is_time_of(items, now, r.time)
    &&& are_millis_of(r.time, r.millis)
    &&& are_dimensions_of(s, items, r.dimensions)
    &&& strings_fit(items, r.strings, r.strings_at)
    &&& group_fits(s, items, multiplicity, r.global)
    &&& r.global.key.len() == 0
    &&& groups_fit(s, items, multiplicity, r.groups)
    &&& text == concat(r.groups.map_values(|g: Group| group_line(s, r, g))) + if r.groups.len() == 0
        || r.global.members.len() > 0 {
        plain_line(s, r)
    } else {
        Seq::empty()
    }
}

/// Whether there is a member for each string, list and object of an entry, in order and nothing
/// else.
pub open spec fn strings_fit(
    items: Seq<ItemModel>,
    strings: Seq<Seq<char>>,
    strings_at: Seq<int>,
) -> bool {
    &&& selects(strings_at, items.len(), |i: int| is_property(items[i]))
    &&& strings.len() == strings_at.len()
    &&& forall|k: int|
        0 <= k < strings.len() ==> is_property_text(items[strings_at[k]], #[trigger] strings[k])
}

// ---------------------------------------------------------------------------
// Why they do: single metrics
// ---------------------------------------------------------------------------

proof fn values_and_counts_at(list: Seq<ObservationModel>, multiplicity: Option<u64>) -> (at: Seq<int>)
    ensures
        are_numbers_at(list, at, numbers(Dialect::Emf, list)),
        counts(list, multiplicity).len() == at.len(),
        forall|k: int|
            0 <= k < at.len() ==> #[trigger] counts(list, multiplicity)[k] == decimal(
                times_counted(list[at[k]], multiplicity),
            ),
    decreases list.len(),
{
    if list.len() == 0 {
        selects_none(|i: int| has_number(list[i]));
        Seq::empty()
    } else {
        let init = list.drop_last();
        let n = init.len();
        let before = values_and_counts_at(init, multiplicity);
        let f = |i: int| has_number(init[i]);
        let g = |i: int| has_number(list[i]);
        assert forall|i: int| 0 <= i < n implies #[trigger] f(i) == g(i) by {
            assert(init[i] == list[i]);
        }
        selects_more(before, n, f, g);
        let last = list[n as int];
        observations_are_written(last);
        assert(count(last, multiplicity) as nat == times_counted(last, multiplicity)) by {
            if let ObservationModel::Repeated { occurrences, .. } = last {
                let k = match multiplicity {
                    Some(k) => k,
                    None => 1,
                };
                assert(0 <= occurrences * k) by (nonlinear_arith);
            }
        }
        let at = if g(n as int) {
            before.push(n as int)
        } else {
            before
        };
        let texts = numbers(Dialect::Emf, list);
        assert forall|k: int| 0 <= k < at.len() implies is_number_of(
            list[at[k]],
            #[trigger] texts[k],
        ) by {
            if k < before.len() {
                assert(texts[k] == numbers(Dialect::Emf, init)[k]);
                assert(at[k] == before[k]);
                assert(init[before[k]] == list[before[k]]);
            }
        }
        assert forall|k: int| 0 <= k < at.len() implies #[trigger] counts(list, multiplicity)[k]
            == decimal(times_counted(list[at[k]], multiplicity)) by {
            if k < before.len() {
                assert(counts(list, multiplicity)[k] == counts(init, multiplicity)[k]);
                assert(at[k] == before[k]);
                assert(init[before[k]] == list[before[k]]);
            }
        }
        at
    }
}

proof fn member_is_one(
    item: ItemModel,
    name: Seq<char>,
    m: MetricModel,
    multiplicity: Option<u64>,
    at: Seq<int>,
    values: Seq<Seq<char>>,
    times: Seq<Seq<char>>,
    text: Seq<char>,
)
    requires
        item == ItemModel::Value(name, ValueModel::Metric(m)),
        is_member_text(name, m, multiplicity, at, values, times, text),
    ensures
        has_member_text(name, m, multiplicity, text),
        is_member_of(item, multiplicity, text),
{
}

/// The member for a metric, without the comma before it.
proof fn member_of_metric(name: Seq<char>, m: MetricModel, multiplicity: Option<u64>) -> (text: Seq<
    char,
>)
    ensures
        metric_field(name, m.distribution, multiplicity) is Some <==> any_number(m.distribution),
        any_number(m.distribution) ==> metric_field(name, m.distribution, multiplicity) == Some(
            seq![','] + text,
        ) && is_member_of(ItemModel::Value(name, ValueModel::Metric(m)), multiplicity, text),
{
    let list = m.distribution;
    let at = values_and_counts_at(list, multiplicity);
    let values = numbers(Dialect::Emf, list);
    let times = counts(list, multiplicity);
    let g = |i: int| has_number(list[i]);
    if any_number(list) {
        let i = choose|i: int| 0 <= i < list.len() && has_number(#[trigger] list[i]);
        assert(g(i));
        assert(at.contains(i));
        assert(values.len() > 0);
    } else if values.len() > 0 {
        assert(g(at[0]));
        assert(has_number(list[at[0]]));
    }
    reveal_strlit(",");
    let json = if list.len() == 1 && multiplicity is None && !(list[0] is Repeated) {
        observations_are_written(list[0]);
        if any_number(list) {
            assert(at[0] == 0);
            reveal_with_fuel(numbers, 2);
            assert(values =~= seq![crate::nested::emf_number(list[0])->0]);
        }
        values[0]
    } else {
        "{\"Values\":["@ + joined(values, seq![',']) + "],\"Counts\":["@ + joined(times, seq![','])
            + "]}"@
    };
    let text = json_quoted(name) + ":"@ + json;
    if any_number(list) {
        assert(is_member_text(name, m, multiplicity, at, values, times, text));
        let item = ItemModel::Value(name, ValueModel::Metric(m));
        member_is_one(item, name, m, multiplicity, at, values, times, text);
        let field = metric_field(name, list, multiplicity);
        assert(field is Some);
        assert(field->0 =~= seq![','] + text);
        assert(field == Some(seq![','] + text));
    } else if list.len() == 1 {
        assert(!has_number(list[0]));
        observations_are_written(list[0]);
    }
    text
}

proof fn definition_of_metric(name: Seq<char>, m: MetricModel)
    ensures
        metric_definition(name, m.unit, m.flags) is None <==> m.flags == MetricFlags::Emf(
            StorageMode::NoMetric,
        ),
        metric_definition(name, m.unit, m.flags) matches Some(d) ==> is_definition_of(
            ItemModel::Value(name, ValueModel::Metric(m)),
            d,
        ) && d.len() > 0,
{
    if let Some(d) = metric_definition(name, m.unit, m.flags) {
        reveal_strlit("{\"Name\":");
        let unit = if m.unit is NoUnit {
            Seq::empty()
        } else {
            ",\"Unit\":"@ + json_quoted(unit_name(m.unit))
        };
        let end = if m.flags == MetricFlags::Emf(StorageMode::HighStorageResolution) {
            ",\"StorageResolution\":1}"@
        } else {
            "}"@
        };
        assert(d =~= "{\"Name\":"@ + json_quoted(name) + unit + end);
    }
}

// ---------------------------------------------------------------------------
// Why they do: metrics that share dimensions
// ---------------------------------------------------------------------------

/// Whether a group is what stands in these texts.
spec fn group_holds(
    s: Settings,
    items: Seq<ItemModel>,
    multiplicity: Option<u64>,
    group: Group,
    fields: Seq<char>,
    definitions: Seq<char>,
) -> bool {
    &&& group_fits(s, items, multiplicity, group)
    &&& fields == after_commas(group.members)
    &&& definitions == joined(group.definitions, seq![','])
}

pub(crate) proof fn key_is_in_order(dimensions: Seq<(Seq<char>, Seq<char>)>)
    ensures
        in_order(sorted_pairs(dimensions)),
        sorted_pairs(dimensions).to_multiset() == dimensions.to_multiset(),
        sorted_pairs(dimensions).len() == dimensions.len(),
        sorted_pairs(sorted_pairs(dimensions)) == sorted_pairs(dimensions),
{
    let leq = |x: (Seq<char>, Seq<char>), y: (Seq<char>, Seq<char>)| pair_leq(x, y);
    pair_order_is_total();
    dimensions.lemma_sort_by_ensures(leq);
    let key = sorted_pairs(dimensions);
    dimension_order_makes_no_difference(key, dimensions);
    assert forall|i: int, j: int| 0 <= i < j < key.len() implies pair_leq(
        #[trigger] key[i],
        #[trigger] key[j],
    ) by {
        assert(leq(key[i], key[j]));
    }
    vstd::seq_lib::to_multiset_len(key);
    vstd::seq_lib::to_multiset_len(dimensions);
}

/// The positions of a kind of items, with one more item.
proof fn group_without(
    s: Settings,
    items: Seq<ItemModel>,
    multiplicity: Option<u64>,
    group: Group,
)
    requires
        items.len() > 0,
        group_fits(s, items.drop_last(), multiplicity, group),
        !belongs(s, items.last(), group.key) || !is_numeric(items.last()),
    ensures
        group_fits(s, items, multiplicity, group),
{
    let init = items.drop_last();
    let n = init.len();
    let f = |i: int| is_numeric(init[i]) && belongs(s, init[i], group.key);
    let g = |i: int| is_numeric(items[i]) && belongs(s, items[i], group.key);
    assert forall|i: int| 0 <= i < n implies #[trigger] f(i) == g(i) by {
        assert(init[i] == items[i]);
    }
    assert(items[n as int] == items.last());
    selects_more(group.members_at, n, f, g);
    let p = |i: int| is_defined(init[i]) && belongs(s, init[i], group.key);
    let q = |i: int| is_defined(items[i]) && belongs(s, items[i], group.key);
    assert forall|i: int| 0 <= i < n implies #[trigger] p(i) == q(i) by {
        assert(init[i] == items[i]);
    }
    selects_more(group.definitions_at, n, p, q);
    assert forall|k: int| 0 <= k < group.members.len() implies is_member_of(
        items[group.members_at[k]],
        multiplicity,
        #[trigger] group.members[k],
    ) by {
        assert(init[group.members_at[k]] == items[group.members_at[k]]);
    }
    assert forall|k: int| 0 <= k < group.definitions.len() implies is_definition_of(
        items[group.definitions_at[k]],
        #[trigger] group.definitions[k],
    ) by {
        assert(init[group.definitions_at[k]] == items[group.definitions_at[k]]);
    }
}

proof fn group_with(
    s: Settings,
    items: Seq<ItemModel>,
    multiplicity: Option<u64>,
    group: Group,
    member: Seq<char>,
    definition: Option<Seq<char>>,
) -> (after: Group)
    requires
        items.len() > 0,
        group_fits(s, items.drop_last(), multiplicity, group),
        belongs(s, items.last(), group.key),
        is_numeric(items.last()),
        is_member_of(items.last(), multiplicity, member),
        definition is Some <==> is_defined(items.last()),
        definition matches Some(d) ==> is_definition_of(items.last(), d),
    ensures
        group_fits(s, items, multiplicity, after),
        after.key == group.key,
        after.members == group.members.push(member),
        after.definitions == match definition {
            Some(d) => group.definitions.push(d),
            None => group.definitions,
        },
{
    let init = items.drop_last();
    let n = init.len();
    assert(items[n as int] == items.last());
    let f = |i: int| is_numeric(init[i]) && belongs(s, init[i], group.key);
    let g = |i: int| is_numeric(items[i]) && belongs(s, items[i], group.key);
    assert forall|i: int| 0 <= i < n implies #[trigger] f(i) == g(i) by {
        assert(init[i] == items[i]);
    }
    selects_more(group.members_at, n, f, g);
    let p = |i: int| is_defined(init[i]) && belongs(s, init[i], group.key);
    let q = |i: int| is_defined(items[i]) && belongs(s, items[i], group.key);
    assert forall|i: int| 0 <= i < n implies #[trigger] p(i) == q(i) by {
        assert(init[i] == items[i]);
    }
    selects_more(group.definitions_at, n, p, q);
    let after = Group {
        key: group.key,
        members: group.members.push(member),
        members_at: group.members_at.push(n as int),
        definitions: match definition {
            Some(d) => group.definitions.push(d),
            None => group.definitions,
        },
        definitions_at: match definition {
            Some(_) => group.definitions_at.push(n as int),
            None => group.definitions_at,
        },
    };
    assert forall|k: int| 0 <= k < after.members.len() implies is_member_of(
        items[after.members_at[k]],
        multiplicity,
        #[trigger] after.members[k],
    ) by {
        if k < group.members.len() {
            assert(after.members[k] == group.members[k]);
            assert(init[group.members_at[k]] == items[group.members_at[k]]);
        }
    }
    assert forall|k: int| 0 <= k < after.definitions.len() implies is_definition_of(
        items[after.definitions_at[k]],
        #[trigger] after.definitions[k],
    ) by {
        if k < group.definitions.len() {
            assert(after.definitions[k] == group.definitions[k]);
            assert(init[group.definitions_at[k]] == items[group.definitions_at[k]]);
        }
    }
    after
}

/// A group and what stands in its texts, with one more metric.
proof fn group_with_metric(
    s: Settings,
    items: Seq<ItemModel>,
    multiplicity: Option<u64>,
    group: Group,
    fields: Seq<char>,
    definitions: Seq<char>,
    name: Seq<char>,
    m: MetricModel,
) -> (after: Group)
    requires
        items.len() > 0,
        group_holds(s, items.drop_last(), multiplicity, group, fields, definitions),
        items.last() == ItemModel::Value(name, ValueModel::Metric(m)),
        belongs(s, items.last(), group.key),
    ensures
        group_holds(
            s,
            items,
            multiplicity,
            after,
            fields_with_metric(fields, name, m.distribution, multiplicity),
            definitions_with_metric(
                definitions,
                name,
                m.distribution,
                multiplicity,
                m.unit,
                m.flags,
            ),
        ),
        after.key == group.key,
{
    let member = member_of_metric(name, m, multiplicity);
    definition_of_metric(name, m);
    if any_number(m.distribution) {
        let definition = metric_definition(name, m.unit, m.flags);
        let after = group_with(s, items, multiplicity, group, member, definition);
        after_commas_push(group.members, member);
        assert(fields + (seq![','] + member) =~= after_commas(group.members) + seq![','] + member);
        if let Some(d) = definition {
            reveal_strlit(",");
            joined_push(group.definitions, d, seq![',']);
            if group.definitions.len() > 0 {
                let k = group.definitions.len() - 1;
                definitions_are_not_empty(
                    items.drop_last()[group.definitions_at[k]],
                    group.definitions[k],
                );
                assert(definitions.len() > 0);
            }
            assert(","@ =~= seq![',']);
        }
        after
    } else {
        group_without(s, items, multiplicity, group);
        group
    }
}

proof fn definitions_are_not_empty(item: ItemModel, text: Seq<char>)
    requires
        is_definition_of(item, text),
    ensures
        text.len() > 0,
{
    reveal_strlit("{\"Name\":");
}

/// A group without any metrics, as long as there are none with its dimensions.
proof fn empty_group(
    s: Settings,
    items: Seq<ItemModel>,
    multiplicity: Option<u64>,
    key: Seq<(Seq<char>, Seq<char>)>,
) -> (group: Group)
    requires
        forall|i: int| 0 <= i < items.len() ==> !belongs(s, #[trigger] items[i], key),
    ensures
        group_holds(s, items, multiplicity, group, Seq::empty(), Seq::empty()),
        group.key == key,
{
    let none = Seq::<Seq<char>>::empty();
    after_commas_is_joined(none);
    assert(after_commas(none) =~= Seq::empty());
    assert(joined(none, seq![',']) =~= Seq::empty());
    Group {
        key,
        members: none,
        members_at: Seq::empty(),
        definitions: none,
        definitions_at: Seq::empty(),
    }
}

// ---------------------------------------------------------------------------
// Why they do: entries
// ---------------------------------------------------------------------------

/// What has been written of an entry.
spec fn written(s: Settings, items: Seq<ItemModel>, multiplicity: Option<u64>) -> WriterModel {
    with_items_written(s, fresh(initial_lines(s)), items, multiplicity)
}

proof fn no_errors_before(s: Settings, items: Seq<ItemModel>, multiplicity: Option<u64>)
    requires
        items.len() > 0,
        written(s, items, multiplicity).errors.len() == 0,
    ensures
        written(s, items.drop_last(), multiplicity).errors.len() == 0,
        items.last() matches ItemModel::Value(name, value) ==> name_error(s, name) is None && !(value
            is Error),
{
    let before = written(s, items.drop_last(), multiplicity);
    item_keeps(s, before, items.last(), multiplicity, Seq::empty());
}

proof fn products(outer: Seq<Seq<Seq<char>>>, inner: Seq<Seq<Seq<char>>>)
    ensures
        are_products(outer, inner, combined(outer, inner)),
    decreases outer.len(),
{
    let sets = combined(outer, inner);
    let m = inner.len() as int;
    if outer.len() == 0 {
        assert(0 * m == 0);
    } else {
        let init = outer.drop_last();
        let n = init.len() as int;
        products(init, inner);
        let start = combined(init, inner);
        let more = inner.map_values(|set: Seq<Seq<char>>| outer.last() + set);
        assert(sets == start + more);
        assert((n + 1) * m == n * m + m) by (nonlinear_arith);
        assert forall|a: int, b: int| 0 <= a < outer.len() && 0 <= b < inner.len() implies sets[a
            * inner.len() + b] == #[trigger] outer[a] + #[trigger] inner[b] by {
            if a < n {
                assert(0 <= a * m && a * m + m <= n * m) by (nonlinear_arith)
                    requires
                        0 <= a < n,
                        0 <= m,
                ;
                assert(init[a] == outer[a]);
                assert(start[a * m + b] == init[a] + inner[b]);
            } else {
                assert(more[b] == outer.last() + inner[b]);
            }
        }
    }
}

/// The strings, the time and the dimensions of an entry.
proof fn strings_of_items(s: Settings, items: Seq<ItemModel>, multiplicity: Option<u64>) -> (found: (
    Seq<Seq<char>>,
    Seq<int>,
))
    requires
        written(s, items, multiplicity).errors.len() == 0,
    ensures
        strings_fit(items, found.0, found.1),
        written(s, items, multiplicity).strings == after_commas(found.0),
    decreases items.len(),
{
    let w = written(s, items, multiplicity);
    if items.len() == 0 {
        selects_none(|i: int| is_property(items[i]));
        let none = Seq::<Seq<char>>::empty();
        after_commas_is_joined(none);
        assert(after_commas(none) =~= Seq::empty());
        (none, Seq::empty())
    } else {
        let init = items.drop_last();
        let n = init.len();
        no_errors_before(s, items, multiplicity);
        let (strings, at) = strings_of_items(s, init, multiplicity);
        let before = written(s, init, multiplicity);
        let last = items[n as int];
        let f = |i: int| is_property(init[i]);
        let g = |i: int| is_property(items[i]);
        assert forall|i: int| 0 <= i < n implies #[trigger] f(i) == g(i) by {
            assert(init[i] == items[i]);
        }
        selects_more(at, n, f, g);
        assert forall|k: int| 0 <= k < strings.len() implies is_property_text(
            items[at[k]],
            #[trigger] strings[k],
        ) by {
            assert(init[at[k]] == items[at[k]]);
        }
        if let ItemModel::Config(ConfigModel::EntryDimensions(sets)) = last {
            notes_keep_texts(s, before, sets);
        }
        if is_property(last) {
            reveal_strlit(",");
            let name = last->Value_0;
            let json = match last->Value_1 {
                ValueModel::Text(s) => json_quoted(s),
                ValueModel::List(list) => "["@ + joined(
                    elements(Dialect::Emf, false, list),
                    seq![','],
                ) + "]"@,
                ValueModel::Object(fields) => "{"@ + joined(
                    members(Dialect::Emf, fields),
                    seq![','],
                ) + "}"@,
                _ => arbitrary(),
            };
            let member = json_quoted(name) + ":"@ + json;
            after_commas_push(strings, member);
            assert(w.strings == before.strings + member_name(name) + json);
            assert(w.strings =~= after_commas(strings) + seq![','] + member);
            let more = strings.push(member);
            let more_at = at.push(n as int);
            assert forall|k: int| 0 <= k < more.len() implies is_property_text(
                items[more_at[k]],
                #[trigger] more[k],
            ) by {
                if k < strings.len() {
                    assert(more[k] == strings[k]);
                }
            }
            (more, more_at)
        } else {
            assert(w.strings == before.strings);
            (strings, at)
        }
    }
}

proof fn times_of_items(s: Settings, items: Seq<ItemModel>, multiplicity: Option<u64>)
    requires
        written(s, items, multiplicity).errors.len() == 0,
    ensures
        written(s, items, multiplicity).timestamp matches Some(t) ==> exists|i: int|
            0 <= i < items.len() && #[trigger] items[i] == ItemModel::Timestamp(t),
        written(s, items, multiplicity).timestamp is None ==> forall|i: int|
            0 <= i < items.len() ==> !(#[trigger] items[i] is Timestamp),
    decreases items.len(),
{
    let w = written(s, items, multiplicity);
    if items.len() > 0 {
        let init = items.drop_last();
        let n = init.len() as int;
        no_errors_before(s, items, multiplicity);
        times_of_items(s, init, multiplicity);
        let before = written(s, init, multiplicity);
        let last = items[n];
        if let ItemModel::Config(ConfigModel::EntryDimensions(sets)) = last {
            crate::emf::refusals::notes_keep(s, before, sets, Seq::empty());
        }
        if !(last is Timestamp) {
            assert(w.timestamp == before.timestamp);
        }
        if let Some(t) = w.timestamp {
            if last is Timestamp {
                assert(items[n] == ItemModel::Timestamp(t));
            } else {
                let i = choose|i: int|
                    0 <= i < init.len() && #[trigger] init[i] == ItemModel::Timestamp(t);
                assert(items[i] == ItemModel::Timestamp(t));
            }
        } else {
            assert forall|i: int| 0 <= i < items.len() implies !(#[trigger] items[i] is Timestamp) by {
                if i < n {
                    assert(init[i] == items[i]);
                }
            }
        }
    }
}

proof fn dimensions_of_items(s: Settings, items: Seq<ItemModel>, multiplicity: Option<u64>)
    requires
        written(s, items, multiplicity).errors.len() == 0,
    ensures
        are_dimensions_of(s, items, effective_dimensions(s, written(s, items, multiplicity))),
        written(s, items, multiplicity).entry_dimensions is None ==> forall|i: int|
            0 <= i < items.len() ==> !(#[trigger] items[i] matches ItemModel::Config(
                ConfigModel::EntryDimensions(_),
            )),
    decreases items.len(),
{
    let w = written(s, items, multiplicity);
    if items.len() > 0 {
        let init = items.drop_last();
        let n = init.len() as int;
        no_errors_before(s, items, multiplicity);
        dimensions_of_items(s, init, multiplicity);
        let before = written(s, init, multiplicity);
        let last = items[n];
        if let ItemModel::Config(ConfigModel::EntryDimensions(sets)) = last {
            products(s.dimensions, sets);
            assert(w.entry_dimensions == Some(combined(s.dimensions, sets)));
            assert(items[n] == ItemModel::Config(ConfigModel::EntryDimensions(sets)));
        } else {
            assert(w.entry_dimensions == before.entry_dimensions);
            if before.entry_dimensions is None {
                assert forall|i: int| 0 <= i < items.len() implies !(
                #[trigger] items[i] matches ItemModel::Config(ConfigModel::EntryDimensions(_))) by {
                    if i < n {
                        assert(init[i] == items[i]);
                    }
                }
            } else {
                let dimensions = effective_dimensions(s, before);
                if exists|i: int, sets: Seq<Seq<Seq<char>>>|
                    0 <= i < init.len() && #[trigger] init[i] == ItemModel::Config(
                        ConfigModel::EntryDimensions(sets),
                    ) && #[trigger] are_products(s.dimensions, sets, dimensions) {
                    let (i, sets) = choose|i: int, sets: Seq<Seq<Seq<char>>>|
                        0 <= i < init.len() && #[trigger] init[i] == ItemModel::Config(
                            ConfigModel::EntryDimensions(sets),
                        ) && #[trigger] are_products(s.dimensions, sets, dimensions);
                    assert(items[i] == ItemModel::Config(ConfigModel::EntryDimensions(sets)));
                } else {
                    assert forall|i: int| 0 <= i < items.len() implies !(
                    #[trigger] items[i] matches ItemModel::Config(
                        ConfigModel::EntryDimensions(_),
                    )) by {
                        if i < n {
                            assert(init[i] == items[i]);
                        }
                    }
                }
            }
        }
    }
}

pub(crate) proof fn belonging(s: Settings, item: ItemModel, m: MetricModel, key: Seq<(Seq<char>, Seq<char>)>)
    requires
        item matches ItemModel::Value(_, ValueModel::Metric(k)) && k == m,
    ensures
        is_global(s, m) ==> (belongs(s, item, key) <==> key.len() == 0),
        !is_global(s, m) && key.len() == 0 ==> !belongs(s, item, key),
        !is_global(s, m) && sorted_pairs(key) == key ==> (belongs(s, item, key) <==> key
            == sorted_pairs(m.dimensions)),
{
    let own = own_dimensions(s, item);
    vstd::seq_lib::to_multiset_len(own);
    vstd::seq_lib::to_multiset_len(key);
    key_is_in_order(m.dimensions);
    if key.len() == 0 {
        assert(key =~= Seq::empty());
        if is_global(s, m) {
            assert(own =~= Seq::empty());
        }
    }
    if !is_global(s, m) && sorted_pairs(key) == key && belongs(s, item, key) {
        dimension_order_makes_no_difference(m.dimensions, key);
    }
}

/// Whether a group stands for a set.
spec fn group_is_set(
    s: Settings,
    items: Seq<ItemModel>,
    multiplicity: Option<u64>,
    dimensions: Seq<Seq<Seq<char>>>,
    group: Group,
    set: SetModel,
) -> bool {
    &&& group_holds(s, items, multiplicity, group, set.fields, set.definitions)
    &&& group.key == set.key
    &&& set.key.len() > 0
    &&& sorted_pairs(set.key) == set.key
    &&& set.dimensions == extended(dimensions, first_texts(set.key))
}

/// Whether groups stand for sets, and each metric with dimensions of its own belongs to one.
spec fn groups_are_sets(
    s: Settings,
    items: Seq<ItemModel>,
    multiplicity: Option<u64>,
    dimensions: Seq<Seq<Seq<char>>>,
    groups: Seq<Group>,
    sets: Seq<SetModel>,
) -> bool {
    &&& groups.len() == sets.len()
    &&& forall|g: int|
        0 <= g < sets.len() ==> group_is_set(
            s,
            items,
            multiplicity,
            dimensions,
            #[trigger] groups[g],
            sets[g],
        )
    &&& forall|g: int, h: int|
        0 <= g < h < groups.len() ==> (#[trigger] groups[g]).key != (#[trigger] groups[h]).key
    &&& forall|i: int|
        0 <= i < items.len() && own_dimensions(s, #[trigger] items[i]).len() > 0 ==> exists|g: int|
            0 <= g < groups.len() && belongs(s, items[i], (#[trigger] groups[g]).key)
}

/// One more item that is no metric with dimensions of its own leaves the groups as they are.
proof fn groups_without(
    s: Settings,
    items: Seq<ItemModel>,
    multiplicity: Option<u64>,
    dimensions: Seq<Seq<Seq<char>>>,
    groups: Seq<Group>,
    sets: Seq<SetModel>,
)
    requires
        items.len() > 0,
        groups_are_sets(s, items.drop_last(), multiplicity, dimensions, groups, sets),
        own_dimensions(s, items.last()).len() == 0,
    ensures
        groups_are_sets(s, items, multiplicity, dimensions, groups, sets),
{
    let init = items.drop_last();
    assert forall|g: int| 0 <= g < sets.len() implies group_is_set(
        s,
        items,
        multiplicity,
        dimensions,
        #[trigger] groups[g],
        sets[g],
    ) by {
        assert(group_is_set(s, init, multiplicity, dimensions, groups[g], sets[g]));
        vstd::seq_lib::to_multiset_len(own_dimensions(s, items.last()));
        vstd::seq_lib::to_multiset_len(groups[g].key);
        group_without(s, items, multiplicity, groups[g]);
    }
    assert forall|i: int|
        0 <= i < items.len() && own_dimensions(s, #[trigger] items[i]).len() > 0 implies exists|
        g: int,
    |
        0 <= g < groups.len() && belongs(s, items[i], (#[trigger] groups[g]).key) by {
        assert(items[i] == init[i]);
    }
}

/// The groups with one for a key, if there was none.
proof fn groups_with_key(
    s: Settings,
    items: Seq<ItemModel>,
    multiplicity: Option<u64>,
    w: WriterModel,
    groups: Seq<Group>,
    key: Seq<(Seq<char>, Seq<char>)>,
) -> (after: Seq<Group>)
    requires
        groups_are_sets(s, items, multiplicity, effective_dimensions(s, w), groups, w.sets),
        key.len() > 0,
        sorted_pairs(key) == key,
    ensures
        groups_are_sets(
            s,
            items,
            multiplicity,
            effective_dimensions(s, w),
            after,
            with_set(s, w, key).sets,
        ),
        set_keys(with_set(s, w, key).sets).contains(key),
{
    let dimensions = effective_dimensions(s, w);
    let sets = with_set(s, w, key).sets;
    if set_keys(w.sets).contains(key) {
        groups
    } else {
        assert forall|i: int| 0 <= i < items.len() implies !belongs(s, #[trigger] items[i], key) by {
            if belongs(s, items[i], key) {
                vstd::seq_lib::to_multiset_len(own_dimensions(s, items[i]));
                vstd::seq_lib::to_multiset_len(key);
                let g = choose|g: int|
                    0 <= g < groups.len() && belongs(s, items[i], (#[trigger] groups[g]).key);
                assert(group_is_set(s, items, multiplicity, dimensions, groups[g], w.sets[g]));
                dimension_order_makes_no_difference(groups[g].key, key);
                assert(set_keys(w.sets)[g] == key);
            }
        }
        let group = empty_group(s, items, multiplicity, key);
        let after = groups.push(group);
        assert(set_keys(sets)[w.sets.len() as int] == key);
        assert forall|g: int| 0 <= g < sets.len() implies group_is_set(
            s,
            items,
            multiplicity,
            dimensions,
            #[trigger] after[g],
            sets[g],
        ) by {
            if g < w.sets.len() {
                assert(after[g] == groups[g]);
                assert(sets[g] == w.sets[g]);
            }
        }
        assert forall|g: int, h: int| 0 <= g < h < after.len() implies (#[trigger] after[g]).key != (
        #[trigger] after[h]).key by {
            assert(after[g] == groups[g]);
            if h < groups.len() {
                assert(after[h] == groups[h]);
            } else {
                assert(group_is_set(s, items, multiplicity, dimensions, groups[g], w.sets[g]));
                assert(set_keys(w.sets)[g] == groups[g].key);
            }
        }
        assert forall|i: int|
            0 <= i < items.len() && own_dimensions(s, #[trigger] items[i]).len() > 0 implies exists|
            g: int,
        |
            0 <= g < after.len() && belongs(s, items[i], (#[trigger] after[g]).key) by {
            let g = choose|g: int|
                0 <= g < groups.len() && belongs(s, items[i], (#[trigger] groups[g]).key);
            assert(after[g] == groups[g]);
        }
        after
    }
}

/// The groups with one more metric that has dimensions of its own.
proof fn groups_with_metric(
    s: Settings,
    items: Seq<ItemModel>,
    multiplicity: Option<u64>,
    w: WriterModel,
    groups: Seq<Group>,
    name: Seq<char>,
    m: MetricModel,
) -> (after: Seq<Group>)
    requires
        items.len() > 0,
        groups_are_sets(
            s,
            items.drop_last(),
            multiplicity,
            effective_dimensions(s, w),
            groups,
            w.sets,
        ),
        items.last() == ItemModel::Value(name, ValueModel::Metric(m)),
        !is_global(s, m),
    ensures
        ({
            let key = sorted_pairs(m.dimensions);
            let sets = with_set(s, w, key).sets;
            let i = set_position(with_set(s, w, key), key);
            groups_are_sets(
                s,
                items,
                multiplicity,
                effective_dimensions(s, w),
                after,
                sets.update(
                    i,
                    SetModel {
                        fields: fields_with_metric(
                            sets[i].fields,
                            name,
                            m.distribution,
                            multiplicity,
                        ),
                        definitions: definitions_with_metric(
                            sets[i].definitions,
                            name,
                            m.distribution,
                            multiplicity,
                            m.unit,
                            m.flags,
                        ),
                        ..sets[i]
                    },
                ),
            )
        }),
{
    let init = items.drop_last();
    let dimensions = effective_dimensions(s, w);
    let key = sorted_pairs(m.dimensions);
    key_is_in_order(m.dimensions);
    let middle = groups_with_key(s, init, multiplicity, w, groups, key);
    let sets = with_set(s, w, key).sets;
    let i = set_position(with_set(s, w, key), key);
    assert(set_keys(sets)[i] == key);
    assert(group_is_set(s, init, multiplicity, dimensions, middle[i], sets[i]));
    belonging(s, items.last(), m, key);
    let grown = group_with_metric(
        s,
        items,
        multiplicity,
        middle[i],
        sets[i].fields,
        sets[i].definitions,
        name,
        m,
    );
    let after = middle.update(i, grown);
    let sets_after = sets.update(
        i,
        SetModel {
            fields: fields_with_metric(sets[i].fields, name, m.distribution, multiplicity),
            definitions: definitions_with_metric(
                sets[i].definitions,
                name,
                m.distribution,
                multiplicity,
                m.unit,
                m.flags,
            ),
            ..sets[i]
        },
    );
    assert forall|g: int| 0 <= g < sets_after.len() implies group_is_set(
        s,
        items,
        multiplicity,
        dimensions,
        #[trigger] after[g],
        sets_after[g],
    ) by {
        if g != i {
            assert(after[g] == middle[g]);
            assert(sets_after[g] == sets[g]);
            assert(group_is_set(s, init, multiplicity, dimensions, middle[g], sets[g]));
            assert(middle[g].key != middle[i].key);
            belonging(s, items.last(), m, middle[g].key);
            group_without(s, items, multiplicity, middle[g]);
        }
    }
    assert forall|g: int, h: int| 0 <= g < h < after.len() implies (#[trigger] after[g]).key != (
    #[trigger] after[h]).key by {
        assert(after[g].key == middle[g].key);
        assert(after[h].key == middle[h].key);
    }
    assert forall|k: int|
        0 <= k < items.len() && own_dimensions(s, #[trigger] items[k]).len() > 0 implies exists|
        g: int,
    |
        0 <= g < after.len() && belongs(s, items[k], (#[trigger] after[g]).key) by {
        if k < init.len() {
            assert(init[k] == items[k]);
            let g = choose|g: int|
                0 <= g < middle.len() && belongs(s, items[k], (#[trigger] middle[g]).key);
            assert(after[g].key == middle[g].key);
        } else {
            assert(belongs(s, items[k], after[i].key));
        }
    }
    after
}

/// The groups of an entry.
proof fn groups_of_items(s: Settings, items: Seq<ItemModel>, multiplicity: Option<u64>) -> (found: (
    Group,
    Seq<Group>,
))
    requires
        written(s, items, multiplicity).errors.len() == 0,
    ensures
        ({
            let w = written(s, items, multiplicity);
            &&& group_holds(s, items, multiplicity, found.0, w.fields, w.definitions)
            &&& found.0.key.len() == 0
            &&& groups_are_sets(
                s,
                items,
                multiplicity,
                effective_dimensions(s, w),
                found.1,
                w.sets,
            )
        }),
    decreases items.len(),
{
    let w = written(s, items, multiplicity);
    if items.len() == 0 {
        (empty_group(s, items, multiplicity, Seq::empty()), Seq::empty())
    } else {
        let init = items.drop_last();
        no_errors_before(s, items, multiplicity);
        let (global, groups) = groups_of_items(s, init, multiplicity);
        let before = written(s, init, multiplicity);
        let last = items.last();
        let dimensions = effective_dimensions(s, w);
        assert(w == with_item_written(s, before, last, multiplicity));
        match last {
            ItemModel::Value(name, ValueModel::Metric(m)) => {
                belonging(s, last, m, global.key);
                if is_global(s, m) {
                    let grown = group_with_metric(
                        s,
                        items,
                        multiplicity,
                        global,
                        before.fields,
                        before.definitions,
                        name,
                        m,
                    );
                    assert(w.sets == before.sets);
                    groups_without(s, items, multiplicity, dimensions, groups, w.sets);
                    (grown, groups)
                } else {
                    group_without(s, items, multiplicity, global);
                    let after = groups_with_metric(s, items, multiplicity, before, groups, name, m);
                    (global, after)
                }
            },
            _ => {
                if let ItemModel::Config(ConfigModel::EntryDimensions(sets)) = last {
                    notes_keep_texts(s, before, sets);
                    assert(before.sets.len() == 0);
                }
                assert(w.sets == before.sets);
                assert(w.fields == before.fields);
                assert(w.definitions == before.definitions);
                group_without(s, items, multiplicity, global);
                assert(groups_are_sets(s, init, multiplicity, dimensions, groups, w.sets));
                groups_without(s, items, multiplicity, dimensions, groups, w.sets);
                (global, groups)
            },
        }
    }
}

// ---------------------------------------------------------------------------
// Why they do: lines
// ---------------------------------------------------------------------------

proof fn line_is_text(
    s: Settings,
    dimensions: Seq<Seq<Seq<char>>>,
    definitions: Seq<Seq<char>>,
    further: Seq<char>,
    millis: nat,
    parts: Seq<Seq<char>>,
)
    ensures
        crate::emf::model::line(
            s,
            dimensions,
            joined(definitions, seq![',']),
            further,
            millis,
            after_commas(parts),
        ) == line_text(s, dimensions, definitions, further, millis, parts),
{
    let joined_definitions = joined(definitions, seq![',']);
    assert(crate::emf::model::directives(s.namespaces, dimensions, joined_definitions)
        =~= s.namespaces.map_values(
        |namespace: Seq<char>| publication(namespace, dimensions, definitions),
    ));
}

proof fn instances_are_members(key: Seq<(Seq<char>, Seq<char>)>)
    ensures
        instance_fields(key) == after_commas(instances(key)),
{
    reveal_strlit(",");
    let f = |m: Seq<char>| seq![','] + m;
    let fields = key.map_values(
        |p: (Seq<char>, Seq<char>)| member_name(p.0) + json_quoted(p.1),
    );
    let after = instances(key).map_values(f);
    assert forall|i: int| 0 <= i < key.len() implies #[trigger] fields[i] == after[i] by {
        assert(fields[i] =~= after[i]);
    }
    assert(fields =~= after);
}

/// The groups with members, and the lines for them.
proof fn lines_of_groups(
    s: Settings,
    items: Seq<ItemModel>,
    multiplicity: Option<u64>,
    w: WriterModel,
    r: Report,
    groups: Seq<Group>,
    sets: Seq<SetModel>,
) -> (at: Seq<int>)
    requires
        w.strings == after_commas(r.strings),
        groups.len() == sets.len(),
        forall|g: int|
            0 <= g < sets.len() ==> group_is_set(
                s,
                items,
                multiplicity,
                r.dimensions,
                #[trigger] groups[g],
                sets[g],
            ),
    ensures
        selects(at, groups.len(), |g: int| groups[g].members.len() > 0),
        set_lines(s, w, sets, r.millis) == Seq::new(
            at.len(),
            |k: int| group_line(s, r, groups[at[k]]),
        ),
    decreases sets.len(),
{
    if sets.len() == 0 {
        selects_none(|g: int| groups[g].members.len() > 0);
        let none = Seq::<int>::empty();
        assert(set_lines(s, w, sets, r.millis) =~= Seq::new(
            none.len(),
            |k: int| group_line(s, r, groups[none[k]]),
        ));
        none
    } else {
        let init = groups.drop_last();
        let n = init.len();
        assert forall|g: int| 0 <= g < n implies group_is_set(
            s,
            items,
            multiplicity,
            r.dimensions,
            #[trigger] init[g],
            sets.drop_last()[g],
        ) by {
            assert(init[g] == groups[g]);
        }
        let before = lines_of_groups(s, items, multiplicity, w, r, init, sets.drop_last());
        let f = |g: int| init[g].members.len() > 0;
        let h = |g: int| groups[g].members.len() > 0;
        assert forall|i: int| 0 <= i < n implies #[trigger] f(i) == h(i) by {
            assert(init[i] == groups[i]);
        }
        selects_more(before, n, f, h);
        let group = groups[n as int];
        let set = sets[n as int];
        assert(group_is_set(s, items, multiplicity, r.dimensions, group, set));
        after_commas_is_joined(group.members);
        let lines = set_lines(s, w, sets, r.millis);
        if h(n as int) {
            let at = before.push(n as int);
            instances_are_members(group.key);
            after_commas_then(instances(group.key), group.members);
            after_commas_then(instances(group.key) + group.members, r.strings);
            let names = group.key.map_values(|p: (Seq<char>, Seq<char>)| p.0);
            let dimensions = r.dimensions.map_values(|set: Seq<Seq<char>>| set + names);
            assert(set.dimensions =~= dimensions);
            line_is_text(
                s,
                dimensions,
                group.definitions,
                Seq::empty(),
                r.millis,
                instances(group.key) + group.members + r.strings,
            );
            assert(group_line(s, r, group) == line_text(
                s,
                dimensions,
                group.definitions,
                Seq::empty(),
                r.millis,
                instances(group.key) + group.members + r.strings,
            ));
            assert(lines.last() == group_line(s, r, group));
            assert(lines =~= Seq::new(at.len(), |k: int| group_line(s, r, groups[at[k]])));
            at
        } else {
            assert(lines =~= Seq::new(before.len(), |k: int| group_line(s, r, groups[before[k]])));
            before
        }
    }
}

/// The output of an entry that is accepted: a line for each group of metrics that share dimensions of
/// their own, and one for the others. In its line, each metric that has a number is a member with
/// all of its numbers and with how often each of them counts, and it is published to each namespace
/// with its unit. Each line has the time and all strings of the entry.
pub proof fn entries_are_written(
    s: Settings,
    items: Seq<ItemModel>,
    multiplicity: Option<u64>,
    now: i128,
)
    requires
        formatted(s, items, multiplicity, now) is Ok,
    ensures
        exists|r: Report| #[trigger]
            is_output_of(
                s,
                items,
                multiplicity,
                now,
                r,
                formatted(s, items, multiplicity, now)->Ok_0,
            ),
{
    let w = written(s, items, multiplicity);
    let text = formatted(s, items, multiplicity, now)->Ok_0;
    let (strings, strings_at) = strings_of_items(s, items, multiplicity);
    let (global, groups) = groups_of_items(s, items, multiplicity);
    times_of_items(s, items, multiplicity);
    dimensions_of_items(s, items, multiplicity);
    let time = match w.timestamp {
        Some(t) => t,
        None => now,
    };
    millis_of(time);
    let start = Report {
        time,
        millis: epoch_millis(time) as nat,
        dimensions: effective_dimensions(s, w),
        strings,
        strings_at,
        global,
        groups,
    };
    let at = lines_of_groups(s, items, multiplicity, w, start, groups, w.sets);
    let chosen = Seq::new(at.len(), |k: int| groups[at[k]]);
    let r = Report { groups: chosen, ..start };
    let lines = set_lines(s, w, w.sets, r.millis);
    let group_lines = chosen.map_values(|g: Group| group_line(s, r, g));
    assert(lines =~= group_lines);
    let has = |g: int| groups[g].members.len() > 0;
    assert(groups_fit(s, items, multiplicity, chosen)) by {
        assert forall|g: int| 0 <= g < chosen.len() implies {
            &&& group_fits(s, items, multiplicity, #[trigger] chosen[g])
            &&& chosen[g].key.len() > 0
            &&& in_order(chosen[g].key)
            &&& chosen[g].members.len() > 0
        } by {
            assert(has(at[g]));
            assert(group_is_set(
                s,
                items,
                multiplicity,
                effective_dimensions(s, w),
                groups[at[g]],
                w.sets[at[g]],
            ));
            key_is_in_order(chosen[g].key);
        }
        assert forall|g: int, h: int| 0 <= g < h < chosen.len() implies (
        #[trigger] chosen[g]).key.to_multiset() != (#[trigger] chosen[h]).key.to_multiset() by {
            assert(at[g] < at[h]);
            assert(groups[at[g]].key != groups[at[h]].key);
            assert(group_is_set(
                s,
                items,
                multiplicity,
                effective_dimensions(s, w),
                groups[at[g]],
                w.sets[at[g]],
            ));
            assert(group_is_set(
                s,
                items,
                multiplicity,
                effective_dimensions(s, w),
                groups[at[h]],
                w.sets[at[h]],
            ));
            if chosen[g].key.to_multiset() == chosen[h].key.to_multiset() {
                dimension_order_makes_no_difference(chosen[g].key, chosen[h].key);
            }
        }
        assert forall|i: int|
            0 <= i < items.len() && is_numeric(#[trigger] items[i]) && own_dimensions(
                s,
                items[i],
            ).len() > 0 implies exists|g: int|
            0 <= g < chosen.len() && belongs(s, items[i], (#[trigger] chosen[g]).key) by {
            let g = choose|g: int|
                0 <= g < groups.len() && belongs(s, items[i], (#[trigger] groups[g]).key);
            assert(group_is_set(
                s,
                items,
                multiplicity,
                effective_dimensions(s, w),
                groups[g],
                w.sets[g],
            ));
            let belonging = |i: int| is_numeric(items[i]) && belongs(s, items[i], groups[g].key);
            assert(belonging(i));
            assert(groups[g].members_at.contains(i));
            assert(has(g));
            assert(at.contains(g));
            let k = choose|k: int| 0 <= k < at.len() && at[k] == g;
            assert(chosen[k] == groups[g]);
        }
    }
    after_commas_is_joined(global.members);
    after_commas_then(global.members, strings);
    line_is_text(
        s,
        r.dimensions,
        global.definitions,
        s.directives,
        r.millis,
        global.members + strings,
    );
    let last = plain_line(s, r);
    assert(text == concat(output_lines(s, w, now)));
    if lines.len() == 0 || w.fields.len() > 0 {
        assert(lines.push(last).drop_last() =~= lines);
        assert(output_lines(s, w, now) == lines.push(last));
        assert(text == concat(lines) + last);
    } else {
        assert(text =~= concat(lines) + Seq::<char>::empty());
    }
    assert(is_output_of(s, items, multiplicity, now, r, text));
}

// ---------------------------------------------------------------------------
// Single metrics of an entry
// ---------------------------------------------------------------------------

proof fn part_stands_after_comma(parts: Seq<Seq<char>>, k: int)
    requires
        0 <= k < parts.len(),
    ensures
        stands_in(seq![','] + parts[k], after_commas(parts)),
{
    let first = parts.take(k);
    let rest = parts.skip(k + 1);
    let none = Seq::<char>::empty();
    assert(parts =~= first.push(parts[k]) + rest);
    after_commas_then(first.push(parts[k]), rest);
    after_commas_push(first, parts[k]);
    assert(after_commas(parts) =~= after_commas(first) + (seq![','] + parts[k]) + after_commas(rest));
}

proof fn member_stands_in_line(
    s: Settings,
    dimensions: Seq<Seq<Seq<char>>>,
    definitions: Seq<Seq<char>>,
    further: Seq<char>,
    millis: nat,
    parts: Seq<Seq<char>>,
    k: int,
)
    requires
        0 <= k < parts.len(),
    ensures
        stands_in(
            seq![','] + parts[k],
            line_text(s, dimensions, definitions, further, millis, parts),
        ),
{
    part_stands_after_comma(parts, k);
    let line = line_text(s, dimensions, definitions, further, millis, parts);
    let head = "{\"_aws\":{\"CloudWatchMetrics\":["@ + joined(
        s.namespaces.map_values(
            |namespace: Seq<char>| publication(namespace, dimensions, definitions),
        ),
        seq![','],
    ) + further + (match s.log_group {
        Some(name) => "],\"LogGroupName\":"@ + json_quoted(name) + ",\"Timestamp\":"@,
        None => "],\"Timestamp\":"@,
    }) + decimal(millis) + "}"@;
    stands_further(seq![','] + parts[k], after_commas(parts), head, "}\n"@);
}

proof fn part_stands_in_concat(parts: Seq<Seq<char>>, k: int)
    requires
        0 <= k < parts.len(),
    ensures
        stands_in(parts[k], concat(parts)),
    decreases parts.len(),
{
    let init = parts.drop_last();
    let none = Seq::<char>::empty();
    if k < init.len() {
        part_stands_in_concat(init, k);
        stands_further(parts[k], concat(init), none, parts.last());
        assert(none + concat(init) + parts.last() =~= concat(parts));
    } else {
        assert(concat(parts) =~= concat(init) + parts[k] + none);
    }
}

/// Whether a text has a line in which a metric is a member, and in which each of these dimensions is
/// one with its instance.
pub open spec fn is_in_line(
    text: Seq<char>,
    line: Seq<char>,
    member: Seq<char>,
    dimensions: Seq<(Seq<char>, Seq<char>)>,
) -> bool {
    &&& stands_in(line, text)
    &&& stands_in(seq![','] + member, line)
    &&& forall|d: int|
        0 <= d < dimensions.len() ==> stands_in(
            seq![','] + json_quoted((#[trigger] dimensions[d]).0) + ":"@ + json_quoted(
                dimensions[d].1,
            ),
            line,
        )
}

/// Each metric of an accepted entry that has a number, with or without dimensions of its own, stands
/// in a line that names the instances of its dimensions. Where the entry stands for `n` entries, it
/// stands there with its values and counts, and each count is `n`, or for repeated observations `n`
/// times their number.
pub proof fn metrics_stand_in_their_lines(
    s: Settings,
    items: Seq<ItemModel>,
    multiplicity: Option<u64>,
    now: i128,
    i: int,
    name: Seq<char>,
    m: MetricModel,
)
    requires
        formatted(s, items, multiplicity, now) is Ok,
        0 <= i < items.len(),
        items[i] == ItemModel::Value(name, ValueModel::Metric(m)),
        any_number(m.distribution),
    ensures
        exists|
            line: Seq<char>,
            member: Seq<char>,
            at: Seq<int>,
            values: Seq<Seq<char>>,
            times: Seq<Seq<char>>,
        | #[trigger]
            is_member_text(name, m, multiplicity, at, values, times, member) && #[trigger]
            is_in_line(
                formatted(s, items, multiplicity, now)->Ok_0,
                line,
                member,
                own_dimensions(s, items[i]),
            ),
{
    entries_are_written(s, items, multiplicity, now);
    let text = formatted(s, items, multiplicity, now)->Ok_0;
    let r = choose|r: Report| #[trigger] is_output_of(s, items, multiplicity, now, r, text);
    let own = own_dimensions(s, items[i]);
    let group_lines = r.groups.map_values(|g: Group| group_line(s, r, g));
    let none = Seq::<char>::empty();
    vstd::seq_lib::to_multiset_len(own);
    let (line, member) = if own.len() == 0 {
        let group = r.global;
        vstd::seq_lib::to_multiset_len(group.key);
        assert(own =~= group.key);
        let chosen = |i: int| is_numeric(items[i]) && belongs(s, items[i], group.key);
        assert(chosen(i));
        assert(group.members_at.contains(i));
        let k = choose|k: int| 0 <= k < group.members_at.len() && group.members_at[k] == i;
        assert(is_member_of(items[group.members_at[k]], multiplicity, group.members[k]));
        let parts = group.members + r.strings;
        assert(parts[k] == group.members[k]);
        member_stands_in_line(
            s,
            r.dimensions,
            group.definitions,
            s.directives,
            r.millis,
            parts,
            k,
        );
        let line = plain_line(s, r);
        assert(text =~= concat(group_lines) + line + none);
        (line, group.members[k])
    } else {
        let g = choose|g: int|
            0 <= g < r.groups.len() && belongs(s, items[i], (#[trigger] r.groups[g]).key);
        let group = r.groups[g];
        let chosen = |i: int| is_numeric(items[i]) && belongs(s, items[i], group.key);
        assert(chosen(i));
        assert(group.members_at.contains(i));
        let k = choose|k: int| 0 <= k < group.members_at.len() && group.members_at[k] == i;
        assert(is_member_of(items[group.members_at[k]], multiplicity, group.members[k]));
        let line = group_line(s, r, group);
        member_stands_in_group_line(s, r, group, k);
        instances_stand_in_group_line(s, r, group, own);
        part_stands_in_concat(group_lines, g);
        let tail = if r.groups.len() == 0 || r.global.members.len() > 0 {
            plain_line(s, r)
        } else {
            none
        };
        stands_further(line, concat(group_lines), none, tail);
        assert(none + concat(group_lines) + tail =~= text);
        (line, group.members[k])
    };
    assert(has_member_text(name, m, multiplicity, member));
    let (at, values, times) = choose|
        at: Seq<int>,
        values: Seq<Seq<char>>,
        times: Seq<Seq<char>>,
    | #[trigger] is_member_text(name, m, multiplicity, at, values, times, member);
    assert(is_in_line(text, line, member, own));
}

proof fn member_stands_in_group_line(s: Settings, r: Report, group: Group, k: int)
    requires
        0 <= k < group.members.len(),
    ensures
        stands_in(seq![','] + group.members[k], group_line(s, r, group)),
{
    let parts = instances(group.key) + group.members + r.strings;
    assert(parts[instances(group.key).len() + k] == group.members[k]);
    member_stands_in_line(
        s,
        r.dimensions.map_values(
            |set: Seq<Seq<char>>| set + group.key.map_values(|p: (Seq<char>, Seq<char>)| p.0),
        ),
        group.definitions,
        Seq::empty(),
        r.millis,
        parts,
        instances(group.key).len() + k,
    );
}

proof fn instances_stand_in_group_line(
    s: Settings,
    r: Report,
    group: Group,
    own: Seq<(Seq<char>, Seq<char>)>,
)
    requires
        own.to_multiset() == group.key.to_multiset(),
    ensures
        forall|d: int|
            0 <= d < own.len() ==> stands_in(
                seq![','] + json_quoted((#[trigger] own[d]).0) + ":"@ + json_quoted(own[d].1),
                group_line(s, r, group),
            ),
{
    broadcast use vstd::seq_lib::group_to_multiset_ensures;

    assert forall|d: int| 0 <= d < own.len() implies stands_in(
        seq![','] + json_quoted((#[trigger] own[d]).0) + ":"@ + json_quoted(own[d].1),
        group_line(s, r, group),
    ) by {
        assert(own.contains(own[d]));
        assert(own.to_multiset().count(own[d]) > 0);
        assert(group.key.contains(own[d]));
        let j = choose|j: int| 0 <= j < group.key.len() && group.key[j] == own[d];
        let parts = instances(group.key) + group.members + r.strings;
        assert(parts[j] == instances(group.key)[j]);
        member_stands_in_line(
            s,
            r.dimensions.map_values(
                |set: Seq<Seq<char>>| set + group.key.map_values(|p: (Seq<char>, Seq<char>)| p.0),
            ),
            group.definitions,
            Seq::empty(),
            r.millis,
            parts,
            j,
        );
        assert(seq![','] + parts[j] =~= seq![','] + json_quoted(own[d].0) + ":"@ + json_quoted(
            own[d].1,
        ));
    }
}

} // verus!
