//! What holds of all EMF output.

use vstd::prelude::*;
use vstd::string::*;

use crate::emf::format::{
    default_settings, definition_json, directive_json, resolution_seconds, skipping, slice_lists,
    EmfBuilder, MetricDefinition, MetricDirective, StorageResolution,
};
use crate::emf::metric::{counts, definitions_with_metric, fields_with_metric};
use crate::emf::model::{directive, directives, output_lines, Settings, WriterModel};
use crate::emf::skipped::skipped_names;
use crate::emf::verdicts::is_good_name;
use crate::entry::ItemModel;
use crate::flags::MetricFlags;
use crate::listing::{selects, selects_more, selects_none};
use crate::nested::{emf_number, numbers, Dialect};
use crate::order::{pair_leq, pair_order_is_total, sorted_pairs};
use crate::text::{decimal, joined, json_quoted, json_string_array};
use crate::unit::{unit_name, Unit};
use crate::value::{ObservationModel, ValueModel};

verus! {

// ---------------------------------------------------------------------------
// Metrics
// ---------------------------------------------------------------------------

/// There is a count for each value.
pub proof fn values_and_counts_match(list: Seq<ObservationModel>, multiplicity: Option<u64>)
    ensures
        numbers(Dialect::Emf, list).len() == counts(list, multiplicity).len(),
    decreases list.len(),
{
    if list.len() > 0 {
        values_and_counts_match(list.drop_last(), multiplicity);
    }
}

/// Nothing is left of a metric none of whose observations has a number: neither a field nor a
/// definition, and no separator.
pub proof fn numberless_metrics_leave_no_trace(
    fields: Seq<char>,
    definitions: Seq<char>,
    name: Seq<char>,
    list: Seq<ObservationModel>,
    multiplicity: Option<u64>,
    unit: Unit,
    flags: MetricFlags,
)
    requires
        forall|i: int| 0 <= i < list.len() ==> emf_number(#[trigger] list[i]) is None,
    ensures
        fields_with_metric(fields, name, list, multiplicity) == fields,
        definitions_with_metric(definitions, name, list, multiplicity, unit, flags) == definitions,
{
    no_numbers(list);
}

proof fn no_numbers(list: Seq<ObservationModel>)
    requires
        forall|i: int| 0 <= i < list.len() ==> emf_number(#[trigger] list[i]) is None,
    ensures
        numbers(Dialect::Emf, list).len() == 0,
    decreases list.len(),
{
    if list.len() > 0 {
        let init = list.drop_last();
        assert forall|i: int| 0 <= i < init.len() implies emf_number(#[trigger] init[i]) is None by {
            assert(init[i] == list[i]);
        }
        no_numbers(init);
        assert(emf_number(list[list.len() - 1]) is None);
    }
}

/// In which order the dimensions of a metric are given makes no difference to the set that it goes
/// to.
pub proof fn dimension_order_makes_no_difference(
    a: Seq<(Seq<char>, Seq<char>)>,
    b: Seq<(Seq<char>, Seq<char>)>,
)
    requires
        a.to_multiset() == b.to_multiset(),
    ensures
        sorted_pairs(a) == sorted_pairs(b),
{
    let leq = |x: (Seq<char>, Seq<char>), y: (Seq<char>, Seq<char>)| pair_leq(x, y);
    pair_order_is_total();
    a.lemma_sort_by_ensures(leq);
    b.lemma_sort_by_ensures(leq);
    vstd::seq_lib::lemma_sorted_unique(sorted_pairs(a), sorted_pairs(b), leq);
}

// ---------------------------------------------------------------------------
// Lines
// ---------------------------------------------------------------------------

/// An entry without errors is at least one line, whatever it holds.
pub proof fn entries_have_a_line(s: Settings, w: WriterModel, now: i128)
    ensures
        output_lines(s, w, now).len() >= 1,
{
}

/// Each line has a directive for each namespace, and they differ in the namespace alone.
pub proof fn all_namespaces_are_published_to(
    s: Settings,
    dimensions: Seq<Seq<Seq<char>>>,
    definitions: Seq<char>,
    i: int,
)
    requires
        0 <= i < s.namespaces.len(),
    ensures
        directives(s.namespaces, dimensions, definitions).len() == s.namespaces.len(),
        directives(s.namespaces, dimensions, definitions)[i] == directive(
            s.namespaces[i],
            dimensions,
            definitions,
        ),
{
}

// ---------------------------------------------------------------------------
// Settings
// ---------------------------------------------------------------------------

/// A builder starts with one namespace, with the dimensions that it was given and with all checks.
/// Where checks are left out, all of them are, and nothing else changes.
pub proof fn everything_is_checked_by_default(
    namespace: Seq<char>,
    dimensions: Seq<Seq<Seq<char>>>,
    s: Settings,
    skip: bool,
)
    ensures
        ({
            let d = default_settings(namespace, dimensions);
            &&& d.namespaces.len() == 1 && d.namespaces[0] == namespace
            &&& d.dimensions == dimensions
            &&& d.directives.len() == 0 && d.log_group is None
            &&& !d.skip_unique && !d.skip_dimensions_exist && !d.skip_names && !d.ignore_dimensions
        }),
        ({
            let after = skipping(s, skip);
            &&& skip ==> after.skip_unique && after.skip_dimensions_exist && after.skip_names
            &&& !skip ==> after == s
            &&& after.namespaces == s.namespaces && after.dimensions == s.dimensions
            &&& after.directives == s.directives && after.log_group == s.log_group
            &&& after.ignore_dimensions == s.ignore_dimensions
        }),
{
}

/// A directive of one's own names its dimensions, its metrics and its namespace. A metric has its
/// name, its unit and, if it is given, the seconds from one stored value to the next, which are one
/// or sixty.
pub proof fn directives_are_spelled_out(d: MetricDirective<'_>, m: MetricDefinition<'_>)
    ensures
        m.storage_resolution is None ==> definition_json(m) == "{\"Name\":"@ + json_quoted(m.name@)
            + ",\"Unit\":"@ + json_quoted(unit_name(m.unit)) + "}"@,
        m.storage_resolution == Some(StorageResolution::Second) ==> definition_json(m)
            == "{\"Name\":"@ + json_quoted(m.name@) + ",\"Unit\":"@ + json_quoted(
            unit_name(m.unit),
        ) + ",\"StorageResolution\":1}"@,
        m.storage_resolution == Some(StorageResolution::Minute) ==> definition_json(m)
            == "{\"Name\":"@ + json_quoted(m.name@) + ",\"Unit\":"@ + json_quoted(
            unit_name(m.unit),
        ) + ",\"StorageResolution\":60}"@,
        exists|sets: Seq<Seq<char>>, metrics: Seq<Seq<char>>|
            {
                &&& directive_json(d) == "{\"Dimensions\":["@ + #[trigger] joined(sets, seq![','])
                    + "],\"Metrics\":["@ + #[trigger] joined(metrics, seq![','])
                    + "],\"Namespace\":"@ + json_quoted(d.namespace@) + "}"@
                &&& sets.len() == d.dimensions@.len()
                &&& forall|i: int|
                    0 <= i < sets.len() ==> #[trigger] sets[i] == json_string_array(
                        Seq::new(d.dimensions@[i]@.len(), |j: int| d.dimensions@[i]@[j]@),
                    )
                &&& metrics.len() == d.metrics@.len()
                &&& forall|i: int|
                    0 <= i < metrics.len() ==> #[trigger] metrics[i] == definition_json(
                        d.metrics@[i],
                    )
            },
{
    reveal_strlit("1");
    reveal_strlit("60");
    reveal_strlit("}");
    reveal_strlit(",\"StorageResolution\":");
    reveal_strlit(",\"StorageResolution\":1}");
    reveal_strlit(",\"StorageResolution\":60}");
    reveal_with_fuel(decimal, 3);
    let head = "{\"Name\":"@ + json_quoted(m.name@) + ",\"Unit\":"@ + json_quoted(
        unit_name(m.unit),
    );
    assert(definition_json(m) == head + match m.storage_resolution {
        Some(r) => ",\"StorageResolution\":"@ + decimal(resolution_seconds(r) as nat),
        None => Seq::empty(),
    } + "}"@);
    assert(head + Seq::<char>::empty() + "}"@ =~= head + "}"@);
    assert(decimal(1) =~= "1"@);
    assert(decimal(60) =~= "60"@);
    assert(head + (",\"StorageResolution\":"@ + "1"@) + "}"@ =~= head
        + ",\"StorageResolution\":1}"@);
    assert(head + (",\"StorageResolution\":"@ + "60"@) + "}"@ =~= head
        + ",\"StorageResolution\":60}"@);
    let lists = slice_lists(d.dimensions@);
    let sets = lists.map_values(|set: Seq<Seq<char>>| json_string_array(set));
    let metrics = d.metrics@.map_values(|x: MetricDefinition<'_>| definition_json(x));
    assert forall|i: int| 0 <= i < sets.len() implies #[trigger] sets[i] == json_string_array(
        Seq::new(d.dimensions@[i]@.len(), |j: int| d.dimensions@[i]@[j]@),
    ) by {
        assert(lists[i] =~= Seq::new(d.dimensions@[i]@.len(), |j: int| d.dimensions@[i]@[j]@));
    }
    assert(directive_json(d) == "{\"Dimensions\":["@ + joined(sets, seq![','])
        + "],\"Metrics\":["@ + joined(metrics, seq![',']) + "],\"Namespace\":"@ + json_quoted(
        d.namespace@,
    ) + "}"@);
}

/// Whether an item is a metric under a good name that has an observation without a number.
pub open spec fn is_incomplete(s: Settings, item: ItemModel) -> bool {
    item matches ItemModel::Value(name, ValueModel::Metric(m)) && is_good_name(s, name) && exists|
        i: int,
    |
        0 <= i < m.distribution.len() && emf_number(#[trigger] m.distribution[i]) is None
}

/// The metrics that are written without some of their observations are told of in order, each once
/// for each time that it stands in the entry.
pub proof fn incomplete_metrics_are_told_of(s: Settings, items: Seq<ItemModel>) -> (at: Seq<int>)
    ensures
        selects(at, items.len(), |i: int| is_incomplete(s, items[i])),
        skipped_names(s, items).len() == at.len(),
        forall|k: int|
            0 <= k < at.len() ==> (items[at[k]] matches ItemModel::Value(name, _)
                && #[trigger] skipped_names(s, items)[k] == name),
    decreases items.len(),
{
    if items.len() == 0 {
        selects_none(|i: int| is_incomplete(s, items[i]));
        Seq::empty()
    } else {
        let init = items.drop_last();
        let n = init.len();
        let before = incomplete_metrics_are_told_of(s, init);
        let f = |i: int| is_incomplete(s, init[i]);
        let g = |i: int| is_incomplete(s, items[i]);
        assert forall|i: int| 0 <= i < n implies #[trigger] f(i) == g(i) by {
            assert(init[i] == items[i]);
        }
        selects_more(before, n, f, g);
        let at = if g(n as int) {
            before.push(n as int)
        } else {
            before
        };
        let names = skipped_names(s, items);
        let earlier = skipped_names(s, init);
        assert(names == if g(n as int) {
            earlier.push(items.last()->Value_0)
        } else {
            earlier
        });
        assert forall|k: int| 0 <= k < at.len() implies (items[at[k]] matches ItemModel::Value(
            name,
            _,
        ) && #[trigger] skipped_names(s, items)[k] == name) by {
            if k < before.len() {
                assert(at[k] == before[k]);
                assert(names[k] == earlier[k]);
                assert(init[before[k]] == items[before[k]]);
            }
        }
        at
    }
}

/// Each step of a builder changes one setting, as it is asked to, and leaves the others as they are.
pub proof fn steps_change_one_setting(
    before: EmfBuilder,
    after: EmfBuilder,
    allow: bool,
    text: String,
    d: MetricDirective<'_>,
)
    ensures
        call_ensures(EmfBuilder::allow_ignored_dimensions, (before, allow), after) ==> after@
            == (Settings { ignore_dimensions: allow, ..before@ }),
        call_ensures(EmfBuilder::allow_dimensions_with_no_data, (before, allow), after) ==> after@
            == (Settings { skip_dimensions_exist: allow, ..before@ }),
        call_ensures(EmfBuilder::skip_all_validations, (before, true), after) ==> after@
            == (Settings {
            skip_unique: true,
            skip_dimensions_exist: true,
            skip_names: true,
            ..before@
        }),
        call_ensures(EmfBuilder::skip_all_validations, (before, false), after) ==> after@
            == before@,
        call_ensures(EmfBuilder::add_namespace, (before, text), after) ==> after@ == (Settings {
            namespaces: before@.namespaces.push(text@),
            ..before@
        }),
        call_ensures(EmfBuilder::log_group_name, (before, text), after) ==> after@ == (Settings {
            log_group: Some(text@),
            ..before@
        }),
        call_ensures(EmfBuilder::directive, (before, d), after) ==> after@ == (Settings {
            directives: before@.directives + ","@ + directive_json(d),
            ..before@
        }),
{
}

} // verus!
