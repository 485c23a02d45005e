//! All EMF output is JSON.

use vstd::prelude::*;
use vstd::string::*;

use crate::emf::format::{
    definition_json, directive_json, resolution_seconds, slice_lists, MetricDefinition,
    MetricDirective,
};
use crate::emf::lines::Place;
use crate::emf::metric::{
    count, counts, definitions_with_metric, fields_with_metric, member_name, metric_definition,
    metric_field, with_item,
};
use crate::emf::model::{
    before_timestamp, dimensions_json, directive, directives, effective_dimensions, fresh,
    initial_lines, instance_fields, is_global, line, name_error, output_lines, set_keys, set_lines,
    set_position, split_reason, with_dimension_notes, with_dimension_set_notes, with_error,
    with_items_written, with_metric_note, with_set, with_set_metric, with_value, SetModel, Settings,
    WriterModel,
};
use crate::entry::{epoch_millis, ConfigModel, ItemModel};
use crate::flags::{MetricFlags, StorageMode};
use crate::grammar::{
    all_json, all_members, decimal_is_json, is_json, is_json_line, is_member, is_string,
    json_is_printable, list_is_json, list_of, member_of, object_is_json, object_of, plain_is_string,
    quoted_is_string,
};
use crate::nested::{
    elements, elements_are_json, items_numeric, members, members_are_json, numbers,
    numbers_are_json, observation_is_json, observations_numeric, value_numeric, Dialect,
};
use crate::order::sorted_pairs;
use crate::text::{
    after_commas, after_commas_is_joined, after_commas_push, after_commas_then, decimal, joined,
    joined_push, joined_then, json_quoted, json_string_array,
};
use crate::unit::{unit_name, Unit};
use crate::validate::field_error;
use crate::value::{MetricModel, ObservationModel, ValueModel};

verus! {

// ---------------------------------------------------------------------------
// Texts that are put together bit by bit
// ---------------------------------------------------------------------------

/// Whether a text consists of members, each after a comma.
pub open spec fn are_more_members(s: Seq<char>) -> bool {
    exists|parts: Seq<Seq<char>>| all_members(parts) && s == #[trigger] after_commas(parts)
}

/// Whether a text consists of JSON values, each after a comma.
pub open spec fn are_more_elements(s: Seq<char>) -> bool {
    exists|parts: Seq<Seq<char>>| all_json(parts) && s == #[trigger] after_commas(parts)
}

/// Whether a text consists of JSON values with commas between them.
pub open spec fn are_elements(s: Seq<char>) -> bool {
    exists|parts: Seq<Seq<char>>| all_json(parts) && s == #[trigger] joined(parts, seq![','])
}

proof fn nothing_written()
    ensures
        are_more_members(Seq::empty()),
        are_more_elements(Seq::empty()),
        are_elements(Seq::empty()),
{
    let none = Seq::<Seq<char>>::empty();
    after_commas_is_joined(none);
    assert(after_commas(none) =~= Seq::empty());
    assert(joined(none, seq![',']) =~= Seq::empty());
}

proof fn one_more_member(s: Seq<char>, name: Seq<char>, json: Seq<char>)
    requires
        are_more_members(s),
        is_json(json),
    ensures
        are_more_members(s + member_name(name) + json),
        are_more_members(s + (member_name(name) + json)),
{
    reveal_strlit(",");
    let parts = choose|parts: Seq<Seq<char>>|
        all_members(parts) && s == #[trigger] after_commas(parts);
    let member = json_quoted(name) + ":"@ + json;
    quoted_is_string(name);
    member_of(json_quoted(name), json);
    after_commas_push(parts, member);
    assert(s + member_name(name) + json =~= after_commas(parts.push(member)));
    assert(s + (member_name(name) + json) =~= after_commas(parts.push(member)));
    assert(all_members(parts.push(member)));
}

proof fn all_more_members(a: Seq<char>, b: Seq<char>)
    requires
        are_more_members(a),
        are_more_members(b),
    ensures
        are_more_members(a + b),
{
    let x = choose|parts: Seq<Seq<char>>|
        all_members(parts) && a == #[trigger] after_commas(parts);
    let y = choose|parts: Seq<Seq<char>>|
        all_members(parts) && b == #[trigger] after_commas(parts);
    after_commas_then(x, y);
    assert(all_members(x + y));
}

proof fn one_more_element(s: Seq<char>, json: Seq<char>)
    requires
        is_json(json),
    ensures
        are_elements(s) ==> are_elements(with_item(s, json)),
        are_more_elements(s) ==> are_more_elements(s + ","@ + json),
{
    reveal_strlit(",");
    if are_elements(s) {
        let parts = choose|parts: Seq<Seq<char>>|
            all_json(parts) && s == #[trigger] joined(parts, seq![',']);
        joined_push(parts, json, seq![',']);
        if parts.len() > 0 {
            assert(is_json(parts[parts.len() - 1]));
            json_is_printable(parts.last());
            assert(s.len() > 0);
        }
        assert(with_item(s, json) =~= joined(parts.push(json), seq![',']));
        assert(all_json(parts.push(json)));
    }
    if are_more_elements(s) {
        let parts = choose|parts: Seq<Seq<char>>|
            all_json(parts) && s == #[trigger] after_commas(parts);
        after_commas_push(parts, json);
        assert(s + ","@ + json =~= after_commas(parts.push(json)));
        assert(all_json(parts.push(json)));
    }
}

// ---------------------------------------------------------------------------
// What is written of an entry
// ---------------------------------------------------------------------------

/// Whether what has been written of an entry is made of members and definitions.
pub open spec fn writer_json(w: WriterModel) -> bool {
    &&& are_more_members(w.strings)
    &&& are_more_members(w.fields)
    &&& are_elements(w.definitions)
    &&& forall|i: int|
        0 <= i < w.sets.len() ==> are_more_members((#[trigger] w.sets[i]).fields) && are_elements(
            w.sets[i].definitions,
        )
}

proof fn counts_are_json(list: Seq<ObservationModel>, multiplicity: Option<u64>)
    ensures
        all_json(counts(list, multiplicity)),
    decreases list.len(),
{
    if list.len() > 0 {
        counts_are_json(list.drop_last(), multiplicity);
        decimal_is_json(count(list.last(), multiplicity) as nat);
    }
}

proof fn values_and_counts_are_json(list: Seq<ObservationModel>, multiplicity: Option<u64>)
    requires
        observations_numeric(list),
    ensures
        is_json(
            "{\"Values\":["@ + joined(numbers(Dialect::Emf, list), seq![',']) + "],\"Counts\":["@
                + joined(counts(list, multiplicity), seq![',']) + "]}"@,
        ),
{
    let values = numbers(Dialect::Emf, list);
    let times = counts(list, multiplicity);
    numbers_are_json(Dialect::Emf, list);
    counts_are_json(list, multiplicity);
    list_is_json(values);
    list_is_json(times);
    names_of_values_and_counts();
    member_of("\"Values\""@, list_of(values));
    member_of("\"Counts\""@, list_of(times));
    let first = "\"Values\""@ + ":"@ + list_of(values);
    let second = "\"Counts\""@ + ":"@ + list_of(times);
    let parts = seq![first, second];
    object_is_json(parts);
    joined_push(seq![first], second, seq![',']);
    assert(seq![first].push(second) =~= parts);
    values_and_counts_text(joined(values, seq![',']), joined(times, seq![',']));
}

proof fn names_of_values_and_counts()
    ensures
        is_string("\"Values\""@),
        is_string("\"Counts\""@),
{
    reveal_strlit("\"Values\"");
    reveal_strlit("\"Counts\"");
    plain_is_string("\"Values\""@);
    plain_is_string("\"Counts\""@);
}

proof fn values_and_counts_text(values: Seq<char>, times: Seq<char>)
    ensures
        "{\"Values\":["@ + values + "],\"Counts\":["@ + times + "]}"@ == "{"@ + (
        "\"Values\""@ + ":"@ + ("["@ + values + "]"@) + seq![','] + ("\"Counts\""@ + ":"@ + ("["@
            + times + "]"@))) + "}"@,
{
    reveal_strlit("{\"Values\":[");
    reveal_strlit("],\"Counts\":[");
    reveal_strlit("]}");
    reveal_strlit("[");
    reveal_strlit("]");
    reveal_strlit("{");
    reveal_strlit("}");
    reveal_strlit(":");
    reveal_strlit("\"Values\"");
    reveal_strlit("\"Counts\"");
    assert("{\"Values\":["@ =~= "{"@ + "\"Values\""@ + ":"@ + "["@);
    assert("],\"Counts\":["@ =~= "]"@ + seq![','] + "\"Counts\""@ + ":"@ + "["@);
    assert("]}"@ =~= "]"@ + "}"@);
    assert("{\"Values\":["@ + values + "],\"Counts\":["@ + times + "]}"@ =~= "{"@ + (
    "\"Values\""@ + ":"@ + ("["@ + values + "]"@) + seq![','] + ("\"Counts\""@ + ":"@ + ("["@
        + times + "]"@))) + "}"@);
}

proof fn literals_of_definitions()
    ensures
        "{\"Name\":"@ == "{"@ + "\"Name\""@ + ":"@,
        ",\"Unit\":"@ == seq![','] + "\"Unit\""@ + ":"@,
        ",\"StorageResolution\":1}"@ == seq![','] + "\"StorageResolution\""@ + ":"@ + decimal(1)
            + "}"@,
        ",\"StorageResolution\":"@ == seq![','] + "\"StorageResolution\""@ + ":"@,
        is_string("\"Name\""@),
        is_string("\"Unit\""@),
        is_string("\"StorageResolution\""@),
{
    reveal_strlit("{\"Name\":");
    reveal_strlit(",\"Unit\":");
    reveal_strlit(",\"StorageResolution\":1}");
    reveal_strlit(",\"StorageResolution\":");
    reveal_strlit("{");
    reveal_strlit("}");
    reveal_strlit(":");
    reveal_strlit("\"Name\"");
    reveal_strlit("\"Unit\"");
    reveal_strlit("\"StorageResolution\"");
    plain_is_string("\"Name\""@);
    plain_is_string("\"Unit\""@);
    plain_is_string("\"StorageResolution\""@);
    assert("{\"Name\":"@ =~= "{"@ + "\"Name\""@ + ":"@);
    assert(",\"Unit\":"@ =~= seq![','] + "\"Unit\""@ + ":"@);
    assert(",\"StorageResolution\":"@ =~= seq![','] + "\"StorageResolution\""@ + ":"@);
    assert(decimal(1) =~= seq!['1']);
    assert(",\"StorageResolution\":1}"@ =~= seq![','] + "\"StorageResolution\""@ + ":"@ + decimal(1)
        + "}"@);
}

proof fn definition_is_json(name: Seq<char>, unit: Unit, flags: MetricFlags)
    ensures
        metric_definition(name, unit, flags) matches Some(d) ==> is_json(d),
{
    literals_of_definitions();
    quoted_is_string(name);
    quoted_is_string(unit_name(unit));
    decimal_is_json(1);
    let first = "\"Name\""@ + ":"@ + json_quoted(name);
    let second = "\"Unit\""@ + ":"@ + json_quoted(unit_name(unit));
    let third = "\"StorageResolution\""@ + ":"@ + decimal(1);
    member_of("\"Name\""@, json_quoted(name));
    member_of("\"Unit\""@, json_quoted(unit_name(unit)));
    member_of("\"StorageResolution\""@, decimal(1));
    if let Some(d) = metric_definition(name, unit, flags) {
        let named = seq![first];
        let measured = if unit == Unit::NoUnit {
            named
        } else {
            joined_push(named, second, seq![',']);
            named.push(second)
        };
        let parts = if flags == MetricFlags::Emf(StorageMode::HighStorageResolution) {
            joined_push(measured, third, seq![',']);
            measured.push(third)
        } else {
            measured
        };
        assert(all_members(parts));
        object_is_json(parts);
        assert(d =~= object_of(parts));
    }
}

proof fn metric_is_json(
    fields: Seq<char>,
    definitions: Seq<char>,
    name: Seq<char>,
    list: Seq<ObservationModel>,
    multiplicity: Option<u64>,
    unit: Unit,
    flags: MetricFlags,
)
    requires
        are_more_members(fields),
        are_elements(definitions),
        observations_numeric(list),
    ensures
        are_more_members(fields_with_metric(fields, name, list, multiplicity)),
        are_elements(definitions_with_metric(definitions, name, list, multiplicity, unit, flags)),
{
    definition_is_json(name, unit, flags);
    if let Some(d) = metric_definition(name, unit, flags) {
        one_more_element(definitions, d);
    }
    if list.len() > 0 {
        observation_is_json(Dialect::Emf, list[0]);
    }
    values_and_counts_are_json(list, multiplicity);
    if let Some(field) = metric_field(name, list, multiplicity) {
        if list.len() == 1 && multiplicity is None && !(list[0] is Repeated) {
            one_more_member(fields, name, crate::nested::emf_number(list[0])->0);
        } else {
            let json = "{\"Values\":["@ + joined(numbers(Dialect::Emf, list), seq![','])
                + "],\"Counts\":["@ + joined(counts(list, multiplicity), seq![',']) + "]}"@;
            one_more_member(fields, name, json);
            assert(field =~= member_name(name) + json);
        }
    }
}

proof fn set_metric_is_json(
    s: Settings,
    w: WriterModel,
    name: Seq<char>,
    m: MetricModel,
    multiplicity: Option<u64>,
)
    requires
        writer_json(w),
        observations_numeric(m.distribution),
    ensures
        writer_json(with_set_metric(s, w, name, m, multiplicity)),
{
    let w1 = if w.allow_split {
        w
    } else {
        with_error(w, field_error(name, split_reason()))
    };
    let key = sorted_pairs(m.dimensions);
    let w2 = with_set(s, w1, key);
    let i = set_position(w2, key);
    let keys = set_keys(w2.sets);
    if !set_keys(w1.sets).contains(key) {
        assert(keys[w1.sets.len() as int] == key);
    }
    assert(keys.contains(key));
    assert(0 <= i < w2.sets.len());
    nothing_written();
    assert(writer_json(w2)) by {
        assert forall|k: int| 0 <= k < w2.sets.len() implies are_more_members(
            (#[trigger] w2.sets[k]).fields,
        ) && are_elements(w2.sets[k].definitions) by {
            if k < w.sets.len() {
                assert(w2.sets[k] == w.sets[k]);
            }
        }
    }
    let w3 = with_metric_note(s, w2, name, Place::Within(i as usize));
    let set = w3.sets[i];
    assert(w3.sets == w2.sets);
    metric_is_json(
        set.fields,
        set.definitions,
        name,
        m.distribution,
        multiplicity,
        m.unit,
        m.flags,
    );
    let w4 = with_set_metric(s, w, name, m, multiplicity);
    assert forall|k: int| 0 <= k < w4.sets.len() implies are_more_members(
        (#[trigger] w4.sets[k]).fields,
    ) && are_elements(w4.sets[k].definitions) by {
        if k != i {
            assert(w4.sets[k] == w3.sets[k]);
        }
    }
}

proof fn value_is_json(
    s: Settings,
    w: WriterModel,
    name: Seq<char>,
    value: ValueModel,
    multiplicity: Option<u64>,
)
    requires
        writer_json(w),
        value_numeric(value),
    ensures
        writer_json(with_value(s, w, name, value, multiplicity)),
{
    if name_error(s, name) is None {
        match value {
            ValueModel::Text(text) => {
                quoted_is_string(text);
                one_more_member(w.strings, name, json_quoted(text));
            },
            ValueModel::List(items) => {
                elements_are_json(Dialect::Emf, false, items);
                list_is_json(elements(Dialect::Emf, false, items));
                one_more_member(w.strings, name, list_of(elements(Dialect::Emf, false, items)));
            },
            ValueModel::Object(fields) => {
                members_are_json(Dialect::Emf, fields);
                object_is_json(members(Dialect::Emf, fields));
                one_more_member(w.strings, name, object_of(members(Dialect::Emf, fields)));
            },
            ValueModel::Metric(m) => {
                if is_global(s, m) {
                    let noted = with_metric_note(s, w, name, Place::Global);
                    metric_is_json(
                        noted.fields,
                        noted.definitions,
                        name,
                        m.distribution,
                        multiplicity,
                        m.unit,
                        m.flags,
                    );
                } else {
                    set_metric_is_json(s, w, name, m, multiplicity);
                }
            },
            _ => {},
        }
    }
}

pub(crate) proof fn notes_keep_texts(s: Settings, w: WriterModel, sets: Seq<Seq<Seq<char>>>)
    ensures
        with_dimension_set_notes(s, w, sets).strings == w.strings,
        with_dimension_set_notes(s, w, sets).fields == w.fields,
        with_dimension_set_notes(s, w, sets).definitions == w.definitions,
        with_dimension_set_notes(s, w, sets).sets == w.sets,
    decreases sets.len(),
{
    if sets.len() > 0 {
        notes_keep_texts(s, w, sets.drop_last());
        set_notes_keep_texts(s, with_dimension_set_notes(s, w, sets.drop_last()), sets.last());
    }
}

proof fn set_notes_keep_texts(s: Settings, w: WriterModel, names: Seq<Seq<char>>)
    ensures
        with_dimension_notes(s, w, names).strings == w.strings,
        with_dimension_notes(s, w, names).fields == w.fields,
        with_dimension_notes(s, w, names).definitions == w.definitions,
        with_dimension_notes(s, w, names).sets == w.sets,
    decreases names.len(),
{
    if names.len() > 0 {
        set_notes_keep_texts(s, w, names.drop_last());
    }
}

proof fn items_are_json(
    s: Settings,
    w: WriterModel,
    items: Seq<ItemModel>,
    multiplicity: Option<u64>,
)
    requires
        writer_json(w),
        items_numeric(items),
    ensures
        writer_json(with_items_written(s, w, items, multiplicity)),
    decreases items.len(),
{
    if items.len() > 0 {
        let init = items.drop_last();
        assert forall|i: int| 0 <= i < init.len() implies (#[trigger] init[i] matches ItemModel::Value(
            _,
            value,
        ) ==> value_numeric(value)) by {
            assert(init[i] == items[i]);
        }
        items_are_json(s, w, init, multiplicity);
        let before = with_items_written(s, w, init, multiplicity);
        match items[items.len() - 1] {
            ItemModel::Value(name, value) => {
                assert(value_numeric(value));
                value_is_json(s, before, name, value, multiplicity);
            },
            ItemModel::Config(config) => {
                if let ConfigModel::EntryDimensions(sets) = config {
                    notes_keep_texts(s, before, sets);
                }
            },
            ItemModel::Timestamp(_) => {},
        }
    }
}

// ---------------------------------------------------------------------------
// Directives
// ---------------------------------------------------------------------------

proof fn elements_are_a_list(s: Seq<char>)
    requires
        are_elements(s),
    ensures
        is_json("["@ + s + "]"@),
{
    let parts = choose|parts: Seq<Seq<char>>|
        all_json(parts) && s == #[trigger] joined(parts, seq![',']);
    list_is_json(parts);
}

proof fn strings_are_json(list: Seq<Seq<char>>)
    ensures
        is_json(json_string_array(list)),
{
    reveal_strlit("[");
    reveal_strlit("]");
    let parts = list.map_values(|s: Seq<char>| json_quoted(s));
    assert forall|i: int| 0 <= i < parts.len() implies is_json(#[trigger] parts[i]) by {
        quoted_is_string(list[i]);
    }
    list_is_json(parts);
    assert(json_string_array(list) =~= list_of(parts));
}

proof fn dimensions_are_elements(sets: Seq<Seq<Seq<char>>>)
    ensures
        are_elements(dimensions_json(sets)),
{
    let arrays = sets.map_values(|set: Seq<Seq<char>>| json_string_array(set));
    assert forall|i: int| 0 <= i < arrays.len() implies is_json(#[trigger] arrays[i]) by {
        strings_are_json(sets[i]);
    }
    assert(all_json(arrays));
}

proof fn object_of_three(a: Seq<char>, b: Seq<char>, c: Seq<char>)
    requires
        is_member(a),
        is_member(b),
        is_member(c),
    ensures
        is_json("{"@ + (a + seq![','] + b + seq![','] + c) + "}"@),
{
    let parts = seq![a, b, c];
    object_is_json(parts);
    joined_push(seq![a], b, seq![',']);
    joined_push(seq![a, b], c, seq![',']);
    assert(seq![a].push(b) =~= seq![a, b]);
    assert(seq![a, b].push(c) =~= parts);
}

proof fn literals_of_directives()
    ensures
        "{\"Namespace\":"@ == "{"@ + "\"Namespace\""@ + ":"@,
        ",\"Dimensions\":["@ == seq![','] + "\"Dimensions\""@ + ":"@ + "["@,
        "],\"Metrics\":["@ == "]"@ + seq![','] + "\"Metrics\""@ + ":"@ + "["@,
        "]}"@ == "]"@ + "}"@,
        "{\"Dimensions\":["@ == "{"@ + "\"Dimensions\""@ + ":"@ + "["@,
        "],\"Namespace\":"@ == "]"@ + seq![','] + "\"Namespace\""@ + ":"@,
        is_string("\"Namespace\""@),
        is_string("\"Dimensions\""@),
        is_string("\"Metrics\""@),
{
    reveal_strlit("{\"Namespace\":");
    reveal_strlit(",\"Dimensions\":[");
    reveal_strlit("],\"Metrics\":[");
    reveal_strlit("]}");
    reveal_strlit("{\"Dimensions\":[");
    reveal_strlit("],\"Namespace\":");
    reveal_strlit("\"Namespace\"");
    reveal_strlit("\"Dimensions\"");
    reveal_strlit("\"Metrics\"");
    reveal_strlit("[");
    reveal_strlit("]");
    reveal_strlit("{");
    reveal_strlit("}");
    reveal_strlit(":");
    plain_is_string("\"Namespace\""@);
    plain_is_string("\"Dimensions\""@);
    plain_is_string("\"Metrics\""@);
    assert("{\"Namespace\":"@ =~= "{"@ + "\"Namespace\""@ + ":"@);
    assert(",\"Dimensions\":["@ =~= seq![','] + "\"Dimensions\""@ + ":"@ + "["@);
    assert("],\"Metrics\":["@ =~= "]"@ + seq![','] + "\"Metrics\""@ + ":"@ + "["@);
    assert("]}"@ =~= "]"@ + "}"@);
    assert("{\"Dimensions\":["@ =~= "{"@ + "\"Dimensions\""@ + ":"@ + "["@);
    assert("],\"Namespace\":"@ =~= "]"@ + seq![','] + "\"Namespace\""@ + ":"@);
}

proof fn names_in_directives()
    ensures
        is_string("\"Namespace\""@),
        is_string("\"Dimensions\""@),
        is_string("\"Metrics\""@),
{
    literals_of_directives();
}

proof fn directive_is_json(
    namespace: Seq<char>,
    dimensions: Seq<Seq<Seq<char>>>,
    definitions: Seq<char>,
)
    requires
        are_elements(definitions),
    ensures
        is_json(directive(namespace, dimensions, definitions)),
{
    names_in_directives();
    let sets = dimensions_json(dimensions);
    dimensions_are_elements(dimensions);
    elements_are_a_list(sets);
    elements_are_a_list(definitions);
    quoted_is_string(namespace);
    let a = "\"Namespace\""@ + ":"@ + json_quoted(namespace);
    let b = "\"Dimensions\""@ + ":"@ + ("["@ + sets + "]"@);
    let c = "\"Metrics\""@ + ":"@ + ("["@ + definitions + "]"@);
    member_of("\"Namespace\""@, json_quoted(namespace));
    member_of("\"Dimensions\""@, "["@ + sets + "]"@);
    member_of("\"Metrics\""@, "["@ + definitions + "]"@);
    object_of_three(a, b, c);
    directive_text(json_quoted(namespace), sets, definitions);
}

proof fn directive_text(namespace: Seq<char>, sets: Seq<char>, definitions: Seq<char>)
    ensures
        "{\"Namespace\":"@ + namespace + ",\"Dimensions\":["@ + sets + "],\"Metrics\":["@
            + definitions + "]}"@ == "{"@ + ("\"Namespace\""@ + ":"@ + namespace + seq![','] + (
        "\"Dimensions\""@ + ":"@ + ("["@ + sets + "]"@)) + seq![','] + ("\"Metrics\""@ + ":"@ + ("["@
            + definitions + "]"@))) + "}"@,
{
    literals_of_directives();
    assert("{\"Namespace\":"@ + namespace + ",\"Dimensions\":["@ + sets + "],\"Metrics\":["@
        + definitions + "]}"@ =~= "{"@ + ("\"Namespace\""@ + ":"@ + namespace + seq![','] + (
    "\"Dimensions\""@ + ":"@ + ("["@ + sets + "]"@)) + seq![','] + ("\"Metrics\""@ + ":"@ + ("["@
        + definitions + "]"@))) + "}"@);
}

proof fn listed_definition_is_json(m: MetricDefinition<'_>)
    ensures
        is_json(definition_json(m)),
{
    literals_of_definitions();
    quoted_is_string(m.name@);
    quoted_is_string(unit_name(m.unit));
    let a = "\"Name\""@ + ":"@ + json_quoted(m.name@);
    let b = "\"Unit\""@ + ":"@ + json_quoted(unit_name(m.unit));
    member_of("\"Name\""@, json_quoted(m.name@));
    member_of("\"Unit\""@, json_quoted(unit_name(m.unit)));
    match m.storage_resolution {
        Some(r) => {
            let seconds = decimal(resolution_seconds(r) as nat);
            decimal_is_json(resolution_seconds(r) as nat);
            let c = "\"StorageResolution\""@ + ":"@ + seconds;
            member_of("\"StorageResolution\""@, seconds);
            object_of_three(a, b, c);
            assert(definition_json(m) =~= "{"@ + (a + seq![','] + b + seq![','] + c) + "}"@);
        },
        None => {
            object_is_json(seq![a, b]);
            joined_push(seq![a], b, seq![',']);
            assert(seq![a].push(b) =~= seq![a, b]);
            assert(definition_json(m) =~= object_of(seq![a, b]));
        },
    }
}

/// A directive that is added to the lines is JSON.
pub proof fn added_directive_is_json(d: MetricDirective<'_>)
    ensures
        is_json(directive_json(d)),
{
    literals_of_directives();
    let sets = dimensions_json(slice_lists(d.dimensions@));
    dimensions_are_elements(slice_lists(d.dimensions@));
    elements_are_a_list(sets);
    let parts = d.metrics@.map_values(|m: MetricDefinition<'_>| definition_json(m));
    assert forall|i: int| 0 <= i < parts.len() implies is_json(#[trigger] parts[i]) by {
        listed_definition_is_json(d.metrics@[i]);
    }
    let definitions = joined(parts, seq![',']);
    assert(all_json(parts));
    elements_are_a_list(definitions);
    quoted_is_string(d.namespace@);
    let a = "\"Dimensions\""@ + ":"@ + ("["@ + sets + "]"@);
    let b = "\"Metrics\""@ + ":"@ + ("["@ + definitions + "]"@);
    let c = "\"Namespace\""@ + ":"@ + json_quoted(d.namespace@);
    member_of("\"Dimensions\""@, "["@ + sets + "]"@);
    member_of("\"Metrics\""@, "["@ + definitions + "]"@);
    member_of("\"Namespace\""@, json_quoted(d.namespace@));
    object_of_three(a, b, c);
    assert(directive_json(d) =~= "{"@ + (a + seq![','] + b + seq![','] + c) + "}"@);
}

/// Directives can be added to lines one by one: with none and with one more they are JSON values,
/// each after a comma.
pub proof fn directives_can_be_added(directives: Seq<char>, d: MetricDirective<'_>)
    requires
        are_more_elements(directives),
    ensures
        are_more_elements(Seq::empty()),
        are_more_elements(directives + ","@ + directive_json(d)),
{
    nothing_written();
    added_directive_is_json(d);
    one_more_element(directives, directive_json(d));
}

// ---------------------------------------------------------------------------
// Lines
// ---------------------------------------------------------------------------

proof fn literals_of_lines()
    ensures
        "{\"_aws\":{\"CloudWatchMetrics\":["@ == "{"@ + "\"_aws\""@ + ":"@ + "{"@
            + "\"CloudWatchMetrics\""@ + ":"@ + "["@,
        "],\"LogGroupName\":"@ == "]"@ + seq![','] + "\"LogGroupName\""@ + ":"@,
        ",\"Timestamp\":"@ == seq![','] + "\"Timestamp\""@ + ":"@,
        "],\"Timestamp\":"@ == "]"@ + seq![','] + "\"Timestamp\""@ + ":"@,
        "}\n"@ == "}"@.push('\n'),
        is_string("\"_aws\""@),
        is_string("\"CloudWatchMetrics\""@),
        is_string("\"LogGroupName\""@),
        is_string("\"Timestamp\""@),
{
    reveal_strlit("{\"_aws\":{\"CloudWatchMetrics\":[");
    reveal_strlit("],\"LogGroupName\":");
    reveal_strlit(",\"Timestamp\":");
    reveal_strlit("],\"Timestamp\":");
    reveal_strlit("}\n");
    reveal_strlit("\"_aws\"");
    reveal_strlit("\"CloudWatchMetrics\"");
    reveal_strlit("\"LogGroupName\"");
    reveal_strlit("\"Timestamp\"");
    reveal_strlit("[");
    reveal_strlit("]");
    reveal_strlit("{");
    reveal_strlit("}");
    reveal_strlit(":");
    plain_is_string("\"_aws\""@);
    plain_is_string("\"CloudWatchMetrics\""@);
    plain_is_string("\"LogGroupName\""@);
    plain_is_string("\"Timestamp\""@);
    assert("{\"_aws\":{\"CloudWatchMetrics\":["@ =~= "{"@ + "\"_aws\""@ + ":"@ + "{"@
        + "\"CloudWatchMetrics\""@ + ":"@ + "["@);
    assert("],\"LogGroupName\":"@ =~= "]"@ + seq![','] + "\"LogGroupName\""@ + ":"@);
    assert(",\"Timestamp\":"@ =~= seq![','] + "\"Timestamp\""@ + ":"@);
    assert("],\"Timestamp\":"@ =~= "]"@ + seq![','] + "\"Timestamp\""@ + ":"@);
    assert("}\n"@ =~= "}"@.push('\n'));
}

/// The metadata of a line: the directives, the log group and the timestamp.
spec fn metadata(published: Seq<char>, log_group: Option<Seq<char>>, millis: nat) -> Seq<char> {
    "{"@ + "\"CloudWatchMetrics\""@ + ":"@ + "["@ + published + before_timestamp(log_group)
        + decimal(millis) + "}"@
}

proof fn metadata_is_json(published: Seq<char>, log_group: Option<Seq<char>>, millis: nat)
    requires
        are_elements(published),
    ensures
        is_json(metadata(published, log_group, millis)),
{
    literals_of_lines();
    elements_are_a_list(published);
    decimal_is_json(millis);
    let list = "["@ + published + "]"@;
    let a = "\"CloudWatchMetrics\""@ + ":"@ + list;
    let c = "\"Timestamp\""@ + ":"@ + decimal(millis);
    member_of("\"CloudWatchMetrics\""@, list);
    member_of("\"Timestamp\""@, decimal(millis));
    match log_group {
        Some(name) => {
            quoted_is_string(name);
            let b = "\"LogGroupName\""@ + ":"@ + json_quoted(name);
            member_of("\"LogGroupName\""@, json_quoted(name));
            object_of_three(a, b, c);
            assert(metadata(published, log_group, millis) =~= "{"@ + (a + seq![','] + b + seq![',']
                + c) + "}"@);
        },
        None => {
            object_is_json(seq![a, c]);
            joined_push(seq![a], c, seq![',']);
            assert(seq![a].push(c) =~= seq![a, c]);
            assert(metadata(published, log_group, millis) =~= object_of(seq![a, c]));
        },
    }
}

proof fn line_is_json(
    s: Settings,
    dimensions: Seq<Seq<Seq<char>>>,
    definitions: Seq<char>,
    further: Seq<char>,
    millis: nat,
    members: Seq<char>,
)
    requires
        s.namespaces.len() > 0,
        are_elements(definitions),
        are_more_elements(further),
        are_more_members(members),
    ensures
        is_json_line(line(s, dimensions, definitions, further, millis, members)),
{
    names_in_lines();
    let own = directives(s.namespaces, dimensions, definitions);
    assert forall|i: int| 0 <= i < own.len() implies is_json(#[trigger] own[i]) by {
        directive_is_json(s.namespaces[i], dimensions, definitions);
    }
    let added = choose|parts: Seq<Seq<char>>|
        all_json(parts) && further == #[trigger] after_commas(parts);
    joined_then(own, added);
    let published = joined(own, seq![',']) + further;
    assert(all_json(own + added));
    assert(are_elements(published));
    metadata_is_json(published, s.log_group, millis);
    let meta = metadata(published, s.log_group, millis);
    let first = "\"_aws\""@ + ":"@ + meta;
    member_of("\"_aws\""@, meta);
    let rest = choose|parts: Seq<Seq<char>>|
        all_members(parts) && members == #[trigger] after_commas(parts);
    joined_then(seq![first], rest);
    let all = seq![first] + rest;
    assert(all_members(all));
    object_is_json(all);
    json_is_printable(object_of(all));
    let text = line(s, dimensions, definitions, further, millis, members);
    assert(joined(seq![first], seq![',']) == first);
    line_text(joined(own, seq![',']), further, before_timestamp(s.log_group), decimal(millis), members);
    assert(text == object_of(all).push('\n'));
    assert(text.drop_last() =~= object_of(all));
}

proof fn names_in_lines()
    ensures
        is_string("\"_aws\""@),
{
    literals_of_lines();
}

proof fn line_text(
    own: Seq<char>,
    further: Seq<char>,
    before: Seq<char>,
    millis: Seq<char>,
    members: Seq<char>,
)
    ensures
        "{\"_aws\":{\"CloudWatchMetrics\":["@ + own + further + before + millis + "}"@ + members
            + "}\n"@ == ("{"@ + ("\"_aws\""@ + ":"@ + ("{"@ + "\"CloudWatchMetrics\""@ + ":"@ + "["@
            + (own + further) + before + millis + "}"@) + members) + "}"@).push('\n'),
{
    literals_of_lines();
    assert("{\"_aws\":{\"CloudWatchMetrics\":["@ + own + further + before + millis + "}"@ + members
        + "}\n"@ =~= ("{"@ + ("\"_aws\""@ + ":"@ + ("{"@ + "\"CloudWatchMetrics\""@ + ":"@ + "["@ + (own
        + further) + before + millis + "}"@) + members) + "}"@).push('\n'));
}

proof fn instances_are_members(key: Seq<(Seq<char>, Seq<char>)>)
    ensures
        are_more_members(instance_fields(key)),
    decreases key.len(),
{
    let f = |p: (Seq<char>, Seq<char>)| member_name(p.0) + json_quoted(p.1);
    if key.len() == 0 {
        nothing_written();
        assert(key.map_values(f) =~= Seq::empty());
    } else {
        let init = key.drop_last();
        instances_are_members(init);
        quoted_is_string(key.last().1);
        one_more_member(instance_fields(init), key.last().0, json_quoted(key.last().1));
        assert(key.map_values(f).drop_last() =~= init.map_values(f));
        assert(instance_fields(key) == instance_fields(init) + (member_name(key.last().0)
            + json_quoted(key.last().1)));
    }
}

proof fn set_lines_are_json(s: Settings, w: WriterModel, sets: Seq<SetModel>, millis: nat, k: int)
    requires
        s.namespaces.len() > 0,
        are_more_members(w.strings),
        forall|i: int|
            0 <= i < sets.len() ==> are_more_members((#[trigger] sets[i]).fields) && are_elements(
                sets[i].definitions,
            ),
        0 <= k < set_lines(s, w, sets, millis).len(),
    ensures
        is_json_line(set_lines(s, w, sets, millis)[k]),
    decreases sets.len(),
{
    if sets.len() > 0 {
        let init = sets.drop_last();
        assert forall|i: int| 0 <= i < init.len() implies are_more_members(
            (#[trigger] init[i]).fields,
        ) && are_elements(init[i].definitions) by {
            assert(init[i] == sets[i]);
        }
        if k < set_lines(s, w, init, millis).len() {
            set_lines_are_json(s, w, init, millis, k);
        } else {
            let set = sets[sets.len() - 1];
            assert(are_more_members(set.fields) && are_elements(set.definitions));
            instances_are_members(set.key);
            all_more_members(instance_fields(set.key), set.fields);
            all_more_members(instance_fields(set.key) + set.fields, w.strings);
            nothing_written();
            line_is_json(
                s,
                set.dimensions,
                set.definitions,
                Seq::empty(),
                millis,
                instance_fields(set.key) + set.fields + w.strings,
            );
        }
    }
}

/// Each line of an entry is JSON and a line break, whatever the names and strings in the entry
/// hold; so it has no other line breaks. There has to be a namespace, and the directives that are
/// added have to be JSON themselves, as those of a formatter that was built are.
pub proof fn lines_are_json(
    s: Settings,
    items: Seq<ItemModel>,
    multiplicity: Option<u64>,
    now: i128,
    k: int,
)
    requires
        s.namespaces.len() > 0,
        are_more_elements(s.directives),
        items_numeric(items),
        0 <= k < output_lines(
            s,
            with_items_written(s, fresh(initial_lines(s)), items, multiplicity),
            now,
        ).len(),
    ensures
        is_json_line(
            output_lines(
                s,
                with_items_written(s, fresh(initial_lines(s)), items, multiplicity),
                now,
            )[k],
        ),
{
    let w = with_items_written(s, fresh(initial_lines(s)), items, multiplicity);
    let millis = epoch_millis(
        match w.timestamp {
            Some(t) => t,
            None => now,
        },
    ) as nat;
    nothing_written();
    items_are_json(s, fresh(initial_lines(s)), items, multiplicity);
    let lines = set_lines(s, w, w.sets, millis);
    if k < lines.len() {
        set_lines_are_json(s, w, w.sets, millis, k);
    } else {
        all_more_members(w.fields, w.strings);
        line_is_json(
            s,
            effective_dimensions(s, w),
            w.definitions,
            s.directives,
            millis,
            w.fields + w.strings,
        );
    }
}

} // verus!
