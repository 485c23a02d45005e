//! Metrics in EMF: the member that holds the numbers, and the definition that
//! makes a metric of them.

use vstd::prelude::*;
use vstd::string::*;

use crate::flags::{MetricFlags, StorageMode};
use crate::nested::{
    emf_number, emf_number_text, factor, numbers, saturating_mul, saturating_product, Dialect,
};
use crate::text::{decimal, itoa_u64, joined, joined_push, json_quoted, push_part, serde_json_str};
use crate::unit::{unit_name, Unit};
use crate::validate::optional_text;
use crate::value::{observations, Observation, ObservationModel};

verus! {

/// How often an observation counts.
pub open spec fn count(o: ObservationModel, multiplicity: Option<u64>) -> u64 {
    match o {
        ObservationModel::Repeated { occurrences, .. } => saturating_product(
            occurrences,
            factor(multiplicity),
        ),
        _ => factor(multiplicity),
    }
}

/// How often each of the observations counts that have a number.
pub open spec fn counts(list: Seq<ObservationModel>, multiplicity: Option<u64>) -> Seq<Seq<char>>
    decreases list.len(),
{
    if list.len() == 0 {
        Seq::empty()
    } else {
        let init = counts(list.drop_last(), multiplicity);
        if emf_number(list.last()) is Some {
            init.push(decimal(count(list.last(), multiplicity) as nat))
        } else {
            init
        }
    }
}

/// The name of a member, after a comma and before a colon.
pub open spec fn member_name(name: Seq<char>) -> Seq<char> {
    ","@ + json_quoted(name) + ":"@
}

/// The member for a metric, if any of its observations has a number. A single
/// observation that stands for itself is written as a number, anything else as
/// values and counts.
pub open spec fn metric_field(
    name: Seq<char>,
    list: Seq<ObservationModel>,
    multiplicity: Option<u64>,
) -> Option<Seq<char>> {
    if list.len() == 0 {
        None
    } else if list.len() == 1 && multiplicity is None && !(list[0] is Repeated) {
        match emf_number(list[0]) {
            Some(t) => Some(member_name(name) + t),
            None => None,
        }
    } else if numbers(Dialect::Emf, list).len() == 0 {
        None
    } else {
        Some(
            member_name(name) + "{\"Values\":["@ + joined(numbers(Dialect::Emf, list), seq![','])
                + "],\"Counts\":["@ + joined(counts(list, multiplicity), seq![',']) + "]}"@,
        )
    }
}

/// The definition of a metric, unless its flags say that it is none.
pub open spec fn metric_definition(name: Seq<char>, unit: Unit, flags: MetricFlags) -> Option<
    Seq<char>,
> {
    if flags == MetricFlags::Emf(StorageMode::NoMetric) {
        None
    } else {
        Some(
            "{\"Name\":"@ + json_quoted(name) + if unit == Unit::NoUnit {
                Seq::empty()
            } else {
                ",\"Unit\":"@ + json_quoted(unit_name(unit))
            } + if flags == MetricFlags::Emf(StorageMode::HighStorageResolution) {
                ",\"StorageResolution\":1}"@
            } else {
                "}"@
            },
        )
    }
}

/// A list with one more item, after a comma unless the list was empty.
pub open spec fn with_item(list: Seq<char>, item: Seq<char>) -> Seq<char> {
    if list.len() == 0 {
        item
    } else {
        list + ","@ + item
    }
}

/// The fields of a line with those of one more metric.
pub open spec fn fields_with_metric(
    fields: Seq<char>,
    name: Seq<char>,
    list: Seq<ObservationModel>,
    multiplicity: Option<u64>,
) -> Seq<char> {
    match metric_field(name, list, multiplicity) {
        Some(field) => fields + field,
        None => fields,
    }
}

/// The definitions of a line with that of one more metric. A metric without a
/// field is not defined.
pub open spec fn definitions_with_metric(
    definitions: Seq<char>,
    name: Seq<char>,
    list: Seq<ObservationModel>,
    multiplicity: Option<u64>,
    unit: Unit,
    flags: MetricFlags,
) -> Seq<char> {
    match (metric_field(name, list, multiplicity), metric_definition(name, unit, flags)) {
        (Some(_), Some(definition)) => with_item(definitions, definition),
        _ => definitions,
    }
}

/// How often the observation counts.
fn count_of(observation: &Observation, multiplicity: Option<u64>) -> (n: u64)
    ensures
        n == count(observation@, multiplicity),
{
    let times: u64 = match multiplicity {
        Some(m) => m,
        None => 1,
    };
    match observation {
        Observation::Repeated { occurrences, .. } => saturating_mul(*occurrences, times),
        _ => times,
    }
}

/// A comma, the name and a colon.
pub fn member_name_text(name: &str) -> (text: String)
    ensures
        text@ == member_name(name@),
{
    let mut text = ",".to_owned();
    text.append(serde_json_str(name).as_str());
    text.append(":");
    text
}

/// The member for a metric, if any of its observations has a number.
pub fn write_metric_value(
    name: &str,
    distribution: &Vec<Observation>,
    multiplicity: Option<u64>,
) -> (res: Option<String>)
    ensures
        optional_text(res) == metric_field(name@, observations(distribution@), multiplicity),
{
    if distribution.len() == 0 {
        return None;
    }
    let mut text = member_name_text(name);
    if distribution.len() == 1 && multiplicity.is_none() && !matches!(
        distribution[0],
        Observation::Repeated { .. }
    ) {
        return match emf_number_text(&distribution[0]) {
            Some(t) => {
                text.append(t.as_str());
                Some(text)
            },
            None => None,
        };
    }
    let ghost all = observations(distribution@);
    text.append("{\"Values\":[");
    let ghost head = text@;
    let mut count_list = String::new();
    let mut any = false;
    for i in 0..distribution.len()
        invariant
            all == observations(distribution@),
            any == (numbers(Dialect::Emf, all.take(i as int)).len() > 0),
            counts(all.take(i as int), multiplicity).len() == numbers(
                Dialect::Emf,
                all.take(i as int),
            ).len(),
            text@ == head + joined(numbers(Dialect::Emf, all.take(i as int)), seq![',']),
            count_list@ == joined(counts(all.take(i as int), multiplicity), seq![',']),
    {
        let ghost numbers_before = numbers(Dialect::Emf, all.take(i as int));
        let ghost counts_before = counts(all.take(i as int), multiplicity);
        proof {
            assert(all.take(i + 1).drop_last() =~= all.take(i as int));
            assert(all.take(i + 1).last() == distribution@[i as int]@);
        }
        if let Some(t) = emf_number_text(&distribution[i]) {
            let c = itoa_u64(count_of(&distribution[i], multiplicity));
            let mut any_count = any;
            push_part(&mut text, &mut any, t.as_str());
            push_part(&mut count_list, &mut any_count, c.as_str());
            proof {
                joined_push(numbers_before, t@, seq![',']);
                joined_push(counts_before, c@, seq![',']);
                assert(text@ =~= head + joined(numbers_before.push(t@), seq![',']));
                assert(count_list@ =~= joined(counts_before.push(c@), seq![',']));
            }
        }
    }
    assert(all.take(all.len() as int) =~= all);
    if any {
        text.append("],\"Counts\":[");
        text.append(count_list.as_str());
        text.append("]}");
        Some(text)
    } else {
        None
    }
}

/// The definition of a metric, unless its flags say that it is none.
fn definition_text(name: &str, unit: Unit, flags: MetricFlags) -> (res: Option<String>)
    ensures
        optional_text(res) == metric_definition(name@, unit, flags),
{
    if flags == MetricFlags::Emf(StorageMode::NoMetric) {
        return None;
    }
    let mut text = "{\"Name\":".to_owned();
    text.append(serde_json_str(name).as_str());
    let ghost start = text@;
    if !unit.is_none() {
        text.append(",\"Unit\":");
        text.append(serde_json_str(unit.name()).as_str());
        assert(text@ =~= start + (",\"Unit\":"@ + json_quoted(unit_name(unit))));
    } else {
        assert(text@ =~= start + Seq::empty());
    }
    if flags == MetricFlags::Emf(StorageMode::HighStorageResolution) {
        text.append(",\"StorageResolution\":1}");
    } else {
        text.append("}");
    }
    Some(text)
}

/// Adds a metric to the fields and the definitions of a line. A metric of which no
/// observation has a number is left out of both.
pub fn write_metric(
    name: &str,
    fields: &mut String,
    definitions: &mut String,
    distribution: &Vec<Observation>,
    unit: Unit,
    flags: MetricFlags,
    multiplicity: Option<u64>,
)
    ensures
        final(fields)@ == fields_with_metric(
            old(fields)@,
            name@,
            observations(distribution@),
            multiplicity,
        ),
        final(definitions)@ == definitions_with_metric(
            old(definitions)@,
            name@,
            observations(distribution@),
            multiplicity,
            unit,
            flags,
        ),
{
    if let Some(field) = write_metric_value(name, distribution, multiplicity) {
        fields.append(field.as_str());
        if let Some(definition) = definition_text(name, unit, flags) {
            if !definitions.as_str().is_empty() {
                definitions.append(",");
            } else {
                assert(definitions@ + definition@ =~= definition@);
            }
            definitions.append(definition.as_str());
        }
    }
}

} // verus!
