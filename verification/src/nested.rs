//! Values inside lists and objects, and values as plain strings.

use vstd::prelude::*;
use vstd::string::*;

use crate::entry::ItemModel;
use crate::float::{is_nan, short_decimal};
use crate::grammar::{
    all_json, all_members, decimal_is_json, is_json, is_number, list_is_json, member_of,
    null_is_json, number_is_json, object_is_json, object_of, plain_is_string, quoted_is_string,
    whole_number_is_number,
};
use crate::text::{
    decimal, itoa_u64, joined, joined_push, json_quoted, json_quoted_plain, push_json_string,
    push_part, serde_json_str,
};
use crate::validate::optional_text;
use crate::value::{
    member_models, nested_models, observations, value_models, Observation, ObservationModel,
    ValueModel, WrittenValue,
};

verus! {

/// The two ways in which strings and numbers are written.
#[derive(Clone, Copy, Debug, PartialEq, Eq, Structural)]
pub enum Dialect {
    /// Short escapes wherever JSON has them; the mean of repeated observations;
    /// nothing in place of a double that is not a number.
    Emf,
    /// Fewer short escapes; total and count of repeated observations; `null` in
    /// place of a double that is not a number.
    Json,
}

/// A JSON string in a dialect.
pub open spec fn quoted(dialect: Dialect, s: Seq<char>) -> Seq<char> {
    match dialect {
        Dialect::Emf => json_quoted(s),
        Dialect::Json => json_quoted_plain(s),
    }
}

/// The product, or the largest number there is.
pub open spec fn saturating_product(a: u64, b: u64) -> u64 {
    if a * b > u64::MAX {
        u64::MAX
    } else {
        (a * b) as u64
    }
}

/// The multiplicity that counts are multiplied by.
pub open spec fn factor(multiplicity: Option<u64>) -> u64 {
    match multiplicity {
        Some(m) => m,
        None => 1,
    }
}

/// A double in JSON: `null` if it is not a number.
pub open spec fn json_float(f: crate::float::FloatModel) -> Seq<char> {
    if is_nan(f.bits) {
        "null"@
    } else {
        short_decimal(f)
    }
}

/// An observation in JSON.
pub open spec fn json_observation(o: ObservationModel) -> Seq<char> {
    match o {
        ObservationModel::Unsigned(v) => decimal(v as nat),
        ObservationModel::Floating(f) => json_float(f),
        ObservationModel::Repeated { total, occurrences, .. } => "{\"total\":"@ + json_float(total)
            + ",\"count\":"@ + decimal(occurrences as nat) + "}"@,
    }
}

/// An observation as one number, if it has one: the mean of repeated observations,
/// zero if there was none of them.
pub open spec fn emf_number(o: ObservationModel) -> Option<Seq<char>> {
    match o {
        ObservationModel::Unsigned(v) => Some(decimal(v as nat)),
        ObservationModel::Floating(f) => if is_nan(f.bits) {
            None
        } else {
            Some(short_decimal(f))
        },
        ObservationModel::Repeated { occurrences, mean, .. } => if occurrences == 0 {
            Some("0"@)
        } else if is_nan(mean.bits) {
            None
        } else {
            Some(short_decimal(mean))
        },
    }
}

/// An observation inside a list or an object, if it is written at all.
pub open spec fn number(dialect: Dialect, o: ObservationModel) -> Option<Seq<char>> {
    match dialect {
        Dialect::Emf => emf_number(o),
        Dialect::Json => Some(json_observation(o)),
    }
}

/// Those of the observations that are written.
pub open spec fn numbers(dialect: Dialect, list: Seq<ObservationModel>) -> Seq<Seq<char>>
    decreases list.len(),
{
    if list.len() == 0 {
        Seq::empty()
    } else {
        let init = numbers(dialect, list.drop_last());
        match number(dialect, list.last()) {
            Some(t) => init.push(t),
            None => init,
        }
    }
}

/// A metric inside a list or an object: nothing without observations, the number
/// itself if there is one, else a list of numbers.
pub open spec fn metric_element(dialect: Dialect, list: Seq<ObservationModel>) -> Option<
    Seq<char>,
> {
    if list.len() == 0 {
        None
    } else if list.len() == 1 {
        number(dialect, list[0])
    } else {
        Some("["@ + joined(numbers(dialect, list), seq![',']) + "]"@)
    }
}

/// An observation as it is displayed: repeated ones by their total.
pub open spec fn display_text(o: ObservationModel) -> Seq<char> {
    match o {
        ObservationModel::Unsigned(v) => decimal(v as nat),
        ObservationModel::Floating(f) => f.display,
        ObservationModel::Repeated { total, .. } => total.display,
    }
}

/// The observations as they are displayed.
pub open spec fn display_texts(list: Seq<ObservationModel>) -> Seq<Seq<char>> {
    list.map_values(|o: ObservationModel| display_text(o))
}

/// A value as a plain string. Nothing is left of an error.
pub open spec fn captured(value: ValueModel) -> Seq<char>
    decreases value,
{
    match value {
        ValueModel::Nothing => Seq::empty(),
        ValueModel::Text(s) => s,
        ValueModel::Metric(m) => joined(display_texts(m.distribution), seq![',']),
        ValueModel::List(items) => joined(captures(items), seq![',']),
        ValueModel::Object(fields) => "{"@ + joined(members(Dialect::Json, fields), seq![','])
            + "}"@,
        ValueModel::Error(_) => Seq::empty(),
    }
}

/// Those of the values that are not empty as plain strings.
pub open spec fn captures(items: Seq<ValueModel>) -> Seq<Seq<char>>
    decreases items,
{
    if items.len() == 0 {
        Seq::empty()
    } else {
        let init = captures(items.drop_last());
        let last = captured(items.last());
        if last.len() == 0 {
            init
        } else {
            init.push(last)
        }
    }
}

/// A value inside a list or an object, if it is written at all. A list that stands
/// directly in a list (`in_object` is false) is written as one string.
pub open spec fn element(dialect: Dialect, in_object: bool, value: ValueModel) -> Option<Seq<char>>
    decreases value,
{
    match value {
        ValueModel::Nothing => None,
        ValueModel::Text(s) => Some(quoted(dialect, s)),
        ValueModel::Metric(m) => metric_element(dialect, m.distribution),
        ValueModel::List(items) => if in_object {
            Some("["@ + joined(elements(dialect, true, items), seq![',']) + "]"@)
        } else {
            Some(quoted(dialect, joined(captures(items), seq![','])))
        },
        ValueModel::Object(fields) => Some(
            "{"@ + joined(members(dialect, fields), seq![',']) + "}"@,
        ),
        ValueModel::Error(_) => None,
    }
}

/// Those of the values that are written.
pub open spec fn elements(dialect: Dialect, in_object: bool, items: Seq<ValueModel>) -> Seq<
    Seq<char>,
>
    decreases items,
{
    if items.len() == 0 {
        Seq::empty()
    } else {
        let init = elements(dialect, in_object, items.drop_last());
        match element(dialect, in_object, items.last()) {
            Some(t) => init.push(t),
            None => init,
        }
    }
}

/// Those of the members of an object that are written, each with its name.
pub open spec fn members(dialect: Dialect, fields: Seq<(Seq<char>, ValueModel)>) -> Seq<Seq<char>>
    decreases fields,
{
    if fields.len() == 0 {
        Seq::empty()
    } else {
        let init = members(dialect, fields.drop_last());
        match element(dialect, true, fields.last().1) {
            Some(t) => init.push(quoted(dialect, fields.last().0) + ":"@ + t),
            None => init,
        }
    }
}

/// The JSON string of `s`.
pub fn quote(dialect: Dialect, s: &str) -> (text: String)
    ensures
        text@ == quoted(dialect, s@),
{
    match dialect {
        Dialect::Emf => serde_json_str(s),
        Dialect::Json => {
            let mut text = String::new();
            push_json_string(&mut text, s);
            assert(text@ =~= json_quoted_plain(s@));
            text
        },
    }
}

/// The product, or the largest number there is.
pub fn saturating_mul(a: u64, b: u64) -> (res: u64)
    ensures
        res == saturating_product(a, b),
{
    match a.checked_mul(b) {
        Some(product) => product,
        None => u64::MAX,
    }
}

/// Appends a double; `null` if it is not a number.
fn push_float(buf: &mut String, f: &crate::float::Float)
    ensures
        final(buf)@ == old(buf)@ + json_float(f@),
{
    if f.is_nan() {
        buf.append("null");
    } else {
        buf.append(f.short_decimal().as_str());
    }
}

/// Appends an observation in JSON.
pub fn push_observation(buf: &mut String, observation: &Observation)
    ensures
        final(buf)@ == old(buf)@ + json_observation(observation@),
{
    match observation {
        Observation::Unsigned(v) => {
            buf.append(itoa_u64(*v).as_str());
        },
        Observation::Floating(f) => {
            push_float(buf, f);
        },
        Observation::Repeated { total, occurrences, .. } => {
            buf.append("{\"total\":");
            push_float(buf, total);
            buf.append(",\"count\":");
            buf.append(itoa_u64(*occurrences).as_str());
            buf.append("}");
            assert(buf@ =~= old(buf)@ + json_observation(observation@));
        },
    }
}

/// The observation as one number, if it has one.
pub fn emf_number_text(observation: &Observation) -> (res: Option<String>)
    ensures
        optional_text(res) == emf_number(observation@),
{
    match observation {
        Observation::Unsigned(v) => Some(itoa_u64(*v)),
        Observation::Floating(f) => if f.is_nan() {
            None
        } else {
            Some(f.short_decimal())
        },
        Observation::Repeated { occurrences, mean, .. } => if *occurrences == 0 {
            Some("0".to_owned())
        } else if mean.is_nan() {
            None
        } else {
            Some(mean.short_decimal())
        },
    }
}

/// An observation inside a list or an object, if it is written at all.
fn number_text(dialect: Dialect, observation: &Observation) -> (res: Option<String>)
    ensures
        optional_text(res) == number(dialect, observation@),
{
    match dialect {
        Dialect::Emf => emf_number_text(observation),
        Dialect::Json => {
            let mut text = String::new();
            push_observation(&mut text, observation);
            assert(text@ =~= json_observation(observation@));
            Some(text)
        },
    }
}

/// A metric inside a list or an object, if it is written at all.
pub fn metric_element_text(dialect: Dialect, distribution: &Vec<Observation>) -> (res: Option<
    String,
>)
    ensures
        optional_text(res) == metric_element(dialect, observations(distribution@)),
{
    if distribution.len() == 0 {
        None
    } else if distribution.len() == 1 {
        number_text(dialect, &distribution[0])
    } else {
        let ghost all = observations(distribution@);
        let mut text = "[".to_owned();
        let mut any = false;
        for i in 0..distribution.len()
            invariant
                all == observations(distribution@),
                any == (numbers(dialect, all.take(i as int)).len() > 0),
                text@ == "["@ + joined(numbers(dialect, all.take(i as int)), seq![',']),
        {
            let ghost before = numbers(dialect, all.take(i as int));
            proof {
                assert(all.take(i + 1).drop_last() =~= all.take(i as int));
                assert(all.take(i + 1).last() == distribution@[i as int]@);
            }
            if let Some(t) = number_text(dialect, &distribution[i]) {
                push_part(&mut text, &mut any, t.as_str());
                proof {
                    joined_push(before, t@, seq![',']);
                    assert(text@ =~= "["@ + joined(before.push(t@), seq![',']));
                }
            }
        }
        assert(all.take(all.len() as int) =~= all);
        text.append("]");
        Some(text)
    }
}

/// The observations as they are displayed, separated by commas.
fn display_list(distribution: &Vec<Observation>) -> (text: String)
    ensures
        text@ == joined(display_texts(observations(distribution@)), seq![',']),
{
    let ghost all = display_texts(observations(distribution@));
    let mut text = String::new();
    let mut any = false;
    for i in 0..distribution.len()
        invariant
            all == display_texts(observations(distribution@)),
            any == (i > 0),
            text@ == joined(all.take(i as int), seq![',']),
    {
        let part = match &distribution[i] {
            Observation::Unsigned(v) => itoa_u64(*v),
            Observation::Floating(f) => f.display.clone(),
            Observation::Repeated { total, .. } => total.display.clone(),
        };
        push_part(&mut text, &mut any, part.as_str());
        proof {
            joined_push(all.take(i as int), part@, seq![',']);
            assert(all.take(i + 1) =~= all.take(i as int).push(part@));
            assert(text@ =~= joined(all.take(i + 1), seq![',']));
        }
    }
    assert(all.take(all.len() as int) =~= all);
    text
}

/// A value as a plain string.
pub fn captured_text(value: &WrittenValue) -> (text: String)
    ensures
        text@ == captured(value@),
    decreases value, 0nat,
{
    broadcast use nested_models;

    match value {
        WrittenValue::Nothing => String::new(),
        WrittenValue::Text(s) => s.clone(),
        WrittenValue::Metric(m) => display_list(&m.distribution),
        WrittenValue::List(items) => list_text(items),
        WrittenValue::Object(fields) => object_text(Dialect::Json, fields),
        WrittenValue::Error(_) => String::new(),
    }
}

/// The values as plain strings, separated by commas; empty ones are left out.
pub fn list_text(items: &Vec<WrittenValue>) -> (text: String)
    ensures
        text@ == joined(captures(value_models(items@)), seq![',']),
    decreases items, 0nat,
{
    let ghost all = value_models(items@);
    let mut text = String::new();
    let mut any = false;
    for i in 0..items.len()
        invariant
            all == value_models(items@),
            any == (captures(all.take(i as int)).len() > 0),
            text@ == joined(captures(all.take(i as int)), seq![',']),
    {
        let ghost before = captures(all.take(i as int));
        proof {
            assert(all.take(i + 1).drop_last() =~= all.take(i as int));
            assert(all.take(i + 1).last() == items@[i as int]@);
        }
        let part = captured_text(&items[i]);
        if !part.as_str().is_empty() {
            push_part(&mut text, &mut any, part.as_str());
            proof {
                joined_push(before, part@, seq![',']);
                assert(text@ =~= joined(before.push(part@), seq![',']));
            }
        }
    }
    assert(all.take(all.len() as int) =~= all);
    text
}

/// A value inside a list or an object, if it is written at all.
pub fn element_text(dialect: Dialect, in_object: bool, value: &WrittenValue) -> (res: Option<
    String,
>)
    ensures
        optional_text(res) == element(dialect, in_object, value@),
    decreases value, 0nat,
{
    broadcast use nested_models;

    match value {
        WrittenValue::Nothing => None,
        WrittenValue::Text(s) => Some(quote(dialect, s.as_str())),
        WrittenValue::Metric(m) => metric_element_text(dialect, &m.distribution),
        WrittenValue::List(items) => if in_object {
            Some(array_text(dialect, true, items))
        } else {
            Some(quote(dialect, list_text(items).as_str()))
        },
        WrittenValue::Object(fields) => Some(object_text(dialect, fields)),
        WrittenValue::Error(_) => None,
    }
}

/// The values as an array; those that are not written are left out.
pub fn array_text(dialect: Dialect, in_object: bool, items: &Vec<WrittenValue>) -> (text: String)
    ensures
        text@ == "["@ + joined(elements(dialect, in_object, value_models(items@)), seq![','])
            + "]"@,
    decreases items, 0nat,
{
    let ghost all = value_models(items@);
    let mut text = "[".to_owned();
    let mut any = false;
    for i in 0..items.len()
        invariant
            all == value_models(items@),
            any == (elements(dialect, in_object, all.take(i as int)).len() > 0),
            text@ == "["@ + joined(elements(dialect, in_object, all.take(i as int)), seq![',']),
    {
        let ghost before = elements(dialect, in_object, all.take(i as int));
        proof {
            assert(all.take(i + 1).drop_last() =~= all.take(i as int));
            assert(all.take(i + 1).last() == items@[i as int]@);
        }
        if let Some(part) = element_text(dialect, in_object, &items[i]) {
            push_part(&mut text, &mut any, part.as_str());
            proof {
                joined_push(before, part@, seq![',']);
                assert(text@ =~= "["@ + joined(before.push(part@), seq![',']));
            }
        }
    }
    assert(all.take(all.len() as int) =~= all);
    text.append("]");
    text
}

/// The members as an object; those whose value is not written are left out.
pub fn object_text(dialect: Dialect, fields: &Vec<(String, WrittenValue)>) -> (text: String)
    ensures
        text@ == "{"@ + joined(members(dialect, member_models(fields@)), seq![',']) + "}"@,
    decreases fields, 0nat,
{
    let ghost all = member_models(fields@);
    let mut text = "{".to_owned();
    let mut any = false;
    for i in 0..fields.len()
        invariant
            all == member_models(fields@),
            any == (members(dialect, all.take(i as int)).len() > 0),
            text@ == "{"@ + joined(members(dialect, all.take(i as int)), seq![',']),
    {
        let ghost before = members(dialect, all.take(i as int));
        proof {
            assert(all.take(i + 1).drop_last() =~= all.take(i as int));
            assert(all.take(i + 1).last() == (fields@[i as int].0@, fields@[i as int].1@));
        }
        if let Some(part) = element_text(dialect, true, &fields[i].1) {
            let mut member = quote(dialect, fields[i].0.as_str());
            member.append(":");
            member.append(part.as_str());
            push_part(&mut text, &mut any, member.as_str());
            proof {
                joined_push(before, member@, seq![',']);
                assert(text@ =~= "{"@ + joined(before.push(member@), seq![',']));
            }
        }
    }
    assert(all.take(all.len() as int) =~= all);
    text.append("}");
    text
}

// ---------------------------------------------------------------------------
// What is written is JSON
// ---------------------------------------------------------------------------

/// Whether the decimal text of a double is a number, if the double is one.
pub open spec fn float_numeric(f: crate::float::FloatModel) -> bool {
    is_nan(f.bits) || is_number(f.decimal)
}

/// Whether the decimal texts of the doubles in an observation are numbers.
pub open spec fn observation_numeric(o: ObservationModel) -> bool {
    match o {
        ObservationModel::Unsigned(_) => true,
        ObservationModel::Floating(f) => float_numeric(f),
        ObservationModel::Repeated { total, occurrences, mean } => float_numeric(total) && (
        occurrences > 0 ==> float_numeric(mean)),
    }
}

/// Whether the decimal texts of the doubles in all observations are numbers.
pub open spec fn observations_numeric(list: Seq<ObservationModel>) -> bool {
    forall|i: int| 0 <= i < list.len() ==> observation_numeric(#[trigger] list[i])
}

/// Whether the decimal texts of the doubles in a value are numbers.
pub open spec fn value_numeric(value: ValueModel) -> bool
    decreases value,
{
    match value {
        ValueModel::Metric(m) => observations_numeric(m.distribution),
        ValueModel::List(items) => values_numeric(items),
        ValueModel::Object(fields) => members_numeric(fields),
        _ => true,
    }
}

/// Whether the decimal texts of the doubles in all values are numbers.
pub open spec fn values_numeric(items: Seq<ValueModel>) -> bool
    decreases items,
{
    items.len() == 0 || (values_numeric(items.drop_last()) && value_numeric(items.last()))
}

/// Whether the decimal texts of the doubles in all members are numbers.
pub open spec fn members_numeric(fields: Seq<(Seq<char>, ValueModel)>) -> bool
    decreases fields,
{
    fields.len() == 0 || (members_numeric(fields.drop_last()) && value_numeric(fields.last().1))
}

/// Whether the decimal texts of the doubles in the items of an entry are numbers.
pub open spec fn items_numeric(items: Seq<ItemModel>) -> bool {
    forall|i: int|
        0 <= i < items.len() ==> (#[trigger] items[i] matches ItemModel::Value(_, value)
            ==> value_numeric(value))
}

proof fn float_is_json(f: crate::float::FloatModel)
    requires
        float_numeric(f),
    ensures
        !is_nan(f.bits) ==> is_json(short_decimal(f)),
        is_json(json_float(f)),
{
    null_is_json();
    if !is_nan(f.bits) {
        let t = f.decimal;
        if t.len() >= 2 && t[t.len() - 2] == '.' && t[t.len() - 1] == '0' {
            whole_number_is_number(t);
        }
        number_is_json(short_decimal(f));
    }
}

/// An observation is JSON.
pub proof fn observation_is_json(dialect: Dialect, o: ObservationModel)
    requires
        observation_numeric(o),
    ensures
        number(dialect, o) matches Some(t) ==> is_json(t),
        is_json(json_observation(o)),
{
    zero_is_json();
    match o {
        ObservationModel::Unsigned(v) => {
            decimal_is_json(v as nat);
        },
        ObservationModel::Floating(f) => {
            float_is_json(f);
        },
        ObservationModel::Repeated { total, occurrences, mean } => {
            float_is_json(total);
            if occurrences > 0 {
                float_is_json(mean);
            }
            repeated_is_json(total, occurrences);
        },
    }
}

proof fn zero_is_json()
    ensures
        is_json("0"@),
{
    reveal_strlit("0");
    decimal_is_json(0);
    assert("0"@ =~= decimal(0));
}

proof fn repeated_is_json(total: crate::float::FloatModel, occurrences: u64)
    requires
        float_numeric(total),
    ensures
        is_json(
            "{\"total\":"@ + json_float(total) + ",\"count\":"@ + decimal(occurrences as nat)
                + "}"@,
        ),
{
    let count = decimal(occurrences as nat);
    float_is_json(total);
    decimal_is_json(occurrences as nat);
    reveal_strlit("{\"total\":");
    reveal_strlit(",\"count\":");
    reveal_strlit("\"total\"");
    reveal_strlit("\"count\"");
    reveal_strlit("{");
    reveal_strlit("}");
    reveal_strlit(":");
    plain_is_string("\"total\""@);
    plain_is_string("\"count\""@);
    member_of("\"total\""@, json_float(total));
    member_of("\"count\""@, count);
    let first = "\"total\""@ + ":"@ + json_float(total);
    let second = "\"count\""@ + ":"@ + count;
    let parts = seq![first, second];
    object_is_json(parts);
    joined_push(seq![first], second, seq![',']);
    assert(seq![first].push(second) =~= parts);
    assert("{\"total\":"@ + json_float(total) + ",\"count\":"@ + count + "}"@ =~= object_of(parts));
}

/// The numbers of observations are JSON, one by one and as a list.
pub proof fn numbers_are_json(dialect: Dialect, list: Seq<ObservationModel>)
    requires
        observations_numeric(list),
    ensures
        all_json(numbers(dialect, list)),
        metric_element(dialect, list) matches Some(t) ==> is_json(t),
    decreases list.len(),
{
    if list.len() > 0 {
        let init = list.drop_last();
        assert forall|i: int| 0 <= i < init.len() implies observation_numeric(#[trigger] init[i]) by {
            assert(init[i] == list[i]);
        }
        numbers_are_json(dialect, init);
        assert(observation_numeric(list[list.len() - 1]));
        observation_is_json(dialect, list.last());
        observation_is_json(dialect, list[0]);
        list_is_json(numbers(dialect, list));
    }
}

/// A value inside a list or an object is JSON.
pub proof fn element_is_json(dialect: Dialect, in_object: bool, value: ValueModel)
    requires
        value_numeric(value),
    ensures
        element(dialect, in_object, value) matches Some(t) ==> is_json(t),
    decreases value, 1nat,
{
    match value {
        ValueModel::Text(s) => {
            quoted_is_string(s);
        },
        ValueModel::Metric(m) => {
            numbers_are_json(dialect, m.distribution);
        },
        ValueModel::List(items) => {
            elements_are_json(dialect, true, items);
            list_is_json(elements(dialect, true, items));
            quoted_is_string(joined(captures(items), seq![',']));
        },
        ValueModel::Object(fields) => {
            members_are_json(dialect, fields);
            object_is_json(members(dialect, fields));
        },
        _ => {},
    }
}

/// Values inside a list are JSON.
pub proof fn elements_are_json(dialect: Dialect, in_object: bool, items: Seq<ValueModel>)
    requires
        values_numeric(items),
    ensures
        all_json(elements(dialect, in_object, items)),
    decreases items, 0nat,
{
    if items.len() > 0 {
        elements_are_json(dialect, in_object, items.drop_last());
        element_is_json(dialect, in_object, items.last());
    }
}

/// Members of an object are members.
pub proof fn members_are_json(dialect: Dialect, fields: Seq<(Seq<char>, ValueModel)>)
    requires
        members_numeric(fields),
    ensures
        all_members(members(dialect, fields)),
    decreases fields, 0nat,
{
    if fields.len() > 0 {
        members_are_json(dialect, fields.drop_last());
        element_is_json(dialect, true, fields.last().1);
        quoted_is_string(fields.last().0);
        if let Some(t) = element(dialect, true, fields.last().1) {
            member_of(quoted(dialect, fields.last().0), t);
        }
    }
}

} // verus!
