//! What is written of numbers, and of values inside lists and objects.

use vstd::prelude::*;
use vstd::string::*;

use crate::float::FloatModel;
use crate::listing::{selects, selects_more, selects_none};
use crate::nested::{
    captured, captures, display_text, display_texts, element, elements, emf_number,
    json_observation, members, number, numbers, Dialect,
};
use crate::text::{
    decimal, escape_round_trip, joined, json_escaped, json_quoted, json_quoted_plain,
    json_unescaped,
};
use crate::value::{ObservationModel, ValueModel};

verus! {

// ---------------------------------------------------------------------------
// Strings
// ---------------------------------------------------------------------------

/// Whether a text is a string in quotes, with some of its characters escaped.
pub open spec fn is_string_of(text: Seq<char>, s: Seq<char>) -> bool {
    &&& text.len() >= 2
    &&& text[0] == '"'
    &&& text.last() == '"'
    &&& json_unescaped(text.subrange(1, text.len() - 1)) == s
}

/// A string that is written can be read back, in both dialects.
pub proof fn strings_can_be_read_back(s: Seq<char>)
    ensures
        is_string_of(json_quoted(s), s),
        is_string_of(json_quoted_plain(s), s),
{
    escape_round_trip(s, true);
    escape_round_trip(s, false);
    let a = json_quoted(s);
    let b = json_quoted_plain(s);
    assert(a.subrange(1, a.len() - 1) =~= json_escaped(s, true));
    assert(b.subrange(1, b.len() - 1) =~= json_escaped(s, false));
}

/// The string of a text in a dialect.
pub open spec fn string_in(dialect: Dialect, s: Seq<char>) -> Seq<char> {
    match dialect {
        Dialect::Emf => json_quoted(s),
        Dialect::Json => json_quoted_plain(s),
    }
}

// ---------------------------------------------------------------------------
// Numbers
// ---------------------------------------------------------------------------

/// Whether a double is not a number.
pub open spec fn has_no_value(f: FloatModel) -> bool {
    f.bits % 0x8000_0000_0000_0000 > 0x7ff0_0000_0000_0000
}

/// Whether a text is that of a double in decimal notation, with `.0` at its end left out.
pub open spec fn is_decimal_of(f: FloatModel, text: Seq<char>) -> bool {
    ||| f.decimal == text + seq!['.', '0']
    ||| f.decimal == text && !(text.len() >= 2 && text[text.len() - 2] == '.' && text.last() == '0')
}

/// Whether a text is that of a double in JSON: `null` if it is not a number.
pub open spec fn is_double_in_json(f: FloatModel, text: Seq<char>) -> bool {
    if has_no_value(f) {
        text == "null"@
    } else {
        is_decimal_of(f, text)
    }
}

/// Whether a text is that of an observation in JSON: a number as it is, repeated observations by
/// their total and by how many there are.
pub open spec fn is_observation_in_json(o: ObservationModel, text: Seq<char>) -> bool {
    match o {
        ObservationModel::Unsigned(v) => text == decimal(v as nat),
        ObservationModel::Floating(f) => is_double_in_json(f, text),
        ObservationModel::Repeated { total, occurrences, .. } => exists|t: Seq<char>|
            is_double_in_json(total, t) && text == "{\"total\":"@ + #[trigger] (t + ",\"count\":"@)
                + decimal(occurrences as nat) + "}"@,
    }
}

/// Whether there is one number that an observation stands for.
pub open spec fn has_number(o: ObservationModel) -> bool {
    match o {
        ObservationModel::Unsigned(_) => true,
        ObservationModel::Floating(f) => !has_no_value(f),
        ObservationModel::Repeated { occurrences, mean, .. } => occurrences == 0 || !has_no_value(
            mean,
        ),
    }
}

/// Whether a text is that of the number that an observation stands for: of repeated observations
/// their mean, and zero if there are none of them.
pub open spec fn is_number_of(o: ObservationModel, text: Seq<char>) -> bool {
    match o {
        ObservationModel::Unsigned(v) => text == decimal(v as nat),
        ObservationModel::Floating(f) => is_decimal_of(f, text),
        ObservationModel::Repeated { occurrences, mean, .. } => if occurrences == 0 {
            text == seq!['0']
        } else {
            is_decimal_of(mean, text)
        },
    }
}

proof fn short_texts(f: FloatModel)
    ensures
        is_decimal_of(f, crate::float::short_decimal(f)),
{
    let t = f.decimal;
    if t.len() >= 2 && t[t.len() - 2] == '.' && t[t.len() - 1] == '0' {
        assert(t.take(t.len() - 2) + seq!['.', '0'] =~= t);
    }
}

/// What is written of an observation: in plain JSON the number itself or the total and the count,
/// in EMF the number that it stands for, if there is one.
pub proof fn observations_are_written(o: ObservationModel)
    ensures
        is_observation_in_json(o, json_observation(o)),
        emf_number(o) is Some <==> has_number(o),
        emf_number(o) matches Some(t) ==> is_number_of(o, t),
        number(Dialect::Json, o) == Some(json_observation(o)),
        number(Dialect::Emf, o) == emf_number(o),
{
    reveal_strlit("0");
    assert("0"@ =~= seq!['0']);
    match o {
        ObservationModel::Floating(f) => {
            short_texts(f);
        },
        ObservationModel::Repeated { total, occurrences, mean } => {
            short_texts(total);
            short_texts(mean);
            let t = crate::nested::json_float(total);
            assert(is_double_in_json(total, t));
            assert("{\"total\":"@ + t + ",\"count\":"@ + decimal(occurrences as nat) + "}"@
                =~= "{\"total\":"@ + (t + ",\"count\":"@) + decimal(occurrences as nat) + "}"@);
        },
        _ => {},
    }
}

/// Whether the texts are those of the numbers of the observations at the given positions, in order,
/// and no other observation has a number.
pub open spec fn are_numbers_at(
    list: Seq<ObservationModel>,
    at: Seq<int>,
    texts: Seq<Seq<char>>,
) -> bool {
    &&& selects(at, list.len(), |i: int| has_number(list[i]))
    &&& texts.len() == at.len()
    &&& forall|k: int| 0 <= k < at.len() ==> is_number_of(list[at[k]], #[trigger] texts[k])
}

/// The numbers of a metric in EMF are those of its observations, in order.
pub proof fn numbers_are_written(list: Seq<ObservationModel>) -> (at: Seq<int>)
    ensures
        are_numbers_at(list, at, numbers(Dialect::Emf, list)),
    decreases list.len(),
{
    if list.len() == 0 {
        selects_none(|i: int| has_number(list[i]));
        Seq::empty()
    } else {
        let init = list.drop_last();
        let n = init.len();
        let before = numbers_are_written(init);
        let f = |i: int| has_number(init[i]);
        let g = |i: int| has_number(list[i]);
        assert forall|i: int| 0 <= i < n implies #[trigger] f(i) == g(i) by {
            assert(init[i] == list[i]);
        }
        selects_more(before, n, f, g);
        observations_are_written(list[n as int]);
        let at = if g(n as int) {
            before.push(n as int)
        } else {
            before
        };
        let texts = numbers(Dialect::Emf, list);
        assert forall|k: int| 0 <= k < at.len() implies is_number_of(
            list[at[k]],
            #[trigger] texts[k],
        ) by {
            if k < before.len() {
                assert(texts[k] == numbers(Dialect::Emf, init)[k]);
                assert(at[k] == before[k]);
                assert(init[before[k]] == list[before[k]]);
            }
        }
        at
    }
}

/// The numbers of a metric inside a list or an object in plain JSON are all of its observations, in
/// order.
pub proof fn all_numbers_are_written(list: Seq<ObservationModel>)
    ensures
        numbers(Dialect::Json, list).len() == list.len(),
        forall|i: int|
            0 <= i < list.len() ==> is_observation_in_json(
                list[i],
                #[trigger] numbers(Dialect::Json, list)[i],
            ),
    decreases list.len(),
{
    if list.len() > 0 {
        let init = list.drop_last();
        all_numbers_are_written(init);
        observations_are_written(list.last());
        assert forall|i: int| 0 <= i < list.len() implies is_observation_in_json(
            list[i],
            #[trigger] numbers(Dialect::Json, list)[i],
        ) by {
            if i < init.len() {
                assert(numbers(Dialect::Json, list)[i] == numbers(Dialect::Json, init)[i]);
                assert(init[i] == list[i]);
            }
        }
    }
}

// ---------------------------------------------------------------------------
// Values inside lists and objects
// ---------------------------------------------------------------------------

/// Whether a value inside a list or an object is written: there has to be something to write. A
/// single number in EMF has to be one.
pub open spec fn is_written(dialect: Dialect, value: ValueModel) -> bool {
    match value {
        ValueModel::Nothing | ValueModel::Error(_) => false,
        ValueModel::Metric(m) => m.distribution.len() > 1 || (m.distribution.len() == 1 && (dialect
            == Dialect::Json || has_number(m.distribution[0]))),
        _ => true,
    }
}

/// What is written of a value inside a list or an object: a string in quotes, a single number as it
/// is, several in square brackets, an object in braces, and a list in square brackets, or in quotes
/// directly inside a list.
pub proof fn values_are_written(dialect: Dialect, in_object: bool, value: ValueModel)
    ensures
        element(dialect, in_object, value) is Some <==> is_written(dialect, value),
        is_written(dialect, value) ==> element(dialect, in_object, value)->0 == match value {
            ValueModel::Text(s) => string_in(dialect, s),
            ValueModel::Metric(m) => if m.distribution.len() == 1 {
                number(dialect, m.distribution[0])->0
            } else {
                "["@ + joined(numbers(dialect, m.distribution), seq![',']) + "]"@
            },
            ValueModel::List(items) => if in_object {
                "["@ + joined(elements(dialect, true, items), seq![',']) + "]"@
            } else {
                string_in(dialect, joined(captures(items), seq![',']))
            },
            ValueModel::Object(fields) => "{"@ + joined(members(dialect, fields), seq![','])
                + "}"@,
            _ => arbitrary(),
        },
{
    if let ValueModel::Metric(m) = value {
        if m.distribution.len() == 1 {
            observations_are_written(m.distribution[0]);
        }
    }
}

/// Whether the texts are those of the values at the given positions, in order, and no other value is
/// written.
pub open spec fn are_elements_at(
    dialect: Dialect,
    in_object: bool,
    items: Seq<ValueModel>,
    at: Seq<int>,
    texts: Seq<Seq<char>>,
) -> bool {
    &&& selects(at, items.len(), |i: int| is_written(dialect, items[i]))
    &&& texts.len() == at.len()
    &&& forall|k: int|
        0 <= k < at.len() ==> element(dialect, in_object, items[at[k]]) == Some(#[trigger] texts[k])
}

/// The elements of a list are those of its values that are written, in order.
pub proof fn lists_are_written(dialect: Dialect, in_object: bool, items: Seq<ValueModel>) -> (at:
    Seq<int>)
    ensures
        are_elements_at(dialect, in_object, items, at, elements(dialect, in_object, items)),
    decreases items.len(),
{
    if items.len() == 0 {
        selects_none(|i: int| is_written(dialect, items[i]));
        Seq::empty()
    } else {
        let init = items.drop_last();
        let n = init.len();
        let before = lists_are_written(dialect, in_object, init);
        let f = |i: int| is_written(dialect, init[i]);
        let g = |i: int| is_written(dialect, items[i]);
        assert forall|i: int| 0 <= i < n implies #[trigger] f(i) == g(i) by {
            assert(init[i] == items[i]);
        }
        selects_more(before, n, f, g);
        values_are_written(dialect, in_object, items[n as int]);
        let at = if g(n as int) {
            before.push(n as int)
        } else {
            before
        };
        let texts = elements(dialect, in_object, items);
        assert forall|k: int| 0 <= k < at.len() implies element(dialect, in_object, items[at[k]])
            == Some(#[trigger] texts[k]) by {
            if k < before.len() {
                assert(texts[k] == elements(dialect, in_object, init)[k]);
                assert(at[k] == before[k]);
                assert(init[before[k]] == items[before[k]]);
            }
        }
        at
    }
}

/// Whether the texts are those of the members at the given positions, each with its name, in order,
/// and no other member is written.
pub open spec fn are_members_at(
    dialect: Dialect,
    fields: Seq<(Seq<char>, ValueModel)>,
    at: Seq<int>,
    texts: Seq<Seq<char>>,
) -> bool {
    &&& selects(at, fields.len(), |i: int| is_written(dialect, fields[i].1))
    &&& texts.len() == at.len()
    &&& forall|k: int|
        0 <= k < at.len() ==> #[trigger] texts[k] == string_in(dialect, fields[at[k]].0) + ":"@
            + element(dialect, true, fields[at[k]].1)->0
}

/// The members of an object are those whose values are written, in order, each with its name.
pub proof fn objects_are_written(dialect: Dialect, fields: Seq<(Seq<char>, ValueModel)>) -> (at: Seq<
    int,
>)
    ensures
        are_members_at(dialect, fields, at, members(dialect, fields)),
    decreases fields.len(),
{
    if fields.len() == 0 {
        selects_none(|i: int| is_written(dialect, fields[i].1));
        Seq::empty()
    } else {
        let init = fields.drop_last();
        let n = init.len();
        let before = objects_are_written(dialect, init);
        let f = |i: int| is_written(dialect, init[i].1);
        let g = |i: int| is_written(dialect, fields[i].1);
        assert forall|i: int| 0 <= i < n implies #[trigger] f(i) == g(i) by {
            assert(init[i] == fields[i]);
        }
        selects_more(before, n, f, g);
        values_are_written(dialect, true, fields[n as int].1);
        let at = if g(n as int) {
            before.push(n as int)
        } else {
            before
        };
        let texts = members(dialect, fields);
        assert forall|k: int| 0 <= k < at.len() implies #[trigger] texts[k] == string_in(
            dialect,
            fields[at[k]].0,
        ) + ":"@ + element(dialect, true, fields[at[k]].1)->0 by {
            if k < before.len() {
                assert(texts[k] == members(dialect, init)[k]);
                assert(at[k] == before[k]);
                assert(init[before[k]] == fields[before[k]]);
            }
        }
        at
    }
}

// ---------------------------------------------------------------------------
// Values as plain strings
// ---------------------------------------------------------------------------

/// What is left of a value as a plain string: a string as it is; the observations of a metric as
/// they are displayed and the values of a list as plain strings, with commas between them; an object
/// in JSON; nothing of an error.
pub proof fn values_as_plain_strings(value: ValueModel)
    ensures
        captured(value) == match value {
            ValueModel::Text(s) => s,
            ValueModel::Metric(m) => joined(display_texts(m.distribution), seq![',']),
            ValueModel::List(items) => joined(captures(items), seq![',']),
            ValueModel::Object(fields) => "{"@ + joined(members(Dialect::Json, fields), seq![','])
                + "}"@,
            ValueModel::Nothing | ValueModel::Error(_) => Seq::empty(),
        },
{
}

/// Each observation is displayed: a number as it is, repeated ones by their total.
pub proof fn observations_are_displayed(list: Seq<ObservationModel>)
    ensures
        display_texts(list).len() == list.len(),
        forall|i: int|
            0 <= i < list.len() ==> #[trigger] display_texts(list)[i] == match list[i] {
                ObservationModel::Unsigned(v) => decimal(v as nat),
                ObservationModel::Floating(f) => f.display,
                ObservationModel::Repeated { total, .. } => total.display,
            },
{
    assert forall|i: int| 0 <= i < list.len() implies #[trigger] display_texts(list)[i]
        == display_text(list[i]) by {}
}

/// Whether the texts are the values at the given positions as plain strings, in order, and nothing
/// is left of any other value.
pub open spec fn are_plain_strings_at(
    items: Seq<ValueModel>,
    at: Seq<int>,
    texts: Seq<Seq<char>>,
) -> bool {
    &&& selects(at, items.len(), |i: int| captured(items[i]).len() > 0)
    &&& texts.len() == at.len()
    &&& forall|k: int| 0 <= k < at.len() ==> #[trigger] texts[k] == captured(items[at[k]])
}

/// A list as a plain string is made of those of its values of which something is left, in order.
pub proof fn lists_as_plain_strings(items: Seq<ValueModel>) -> (at: Seq<int>)
    ensures
        are_plain_strings_at(items, at, captures(items)),
    decreases items.len(),
{
    if items.len() == 0 {
        selects_none(|i: int| captured(items[i]).len() > 0);
        Seq::empty()
    } else {
        let init = items.drop_last();
        let n = init.len();
        let before = lists_as_plain_strings(init);
        let f = |i: int| captured(init[i]).len() > 0;
        let g = |i: int| captured(items[i]).len() > 0;
        assert forall|i: int| 0 <= i < n implies #[trigger] f(i) == g(i) by {
            assert(init[i] == items[i]);
        }
        selects_more(before, n, f, g);
        let at = if g(n as int) {
            before.push(n as int)
        } else {
            before
        };
        let texts = captures(items);
        assert forall|k: int| 0 <= k < at.len() implies #[trigger] texts[k] == captured(
            items[at[k]],
        ) by {
            if k < before.len() {
                assert(texts[k] == captures(init)[k]);
                assert(at[k] == before[k]);
                assert(init[before[k]] == items[before[k]]);
            }
        }
        at
    }
}

} // verus!
