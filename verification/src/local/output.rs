//! Entries as text, as JSON and as tables.

use vstd::prelude::*;
use vstd::string::*;
use vstd::utf8::encode_utf8;

use crate::assoc::{
    has_member, member_position, member_position_is_first, names_differ, put, put_member,
};
use crate::local::collect::{Collector, Field, FieldData, MetricField};
use crate::local::percentile::{
    compute_percentiles, percentile_position, total_count, total_weight, Percentile,
};
use crate::local::tree::{
    compact_text, copy_number, indented_text, object_model, object_to_text, proper, proper_members,
    sorted_tree, tree_members, JsonModel, JsonTree, NumberModel,
};
use crate::text::{concat, decimal, itoa_u64, joined, joined_push};
use crate::unit::{unit_name, Unit};
use crate::value::pairs;

verus! {

/// Whether a metric is shown by its percentiles: if it is a distribution, or if there is more
/// than one observation.
pub open spec fn shows_histogram(m: MetricField) -> bool {
    m.is_distribution || total_weight(m.observations@) > 1
}

/// The text of the only observation of a metric, or of zero.
pub open spec fn single_text(m: MetricField) -> Seq<char> {
    if m.observations@.len() > 0 {
        m.observations@[0].text@
    } else {
        m.zero_text@
    }
}

/// The position of the observation that the percentile with that number falls on.
pub open spec fn percentile_at(m: MetricField, k: int) -> int {
    percentile_position(m.observations@, m.targets@[k]) as int
}

/// The number of percentiles that are shown: none without observations.
pub open spec fn shown_percentiles(m: MetricField, percentiles: Seq<Percentile>) -> nat {
    if m.observations@.len() == 0 {
        0
    } else {
        percentiles.len()
    }
}

// ---------------------------------------------------------------------------
// Text
// ---------------------------------------------------------------------------

/// The dimensions of a metric: names and instances with an equals sign between them.
pub open spec fn dimension_texts(dimensions: Seq<(Seq<char>, Seq<char>)>) -> Seq<Seq<char>> {
    dimensions.map_values(|p: (Seq<char>, Seq<char>)| p.0 + "="@ + p.1)
}

/// The line with the name and the dimensions of a metric, if it has any.
pub open spec fn dimension_line(name: Seq<char>, dimensions: Seq<(Seq<char>, Seq<char>)>) -> Seq<
    char,
> {
    if dimensions.len() == 0 {
        Seq::empty()
    } else {
        "  "@ + name + " ["@ + joined(dimension_texts(dimensions), ", "@) + "]:\n"@
    }
}

/// The lines for the first `n` percentiles.
pub open spec fn percentile_lines(m: MetricField, percentiles: Seq<Percentile>, n: nat) -> Seq<char>
    decreases n,
{
    if n == 0 {
        Seq::empty()
    } else {
        percentile_lines(m, percentiles, (n - 1) as nat) + ("    "@ + percentiles[n - 1].label@
            + ": "@ + m.observations@[percentile_at(m, n - 1)].text@ + "\n"@)
    }
}

/// The lines for a field.
pub open spec fn pretty_field(field: Field, percentiles: Seq<Percentile>) -> Seq<char> {
    match field.data {
        FieldData::Text(s) => "  "@ + field.name@ + ": "@ + s@ + "\n"@,
        FieldData::Metric(m) => {
            let plain = m.dimensions@.len() == 0;
            let start = if plain {
                "  "@ + field.name@
            } else {
                "   "@
            };
            dimension_line(field.name@, pairs(m.dimensions@)) + (if !shows_histogram(m) {
                if plain {
                    "  "@ + field.name@ + ": "@ + single_text(m) + "\n"@
                } else {
                    "    "@ + single_text(m) + "\n"@
                }
            } else {
                start + " ("@ + decimal(total_weight(m.observations@)) + " samples):\n"@
                    + percentile_lines(m, percentiles, shown_percentiles(m, percentiles))
            })
        },
    }
}

/// The lines for an entry.
pub open spec fn pretty_text(c: Collector, percentiles: Seq<Percentile>) -> Seq<char> {
    "---\n"@ + (match c.timestamp {
        Some(t) => "  timestamp: "@ + t.text@ + "\n"@,
        None => Seq::empty(),
    }) + concat(c.fields@.map_values(|f: Field| pretty_field(f, percentiles)))
}

/// The line with the name and the dimensions of a metric, if it has any.
fn dimension_line_text(name: &str, dimensions: &Vec<(String, String)>) -> (text: String)
    ensures
        text@ == dimension_line(name@, pairs(dimensions@)),
{
    if dimensions.len() == 0 {
        return String::new();
    }
    let mut text = "  ".to_owned();
    text.append(name);
    text.append(" [");
    let ghost head = text@;
    let ghost all = dimension_texts(pairs(dimensions@));
    for i in 0..dimensions.len()
        invariant
            all == dimension_texts(pairs(dimensions@)),
            text@ == head + joined(all.take(i as int), ", "@),
    {
        let ghost before = text@;
        if i > 0 {
            text.append(", ");
        }
        text.append(dimensions[i].0.as_str());
        text.append("=");
        text.append(dimensions[i].1.as_str());
        proof {
            joined_push(all.take(i as int), all[i as int], ", "@);
            assert(all.take(i + 1) =~= all.take(i as int).push(all[i as int]));
            assert(text@ =~= head + joined(all.take(i + 1), ", "@));
        }
    }
    assert(all.take(all.len() as int) =~= all);
    text.append("]:\n");
    text
}

/// The lines for a field.
fn pretty_field_text(field: &Field, percentiles: &Vec<Percentile>) -> (text: String)
    requires
        field.wf(percentiles@.len()),
    ensures
        text@ == pretty_field(*field, percentiles@),
{
    let name = field.name.as_str();
    match &field.data {
        FieldData::Text(s) => {
            let mut text = "  ".to_owned();
            text.append(name);
            text.append(": ");
            text.append(s.as_str());
            text.append("\n");
            text
        },
        FieldData::Metric(m) => {
            let mut text = dimension_line_text(name, &m.dimensions);
            let ghost head = text@;
            let plain = m.dimensions.len() == 0;
            let count: u64 = total_count(&m.observations);
            let mut body;
            if !(m.is_distribution || count > 1) {
                let value = if m.observations.len() > 0 {
                    m.observations[0].text.as_str()
                } else {
                    m.zero_text.as_str()
                };
                if plain {
                    body = "  ".to_owned();
                    body.append(name);
                    body.append(": ");
                } else {
                    body = "    ".to_owned();
                }
                body.append(value);
                body.append("\n");
            } else {
                if plain {
                    body = "  ".to_owned();
                    body.append(name);
                } else {
                    body = "   ".to_owned();
                }
                body.append(" (");
                body.append(itoa_u64(count).as_str());
                body.append(" samples):\n");
                let ghost start = body@;
                let chosen = compute_percentiles(&m.observations, &m.targets);
                for k in 0..chosen.len()
                    invariant
                        chosen@.len() == shown_percentiles(*m, percentiles@),
                        chosen@.len() <= percentiles@.len(),
                        forall|k: int|
                            0 <= k < chosen@.len() ==> (#[trigger] chosen@[k])
                                == percentile_position(m.observations@, m.targets@[k]) && chosen@[k]
                                < m.observations@.len(),
                        body@ == start + percentile_lines(*m, percentiles@, k as nat),
                {
                    let mut row = "    ".to_owned();
                    row.append(percentiles[k].label.as_str());
                    row.append(": ");
                    row.append(m.observations[chosen[k]].text.as_str());
                    row.append("\n");
                    body.append(row.as_str());
                    assert(body@ =~= start + percentile_lines(*m, percentiles@, (k + 1) as nat));
                }
            }
            text.append(body.as_str());
            text
        },
    }
}

/// Writes an entry as indented lines.
pub fn write_pretty(collector: &Collector, percentiles: &Vec<Percentile>) -> (text: String)
    requires
        collector.wf(percentiles@.len()),
    ensures
        text@ == pretty_text(*collector, percentiles@),
{
    let mut text = "---\n".to_owned();
    if let Some(t) = &collector.timestamp {
        let mut row = "  timestamp: ".to_owned();
        row.append(t.text.as_str());
        row.append("\n");
        text.append(row.as_str());
    } else {
        assert(text@ =~= "---\n"@ + Seq::empty());
    }
    let ghost head = text@;
    let ghost all = collector.fields@.map_values(|f: Field| pretty_field(f, percentiles@));
    assert(text@ =~= head + concat(all.take(0)));
    for i in 0..collector.fields.len()
        invariant
            collector.wf(percentiles@.len()),
            all == collector.fields@.map_values(|f: Field| pretty_field(f, percentiles@)),
            text@ == head + concat(all.take(i as int)),
    {
        text.append(pretty_field_text(&collector.fields[i], percentiles).as_str());
        proof {
            assert(all.take(i + 1).drop_last() =~= all.take(i as int));
            assert(text@ =~= head + concat(all.take(i + 1)));
        }
    }
    assert(all.take(all.len() as int) =~= all);
    text
}

// ---------------------------------------------------------------------------
// JSON
// ---------------------------------------------------------------------------

/// The count of the observations and the values of the first `n` percentiles.
pub open spec fn histogram_members(m: MetricField, percentiles: Seq<Percentile>, n: nat) -> Seq<
    (Seq<char>, JsonModel),
>
    decreases n,
{
    if n == 0 {
        put(
            Seq::empty(),
            "count"@,
            JsonModel::Number(NumberModel::Integer(total_weight(m.observations@) as int)),
        )
    } else {
        put(
            histogram_members(m, percentiles, (n - 1) as nat),
            percentiles[n - 1].label@,
            m.observations@[percentile_at(m, n - 1)].json@,
        )
    }
}

/// The first `n` dimensions.
pub open spec fn dimension_members(dimensions: Seq<(Seq<char>, Seq<char>)>, n: nat) -> Seq<
    (Seq<char>, JsonModel),
>
    decreases n,
{
    if n == 0 {
        Seq::empty()
    } else {
        put(
            dimension_members(dimensions, (n - 1) as nat),
            dimensions[n - 1].0,
            JsonModel::Text(dimensions[n - 1].1),
        )
    }
}

/// The value of a metric: that of its only observation, zero without observations, or its
/// percentiles.
pub open spec fn metric_json(m: MetricField, percentiles: Seq<Percentile>) -> JsonModel {
    if shows_histogram(m) {
        JsonModel::Object(histogram_members(m, percentiles, shown_percentiles(m, percentiles)))
    } else if m.observations@.len() > 0 {
        m.observations@[0].json@
    } else {
        JsonModel::Number(NumberModel::Integer(0))
    }
}

/// The members with those for a field: its value, and for a metric its unit and its
/// dimensions.
pub open spec fn with_field(
    members: Seq<(Seq<char>, JsonModel)>,
    field: Field,
    percentiles: Seq<Percentile>,
) -> Seq<(Seq<char>, JsonModel)> {
    let name = field.name@;
    match field.data {
        FieldData::Text(s) => put(members, name, JsonModel::Text(s@)),
        FieldData::Metric(m) => {
            let valued = put(members, name, metric_json(m, percentiles));
            let united = if m.unit == Unit::NoUnit {
                valued
            } else {
                put(valued, name + "_unit"@, JsonModel::Text(unit_name(m.unit)))
            };
            if m.dimensions@.len() == 0 {
                united
            } else {
                put(
                    united,
                    name + "_dimensions"@,
                    JsonModel::Object(
                        dimension_members(pairs(m.dimensions@), m.dimensions@.len()),
                    ),
                )
            }
        },
    }
}

/// The members for the timestamp, if it is not before the epoch.
pub open spec fn timestamp_members(c: Collector) -> Seq<(Seq<char>, JsonModel)> {
    match c.timestamp {
        Some(t) if t.nanos >= 0 => put(
            put(Seq::empty(), "timestamp"@, t.seconds@),
            "timestamp_iso"@,
            JsonModel::Text(t.text@),
        ),
        _ => Seq::empty(),
    }
}

/// The members for the timestamp and the first `n` fields.
pub open spec fn entry_members(c: Collector, percentiles: Seq<Percentile>, n: nat) -> Seq<
    (Seq<char>, JsonModel),
>
    decreases n,
{
    if n == 0 {
        timestamp_members(c)
    } else {
        with_field(entry_members(c, percentiles, (n - 1) as nat), c.fields@[n - 1], percentiles)
    }
}

/// The object for an entry, with the members of all objects ordered by name.
pub open spec fn entry_json(c: Collector, percentiles: Seq<Percentile>) -> JsonModel {
    sorted_tree(JsonModel::Object(entry_members(c, percentiles, c.fields@.len())))
}

/// Setting a member keeps objects proper.
proof fn put_is_proper(
    members: Seq<(Seq<char>, JsonModel)>,
    name: Seq<char>,
    value: JsonModel,
)
    requires
        proper_members(members),
        proper(value),
    ensures
        proper_members(put(members, name, value)),
{
    member_position_is_first(members, name);
    if has_member(members, name) {
        update_is_proper(members, member_position(members, name), (name, value));
    } else {
        let all = members.push((name, value));
        assert(put(members, name, value) == all);
        assert(all.drop_last() =~= members);
        assert(all.last() == (name, value));
    }
}

proof fn update_is_proper(
    members: Seq<(Seq<char>, JsonModel)>,
    i: int,
    entry: (Seq<char>, JsonModel),
)
    requires
        0 <= i < members.len(),
        proper_members(members),
        proper(entry.1),
    ensures
        proper_members(members.update(i, entry)),
    decreases members.len(),
{
    let all = members.update(i, entry);
    if i == members.len() - 1 {
        assert(all.drop_last() =~= members.drop_last());
    } else {
        update_is_proper(members.drop_last(), i, entry);
        assert(all.drop_last() =~= members.drop_last().update(i, entry));
        assert(all.last() == members.last());
    }
}

/// Sets a member of an object to a value.
fn add_member(members: &mut Vec<(String, JsonTree)>, name: String, value: JsonTree)
    requires
        names_differ(tree_members(old(members)@)),
        proper_members(tree_members(old(members)@)),
        proper(value@),
    ensures
        tree_members(final(members)@) == put(tree_members(old(members)@), name@, value@),
        names_differ(tree_members(final(members)@)),
        proper_members(tree_members(final(members)@)),
{
    proof {
        put_is_proper(tree_members(members@), name@, value@);
    }
    put_member(members, name, value);
}

/// The percentiles of a metric.
fn histogram_json(m: &MetricField, percentiles: &Vec<Percentile>) -> (members: Vec<
    (String, JsonTree),
>)
    requires
        m.wf(percentiles@.len()),
    ensures
        tree_members(members@) == histogram_members(
            *m,
            percentiles@,
            shown_percentiles(*m, percentiles@),
        ),
        names_differ(tree_members(members@)),
        proper_members(tree_members(members@)),
{
    let mut members: Vec<(String, JsonTree)> = Vec::new();
    assert(tree_members(members@) =~= Seq::empty());
    let count: u64 = total_count(&m.observations);
    add_member(&mut members, "count".to_owned(), JsonTree::Count(count));
    let chosen = compute_percentiles(&m.observations, &m.targets);
    for k in 0..chosen.len()
        invariant
            m.wf(percentiles@.len()),
            chosen@.len() == shown_percentiles(*m, percentiles@),
            chosen@.len() <= percentiles@.len(),
            forall|k: int|
                0 <= k < chosen@.len() ==> (#[trigger] chosen@[k]) == percentile_position(
                    m.observations@,
                    m.targets@[k],
                ) && chosen@[k] < m.observations@.len(),
            tree_members(members@) == histogram_members(*m, percentiles@, k as nat),
            names_differ(tree_members(members@)),
            proper_members(tree_members(members@)),
    {
        let value = copy_number(&m.observations[chosen[k]].json);
        add_member(&mut members, percentiles[k].label.clone(), value);
    }
    members
}

/// The dimensions of a metric.
fn dimension_json(dimensions: &Vec<(String, String)>) -> (members: Vec<(String, JsonTree)>)
    ensures
        tree_members(members@) == dimension_members(pairs(dimensions@), dimensions@.len()),
        names_differ(tree_members(members@)),
        proper_members(tree_members(members@)),
{
    let mut members: Vec<(String, JsonTree)> = Vec::new();
    assert(tree_members(members@) =~= Seq::empty());
    for i in 0..dimensions.len()
        invariant
            tree_members(members@) == dimension_members(pairs(dimensions@), i as nat),
            names_differ(tree_members(members@)),
            proper_members(tree_members(members@)),
    {
        add_member(
            &mut members,
            dimensions[i].0.clone(),
            JsonTree::Text(dimensions[i].1.clone()),
        );
    }
    members
}

/// Sets the members for a field.
fn add_field(members: &mut Vec<(String, JsonTree)>, field: &Field, percentiles: &Vec<Percentile>)
    requires
        field.wf(percentiles@.len()),
        names_differ(tree_members(old(members)@)),
        proper_members(tree_members(old(members)@)),
    ensures
        tree_members(final(members)@) == with_field(
            tree_members(old(members)@),
            *field,
            percentiles@,
        ),
        names_differ(tree_members(final(members)@)),
        proper_members(tree_members(final(members)@)),
{
    broadcast use object_model;

    match &field.data {
        FieldData::Text(s) => {
            add_member(members, field.name.clone(), JsonTree::Text(s.clone()));
        },
        FieldData::Metric(m) => {
            let count: u64 = total_count(&m.observations);
            let value = if m.is_distribution || count > 1 {
                JsonTree::Object(histogram_json(m, percentiles))
            } else if m.observations.len() > 0 {
                copy_number(&m.observations[0].json)
            } else {
                JsonTree::Int(0)
            };
            assert(value@ == metric_json(*m, percentiles@));
            add_member(members, field.name.clone(), value);
            if !m.unit.is_none() {
                let mut name = field.name.clone();
                name.append("_unit");
                add_member(members, name, JsonTree::Text(m.unit.name().to_owned()));
            }
            if m.dimensions.len() > 0 {
                let mut name = field.name.clone();
                name.append("_dimensions");
                let value = JsonTree::Object(dimension_json(&m.dimensions));
                add_member(members, name, value);
            }
        },
    }
}

/// Writes an entry as a JSON object, in one line or indented.
pub fn write_json(collector: &Collector, percentiles: &Vec<Percentile>, compact: bool) -> (text:
    String)
    requires
        collector.wf(percentiles@.len()),
    ensures
        text@ == (if compact {
            compact_text(entry_json(*collector, percentiles@))
        } else {
            indented_text(entry_json(*collector, percentiles@))
        }) + "\n"@,
{
    let mut members: Vec<(String, JsonTree)> = Vec::new();
    assert(tree_members(members@) =~= Seq::empty());
    if let Some(t) = &collector.timestamp {
        if t.nanos >= 0 {
            let seconds = copy_number(&t.seconds);
            add_member(&mut members, "timestamp".to_owned(), seconds);
            add_member(&mut members, "timestamp_iso".to_owned(), JsonTree::Text(t.text.clone()));
        }
    }
    for i in 0..collector.fields.len()
        invariant
            collector.wf(percentiles@.len()),
            tree_members(members@) == entry_members(*collector, percentiles@, i as nat),
            names_differ(tree_members(members@)),
            proper_members(tree_members(members@)),
    {
        add_field(&mut members, &collector.fields[i], percentiles);
    }
    let mut text = object_to_text(members, compact);
    text.append("\n");
    text
}

// ---------------------------------------------------------------------------
// Tables
// ---------------------------------------------------------------------------

/// The rows for the first `n` percentiles.
pub open spec fn percentile_rows(
    name: Seq<char>,
    m: MetricField,
    percentiles: Seq<Percentile>,
    n: nat,
) -> Seq<(Seq<char>, Seq<char>)>
    decreases n,
{
    if n == 0 {
        Seq::empty()
    } else {
        percentile_rows(name, m, percentiles, (n - 1) as nat).push(
            (
                name + "."@ + percentiles[n - 1].label@,
                m.observations@[percentile_at(m, n - 1)].text@,
            ),
        )
    }
}

/// The rows for the dimensions of a metric.
pub open spec fn dimension_rows(name: Seq<char>, dimensions: Seq<(Seq<char>, Seq<char>)>) -> Seq<
    (Seq<char>, Seq<char>),
> {
    dimensions.map_values(|p: (Seq<char>, Seq<char>)| (name + "."@ + p.0, p.1))
}

/// The rows for a field.
pub open spec fn field_rows(field: Field, percentiles: Seq<Percentile>) -> Seq<
    (Seq<char>, Seq<char>),
> {
    let name = field.name@;
    match field.data {
        FieldData::Text(s) => seq![(name, s@)],
        FieldData::Metric(m) => dimension_rows(name, pairs(m.dimensions@)) + (if shows_histogram(
            m,
        ) {
            percentile_rows(name, m, percentiles, shown_percentiles(m, percentiles)).push(
                (name + ".count"@, decimal(total_weight(m.observations@))),
            )
        } else {
            seq![(name, single_text(m))]
        }),
    }
}

/// The rows for the timestamp and the first `n` fields.
pub open spec fn table_rows(c: Collector, percentiles: Seq<Percentile>, n: nat) -> Seq<
    (Seq<char>, Seq<char>),
>
    decreases n,
{
    if n == 0 {
        match c.timestamp {
            Some(t) => seq![("timestamp"@, t.text@)],
            None => Seq::empty(),
        }
    } else {
        table_rows(c, percentiles, (n - 1) as nat) + field_rows(c.fields@[n - 1], percentiles)
    }
}

/// The number of bytes of a text.
pub open spec fn byte_len(s: Seq<char>) -> usize {
    encode_utf8(s).len() as usize
}

/// The greatest number of bytes in a column, or `least` if that is greater.
pub open spec fn column_width(column: Seq<Seq<char>>, least: usize) -> usize
    decreases column.len(),
{
    if column.len() == 0 {
        least
    } else {
        let w = column_width(column.drop_last(), least);
        if byte_len(column.last()) > w {
            byte_len(column.last())
        } else {
            w
        }
    }
}

/// The names in the rows.
pub open spec fn name_column(rows: Seq<(Seq<char>, Seq<char>)>) -> Seq<Seq<char>> {
    rows.map_values(|r: (Seq<char>, Seq<char>)| r.0)
}

/// The values in the rows.
pub open spec fn value_column(rows: Seq<(Seq<char>, Seq<char>)>) -> Seq<Seq<char>> {
    rows.map_values(|r: (Seq<char>, Seq<char>)| r.1)
}

/// The text, filled up at its end to a number of characters.
pub open spec fn filled(s: Seq<char>, width: usize, fill: char) -> Seq<char> {
    if s.len() < width {
        s + Seq::new((width - s.len()) as nat, |i: int| fill)
    } else {
        s
    }
}

/// A row of the table.
pub open spec fn row_text(
    name: Seq<char>,
    value: Seq<char>,
    name_width: usize,
    value_width: usize,
    fill: char,
) -> Seq<char> {
    "| "@ + filled(name, name_width, fill) + " | "@ + filled(value, value_width, fill) + " |\n"@
}

/// The table for an entry: a heading, a rule and the rows, in columns as wide as their widest
/// entry.
pub open spec fn table_text(rows: Seq<(Seq<char>, Seq<char>)>) -> Seq<char> {
    let name_width = column_width(name_column(rows), 4);
    let value_width = column_width(value_column(rows), 5);
    row_text("Name"@, "Value"@, name_width, value_width, ' ') + row_text(
        ""@,
        ""@,
        name_width,
        value_width,
        '-',
    ) + concat(
        rows.map_values(
            |r: (Seq<char>, Seq<char>)| row_text(r.0, r.1, name_width, value_width, ' '),
        ),
    )
}

/// Appends a text, filled up at its end to a number of characters.
fn push_filled(text: &mut String, s: &str, width: usize, fill: char)
    ensures
        final(text)@ == old(text)@ + filled(s@, width, fill),
{
    text.append(s);
    let n: usize = s.unicode_len();
    let ghost head = text@;
    if n < width {
        for i in 0..width - n
            invariant
                text@ == head + Seq::new(i as nat, |i: int| fill),
        {
            text.push(fill);
            assert(text@ =~= head + Seq::new((i + 1) as nat, |i: int| fill));
        }
        assert(text@ =~= old(text)@ + filled(s@, width, fill));
    }
}

/// Appends a row of the table.
fn push_row(
    text: &mut String,
    name: &str,
    value: &str,
    name_width: usize,
    value_width: usize,
    fill: char,
)
    ensures
        final(text)@ == old(text)@ + row_text(name@, value@, name_width, value_width, fill),
{
    text.append("| ");
    push_filled(text, name, name_width, fill);
    text.append(" | ");
    push_filled(text, value, value_width, fill);
    text.append(" |\n");
    assert(text@ =~= old(text)@ + row_text(name@, value@, name_width, value_width, fill));
}

/// A name, a point and another name.
fn dotted(name: &str, part: &str) -> (text: String)
    ensures
        text@ == name@ + "."@ + part@,
{
    let mut text = name.to_owned();
    text.append(".");
    text.append(part);
    text
}

/// Adds the rows for a field.
fn push_field_rows(
    rows: &mut Vec<(String, String)>,
    field: &Field,
    percentiles: &Vec<Percentile>,
)
    requires
        field.wf(percentiles@.len()),
    ensures
        pairs(final(rows)@) == pairs(old(rows)@) + field_rows(*field, percentiles@),
{
    let ghost start = pairs(rows@);
    let name = field.name.as_str();
    match &field.data {
        FieldData::Text(s) => {
            rows.push((field.name.clone(), s.clone()));
            assert(pairs(rows@) =~= start + field_rows(*field, percentiles@));
        },
        FieldData::Metric(m) => {
            let ghost all = dimension_rows(name@, pairs(m.dimensions@));
            assert(start + all.take(0) =~= start);
            for i in 0..m.dimensions.len()
                invariant
                    all == dimension_rows(name@, pairs(m.dimensions@)),
                    pairs(rows@) == start + all.take(i as int),
            {
                let ghost before = rows@;
                rows.push((dotted(name, m.dimensions[i].0.as_str()), m.dimensions[i].1.clone()));
                proof {
                    assert(pairs(rows@) =~= pairs(before).push(all[i as int]));
                    assert(start + all.take(i + 1) =~= (start + all.take(i as int)).push(
                        all[i as int],
                    ));
                }
            }
            assert(all.take(all.len() as int) =~= all);
            let ghost middle = pairs(rows@);
            let count: u64 = total_count(&m.observations);
            if m.is_distribution || count > 1 {
                let chosen = compute_percentiles(&m.observations, &m.targets);
                assert(middle + percentile_rows(name@, *m, percentiles@, 0) =~= middle);
                for k in 0..chosen.len()
                    invariant
                        chosen@.len() == shown_percentiles(*m, percentiles@),
                        chosen@.len() <= percentiles@.len(),
                        forall|k: int|
                            0 <= k < chosen@.len() ==> (#[trigger] chosen@[k])
                                == percentile_position(m.observations@, m.targets@[k]) && chosen@[k]
                                < m.observations@.len(),
                        pairs(rows@) == middle + percentile_rows(
                            name@,
                            *m,
                            percentiles@,
                            k as nat,
                        ),
                {
                    let ghost before = rows@;
                    let label = dotted(name, percentiles[k].label.as_str());
                    let value = m.observations[chosen[k]].text.clone();
                    let ghost row = (label@, value@);
                    rows.push((label, value));
                    proof {
                        assert(pairs(rows@) =~= pairs(before).push(row));
                        assert(pairs(rows@) =~= middle + percentile_rows(
                            name@,
                            *m,
                            percentiles@,
                            (k + 1) as nat,
                        ));
                    }
                }
                let ghost before = rows@;
                let mut label = field.name.clone();
                label.append(".count");
                rows.push((label, itoa_u64(count)));
                assert(pairs(rows@) =~= pairs(before).push(
                    (name@ + ".count"@, decimal(count as nat)),
                ));
                assert(pairs(rows@) =~= start + field_rows(*field, percentiles@));
            } else {
                let ghost before = rows@;
                let value = if m.observations.len() > 0 {
                    m.observations[0].text.clone()
                } else {
                    m.zero_text.clone()
                };
                rows.push((field.name.clone(), value));
                assert(pairs(rows@) =~= pairs(before).push((name@, value@)));
                assert(pairs(rows@) =~= start + field_rows(*field, percentiles@));
            }
        },
    }
}

/// Writes an entry as a table.
pub fn write_markdown_table(collector: &Collector, percentiles: &Vec<Percentile>) -> (text: String)
    requires
        collector.wf(percentiles@.len()),
    ensures
        text@ == table_text(table_rows(*collector, percentiles@, collector.fields@.len())),
{
    let mut rows: Vec<(String, String)> = Vec::new();
    if let Some(t) = &collector.timestamp {
        rows.push(("timestamp".to_owned(), t.text.clone()));
    }
    assert(pairs(rows@) =~= table_rows(*collector, percentiles@, 0));
    for i in 0..collector.fields.len()
        invariant
            collector.wf(percentiles@.len()),
            pairs(rows@) == table_rows(*collector, percentiles@, i as nat),
    {
        push_field_rows(&mut rows, &collector.fields[i], percentiles);
    }
    let ghost all = pairs(rows@);
    let ghost names = name_column(all);
    let ghost values = value_column(all);
    let mut name_width: usize = 4;
    let mut value_width: usize = 5;
    for i in 0..rows.len()
        invariant
            all == pairs(rows@),
            names == name_column(all),
            values == value_column(all),
            name_width == column_width(names.take(i as int), 4),
            value_width == column_width(values.take(i as int), 5),
    {
        proof {
            assert(names.take(i + 1).drop_last() =~= names.take(i as int));
            assert(values.take(i + 1).drop_last() =~= values.take(i as int));
        }
        let name_len: usize = rows[i].0.as_str().len();
        let value_len: usize = rows[i].1.as_str().len();
        if name_len > name_width {
            name_width = name_len;
        }
        if value_len > value_width {
            value_width = value_len;
        }
    }
    assert(names.take(names.len() as int) =~= names);
    assert(values.take(values.len() as int) =~= values);
    let mut text = String::new();
    push_row(&mut text, "Name", "Value", name_width, value_width, ' ');
    assert(text@ =~= row_text("Name"@, "Value"@, name_width, value_width, ' '));
    push_row(&mut text, "", "", name_width, value_width, '-');
    let ghost head = text@;
    let ghost lines = all.map_values(
        |r: (Seq<char>, Seq<char>)| row_text(r.0, r.1, name_width, value_width, ' '),
    );
    assert(text@ =~= head + concat(lines.take(0)));
    for i in 0..rows.len()
        invariant
            all == pairs(rows@),
            lines == all.map_values(
                |r: (Seq<char>, Seq<char>)| row_text(r.0, r.1, name_width, value_width, ' '),
            ),
            text@ == head + concat(lines.take(i as int)),
    {
        push_row(
            &mut text,
            rows[i].0.as_str(),
            rows[i].1.as_str(),
            name_width,
            value_width,
            ' ',
        );
        proof {
            assert(lines.take(i + 1).drop_last() =~= lines.take(i as int));
            assert(text@ =~= head + concat(lines.take(i + 1)));
        }
    }
    assert(lines.take(lines.len() as int) =~= lines);
    text
}

} // verus!
