//! Plain JSON, one object per line.

use vstd::prelude::*;
use vstd::string::*;

use crate::entry::{epoch_millis, item_models, Entry, EntryItem, ItemModel, Timestamp};
use crate::float::Float;
use crate::grammar::{
    all_members, decimal_is_json, is_json, is_json_line, is_string, json_is_printable, list_is_json,
    list_of, member_of, object_is_json, object_of, plain_is_string, quoted_is_string,
};
use crate::nested::{
    array_text, elements, elements_are_json, items_numeric, json_observation, members,
    members_are_json, object_text, observation_is_json, observations_numeric, push_observation,
    value_numeric, Dialect,
};
use crate::text::{
    after_commas, after_commas_is_joined, after_commas_push, decimal, itoa_u128, joined,
    joined_push, json_quoted_plain, push_json_string,
};
use crate::unit::{unit_name, DoubleOp, Unit};
use crate::validate::{
    field_error, is_result, plain_error, ErrorModel, ValidationError, ValidationErrorBuilder,
};
use crate::value::{
    nested_models, MetricCall, MetricModel, ObservationModel, ValueModel, WrittenValue,
};
use crate::weigh::{are_weighed, is_weighed_item, weigh};

verus! {

/// What has been written of an entry: the members for metrics and those for
/// everything else.
pub ghost struct JsonModel {
    pub timestamp: Option<i128>,
    pub metrics: Seq<Seq<char>>,
    pub properties: Seq<Seq<char>>,
    pub errors: Seq<ErrorModel>,
}

/// Nothing written yet.
pub open spec fn fresh() -> JsonModel {
    JsonModel {
        timestamp: None,
        metrics: Seq::empty(),
        properties: Seq::empty(),
        errors: Seq::empty(),
    }
}

/// The member of the object with the given JSON.
pub open spec fn member(name: Seq<char>, json: Seq<char>) -> Seq<char> {
    json_quoted_plain(name) + ":"@ + json
}

/// The observations in JSON.
pub open spec fn json_observations(list: Seq<ObservationModel>) -> Seq<
    Seq<char>,
> {
    list.map_values(|o: ObservationModel| json_observation(o))
}

/// A metric in JSON: its value, or its values if there are several, and its unit if
/// it has one.
pub open spec fn metric_json(m: MetricModel) -> Seq<char> {
    (if m.distribution.len() == 1 {
        "{\"value\":"@ + json_observation(m.distribution[0])
    } else {
        "{\"values\":["@ + joined(json_observations(m.distribution), seq![','])
            + "]"@
    }) + (if m.unit == Unit::NoUnit {
        Seq::empty()
    } else {
        ",\"unit\":"@ + json_quoted_plain(unit_name(m.unit))
    }) + "}"@
}

/// One more property.
pub open spec fn with_property(w: JsonModel, name: Seq<char>, json: Seq<char>) -> JsonModel {
    JsonModel { properties: w.properties.push(member(name, json)), ..w }
}

/// A value under a name. A metric without observations is left out.
pub open spec fn with_value(
    w: JsonModel,
    name: Seq<char>,
    value: ValueModel,
) -> JsonModel {
    if name.len() == 0 {
        JsonModel { errors: w.errors.push(field_error(""@, "name can't be empty"@)), ..w }
    } else {
        match value {
            ValueModel::Nothing => w,
            ValueModel::Text(s) => with_property(w, name, json_quoted_plain(s)),
            ValueModel::List(items) => with_property(
                w,
                name,
                "["@ + joined(elements(Dialect::Json, false, items), seq![',']) + "]"@,
            ),
            ValueModel::Object(fields) => with_property(
                w,
                name,
                "{"@ + joined(members(Dialect::Json, fields), seq![',']) + "}"@,
            ),
            ValueModel::Metric(m) => if m.distribution.len() == 0 {
                w
            } else {
                JsonModel {
                    metrics: w.metrics.push(member(name, metric_json(m))),
                    ..w
                }
            },
            ValueModel::Error(e) => JsonModel {
                errors: w.errors.push(field_error(name, e.reason)),
                ..w
            },
        }
    }
}

/// One item of an entry. Settings are not read.
pub open spec fn with_item(w: JsonModel, item: ItemModel) -> JsonModel {
    match item {
        ItemModel::Timestamp(nanos) => JsonModel {
            timestamp: Some(nanos),
            errors: if w.timestamp is Some {
                w.errors.push(plain_error("timestamp set more than once"@))
            } else {
                w.errors
            },
            ..w
        },
        ItemModel::Value(name, value) => with_value(w, name, value),
        ItemModel::Config(_) => w,
    }
}

/// All items of an entry, in order.
pub open spec fn with_items(items: Seq<ItemModel>) -> JsonModel
    decreases items.len(),
{
    if items.len() == 0 {
        fresh()
    } else {
        with_item(with_items(items.drop_last()), items.last())
    }
}

/// An object of members under a name, after a comma; nothing without members.
pub open spec fn section(name: Seq<char>, members: Seq<Seq<char>>) -> Seq<char> {
    if members.len() == 0 {
        Seq::empty()
    } else {
        name + joined(members, seq![',']) + "}"@
    }
}

/// The line for an entry without errors.
pub open spec fn json_line(w: JsonModel, now: i128) -> Seq<char> {
    "{\"timestamp\":"@ + decimal(
        epoch_millis(
            match w.timestamp {
                Some(t) => t,
                None => now,
            },
        ) as nat,
    ) + section(",\"metrics\":{"@, w.metrics) + section(",\"properties\":{"@, w.properties)
        + "}\n"@
}

/// What formatting an entry gives: its line, or its errors.
pub open spec fn formatted(items: Seq<ItemModel>, now: i128) -> Result<
    Seq<char>,
    Seq<ErrorModel>,
> {
    let w = with_items(items);
    if w.errors.len() > 0 {
        Err(w.errors)
    } else {
        Ok(json_line(w, now))
    }
}

/// Formats entries as JSON. Its buffers are used again for each entry.
#[derive(Debug)]
pub struct Json {
    // Each member that is written stands in one of these after a comma.
    metrics_buf: String,
    properties_buf: String,
}

/// Collects what an entry hands over.
struct JsonEntryWriter {
    timestamp: Option<Timestamp>,
    error: ValidationErrorBuilder,
}

impl Json {
    /// A formatter for JSON.
    pub fn new() -> (json: Json)
        ensures
            json.is_clear(),
    {
        Json { metrics_buf: String::new(), properties_buf: String::new() }
    }

    /// Whether nothing is left in the buffers.
    pub closed spec fn is_clear(self) -> bool {
        self.metrics_buf@.len() == 0 && self.properties_buf@.len() == 0
    }

    /// Empties the buffers.
    fn clear_buffers(&mut self)
        ensures
            final(self).is_clear(),
    {
        self.metrics_buf = String::new();
        self.properties_buf = String::new();
    }

    /// Whether the buffers and the writer hold what the model says.
    spec fn holds(self, writer: JsonEntryWriter, w: JsonModel) -> bool {
        &&& self.metrics_buf@ == after_commas(w.metrics)
        &&& self.properties_buf@ == after_commas(w.properties)
        &&& writer.error@ == w.errors
        &&& w.timestamp == match writer.timestamp {
            Some(t) => Some(t.nanos),
            None => None,
        }
    }

    /// Writes a property.
    fn property(&mut self, name: &str, json: &str, Ghost(w): Ghost<JsonModel>)
        requires
            old(self).properties_buf@ == after_commas(w.properties),
        ensures
            final(self).properties_buf@ == after_commas(with_property(w, name@, json@).properties),
            final(self).metrics_buf == old(self).metrics_buf,
    {
        self.properties_buf.push(',');
        push_json_string(&mut self.properties_buf, name);
        self.properties_buf.append(":");
        self.properties_buf.append(json);
        proof {
            after_commas_push(w.properties, member(name@, json@));
            assert(self.properties_buf@ =~= after_commas(w.properties) + seq![','] + member(
                name@,
                json@,
            ));
        }
    }

    /// Writes a value under a name.
    fn value(
        &mut self,
        writer: &mut JsonEntryWriter,
        name: &str,
        value: &WrittenValue,
            Ghost(w): Ghost<JsonModel>,
    )
        requires
            old(self).holds(*old(writer), w),
        ensures
            final(self).holds(*final(writer), with_value(w, name@, value@)),
    {
        broadcast use nested_models;

        if name.is_empty() {
            writer.error.extend_mut(ValidationError::invalid("name can't be empty").for_field(""));
            return;
        }
        match value {
            WrittenValue::Nothing => {},
            WrittenValue::Text(s) => {
                let mut json = String::new();
                push_json_string(&mut json, s.as_str());
                assert(json@ =~= json_quoted_plain(s@));
                self.property(name, json.as_str(), Ghost(w));
            },
            WrittenValue::List(items) => {
                self.property(name, array_text(Dialect::Json, false, items).as_str(), Ghost(w));
            },
            WrittenValue::Object(fields) => {
                self.property(name, object_text(Dialect::Json, fields).as_str(), Ghost(w));
            },
            WrittenValue::Metric(m) => {
                if m.distribution.len() > 0 {
                    let json = metric_json_text(m);
                    self.metrics_buf.push(',');
                    push_json_string(&mut self.metrics_buf, name);
                    self.metrics_buf.append(":");
                    self.metrics_buf.append(json.as_str());
                    proof {
                        after_commas_push(w.metrics, member(name@, json@));
                        assert(self.metrics_buf@ =~= after_commas(w.metrics) + seq![','] + member(
                            name@,
                            json@,
                        ));
                    }
                }
            },
            WrittenValue::Error(e) => {
                writer.error.extend_mut(e.duplicate().for_field(name));
            },
        }
    }

    /// Formats items. `now` is the timestamp of an entry that has none. What was formatted before
    /// makes no difference.
    fn format_items(&mut self, items: &Vec<EntryItem>, now: Timestamp) -> (res: Result<
        String,
        Vec<ValidationError>,
    >)
        ensures
            is_result(res, formatted(item_models(items@), now.nanos)),
    {
        self.clear_buffers();
        let mut writer = JsonEntryWriter {
            timestamp: None,
            error: ValidationErrorBuilder::default(),
        };
        let ghost all = item_models(items@);
        proof {
            after_commas_is_joined(Seq::empty());
            assert(self.metrics_buf@ =~= after_commas(Seq::empty()));
            assert(self.properties_buf@ =~= after_commas(Seq::empty()));
        }
        for i in 0..items.len()
            invariant
                all == item_models(items@),
                self.holds(writer, with_items(all.take(i as int))),
        {
            let ghost before = with_items(all.take(i as int));
            proof {
                assert(all.take(i + 1).drop_last() =~= all.take(i as int));
                assert(all.take(i + 1).last() == items@[i as int]@);
            }
            match &items[i] {
                EntryItem::Timestamp(t) => {
                    if writer.timestamp.is_some() {
                        writer.error.invalid_mut("timestamp set more than once");
                    }
                    writer.timestamp = Some(*t);
                },
                EntryItem::Value(name, value) => {
                    self.value(&mut writer, name.as_str(), value, Ghost(before));
                },
                EntryItem::Config(_) => {},
            }
        }
        assert(all.take(all.len() as int) =~= all);
        let ghost w = with_items(all);
        let JsonEntryWriter { timestamp, error } = writer;
        match error.build() {
            Err(errors) => {
                return Err(errors);
            },
            Ok(_) => {},
        }
        let timestamp = match timestamp {
            Some(t) => t,
            None => now,
        };
        let mut text = "{\"timestamp\":".to_owned();
        text.append(itoa_u128(timestamp.epoch_millis()).as_str());
        push_section(&mut text, ",\"metrics\":{", &self.metrics_buf, Ghost(w.metrics));
        push_section(&mut text, ",\"properties\":{", &self.properties_buf, Ghost(w.properties));
        text.append("}\n");
        Ok(text)
    }

    /// Formats an entry that stands for `multiplicity` entries, if that is given. `now` is the
    /// timestamp of an entry that has none, `compute` does the arithmetic. What was formatted before
    /// makes no difference.
    pub fn format_with_multiplicity<E: Entry, F: Fn(DoubleOp) -> Float>(
        &mut self,
        entry: &E,
        now: Timestamp,
        multiplicity: Option<u64>,
        compute: &F,
    ) -> (res: Result<String, Vec<ValidationError>>)
        requires
            forall|op: DoubleOp| call_requires(compute, (op,)),
        ensures
            match multiplicity {
                None => is_result(res, formatted(entry.items(), now.nanos)),
                Some(n) => exists|items: Seq<ItemModel>| #[trigger]
                    are_weighed(*compute, n, entry.items(), items) && is_result(
                        res,
                        formatted(items, now.nanos),
                    ),
            },
            res is Ok <==> formatted(entry.items(), now.nanos) is Ok,
    {
        match multiplicity {
            None => self.format_items(&entry.write(), now),
            Some(n) => {
                let items = weigh(entry.write(), n, compute);
                proof {
                    weighing_keeps_acceptance(
                        *compute,
                        n,
                        entry.items(),
                        item_models(items@),
                        now.nanos,
                    );
                }
                self.format_items(&items, now)
            },
        }
    }

    /// Formats an entry. `now` is the timestamp of an entry that has none.
    pub fn format<E: Entry>(&mut self, entry: &E, now: Timestamp) -> (res: Result<
        String,
        Vec<ValidationError>,
    >)
        ensures
            is_result(res, formatted(entry.items(), now.nanos)),
    {
        self.format_items(&entry.write(), now)
    }
}

impl Default for Json {
    fn default() -> (json: Json)
        ensures
            json.is_clear(),
    {
        Json::new()
    }
}

/// Appends the members of a buffer as an object, if there are any.
fn push_section(
    text: &mut String,
    name: &str,
    buf: &String,
    Ghost(members): Ghost<Seq<Seq<char>>>,
)
    requires
        buf@ == after_commas(members),
    ensures
        final(text)@ == old(text)@ + section(name@, members),
{
    proof {
        after_commas_is_joined(members);
    }
    if !buf.as_str().is_empty() {
        let n: usize = buf.as_str().unicode_len();
        let list = buf.as_str().substring_char(1, n);
        assert(list@ =~= joined(members, seq![',']));
        text.append(name);
        text.append(list);
        text.append("}");
        assert(text@ =~= old(text)@ + section(name@, members));
    } else {
        assert(text@ =~= old(text)@ + Seq::empty());
    }
}

/// A metric in JSON.
fn metric_json_text(m: &MetricCall) -> (text: String)
    requires
        m.distribution@.len() > 0,
    ensures
        text@ == metric_json(m@),
{
    let mut text;
    if m.distribution.len() == 1 {
        text = "{\"value\":".to_owned();
        push_observation(&mut text, &m.distribution[0]);
    } else {
        text = "{\"values\":[".to_owned();
        let ghost all = json_observations(m@.distribution);
        for i in 0..m.distribution.len()
            invariant
                all == json_observations(m@.distribution),
                all.len() == m.distribution@.len(),
                text@ == "{\"values\":["@ + joined(all.take(i as int), seq![',']),
        {
            let ghost before = text@;
            if i > 0 {
                text.push(',');
            }
            push_observation(&mut text, &m.distribution[i]);
            proof {
                joined_push(all.take(i as int), all[i as int], seq![',']);
                assert(all.take(i + 1) =~= all.take(i as int).push(all[i as int]));
                assert(text@ =~= "{\"values\":["@ + joined(all.take(i + 1), seq![',']));
            }
        }
        assert(all.take(all.len() as int) =~= all);
        text.append("]");
    }
    let ghost head = text@;
    if !m.unit.is_none() {
        text.append(",\"unit\":");
        push_json_string(&mut text, m.unit.name());
        assert(text@ =~= head + (",\"unit\":"@ + json_quoted_plain(unit_name(m.unit))));
    } else {
        assert(text@ =~= head + Seq::empty());
    }
    text.append("}");
    text
}

// ---------------------------------------------------------------------------
// What holds of all output
// ---------------------------------------------------------------------------

/// Whether an item is in itself in order: a value has a name and is not an error.
pub open spec fn item_accepted(item: ItemModel) -> bool {
    item matches ItemModel::Value(name, value) ==> name.len() > 0 && !(value is Error)
}

proof fn errors_of_items(items: Seq<ItemModel>)
    ensures
        ({
            let w = with_items(items);
            &&& w.timestamp is Some <==> exists|i: int|
                0 <= i < items.len() && (#[trigger] items[i]) is Timestamp
            &&& w.errors.len() == 0 <==> {
                &&& forall|i: int| 0 <= i < items.len() ==> item_accepted(#[trigger] items[i])
                &&& forall|i: int, j: int|
                    0 <= i < j < items.len() ==> !((#[trigger] items[i]) is Timestamp && (
                    #[trigger] items[j]) is Timestamp)
            }
        }),
    decreases items.len(),
{
    if items.len() > 0 {
        let init = items.drop_last();
        let n = init.len() as int;
        errors_of_items(init);
        let before = with_items(init);
        let w = with_items(items);
        assert(items[n] == items.last());
        assert forall|i: int| 0 <= i < n implies init[i] == #[trigger] items[i] by {}
        if before.timestamp is Some {
            let i = choose|i: int| 0 <= i < init.len() && (#[trigger] init[i]) is Timestamp;
            assert(items[i] is Timestamp);
            if items.last() is Timestamp {
                assert(items[i] is Timestamp && items[n] is Timestamp);
            }
        }
        if w.errors.len() == 0 {
            assert(before.errors.len() == 0);
            assert forall|i: int| 0 <= i < items.len() implies item_accepted(#[trigger] items[i]) by {
                if i < n {
                    assert(item_accepted(init[i]));
                }
            }
            assert forall|i: int, j: int| 0 <= i < j < items.len() implies !((
            #[trigger] items[i]) is Timestamp && (#[trigger] items[j]) is Timestamp) by {
                if j < n {
                    assert(!(init[i] is Timestamp && init[j] is Timestamp));
                } else if items[n] is Timestamp && items[i] is Timestamp {
                    assert(init[i] is Timestamp);
                }
            }
        }
        if (forall|i: int| 0 <= i < items.len() ==> item_accepted(#[trigger] items[i])) && (forall|
            i: int,
            j: int,
        |
            0 <= i < j < items.len() ==> !((#[trigger] items[i]) is Timestamp && (
            #[trigger] items[j]) is Timestamp)) {
            assert forall|i: int| 0 <= i < init.len() implies item_accepted(#[trigger] init[i]) by {
                assert(item_accepted(items[i]));
            }
            assert forall|i: int, j: int| 0 <= i < j < init.len() implies !((
            #[trigger] init[i]) is Timestamp && (#[trigger] init[j]) is Timestamp) by {
                assert(!(items[i] is Timestamp && items[j] is Timestamp));
            }
            assert(item_accepted(items[n]));
            if before.timestamp is Some && items[n] is Timestamp {
                let i = choose|i: int| 0 <= i < init.len() && (#[trigger] init[i]) is Timestamp;
                assert(items[i] is Timestamp && items[n] is Timestamp);
            }
        }
    }
}

/// An entry is accepted if and only if each of its values has a name and is not an error, and it has
/// at most one timestamp.
pub proof fn accepted_entries(items: Seq<ItemModel>, now: i128)
    ensures
        formatted(items, now) is Ok <==> {
            &&& forall|i: int| 0 <= i < items.len() ==> item_accepted(#[trigger] items[i])
            &&& forall|i: int, j: int|
                0 <= i < j < items.len() ==> !((#[trigger] items[i]) is Timestamp && (
                #[trigger] items[j]) is Timestamp)
        },
{
    errors_of_items(items);
}

/// Entries that are weighed are accepted if and only if they are accepted as they are.
pub proof fn weighing_keeps_acceptance<F: Fn(DoubleOp) -> Float>(
    compute: F,
    n: u64,
    before: Seq<ItemModel>,
    after: Seq<ItemModel>,
    now: i128,
)
    requires
        are_weighed(compute, n, before, after),
    ensures
        formatted(after, now) is Ok <==> formatted(before, now) is Ok,
{
    accepted_entries(before, now);
    accepted_entries(after, now);
    assert forall|i: int| 0 <= i < before.len() implies item_accepted(#[trigger] after[i])
        == item_accepted(before[i]) && (after[i] is Timestamp) == (before[i] is Timestamp) by {
        assert(is_weighed_item(compute, n, before[i], after[i]));
    }
    if formatted(after, now) is Ok {
        assert forall|i: int| 0 <= i < before.len() implies item_accepted(#[trigger] before[i]) by {
            assert(item_accepted(after[i]));
        }
        assert forall|i: int, j: int| 0 <= i < j < before.len() implies !((
        #[trigger] before[i]) is Timestamp && (#[trigger] before[j]) is Timestamp) by {
            assert(!(after[i] is Timestamp && after[j] is Timestamp));
        }
    }
    if formatted(before, now) is Ok {
        assert forall|i: int| 0 <= i < after.len() implies item_accepted(#[trigger] after[i]) by {
            assert(item_accepted(before[i]));
        }
        assert forall|i: int, j: int| 0 <= i < j < after.len() implies !((
        #[trigger] after[i]) is Timestamp && (#[trigger] after[j]) is Timestamp) by {
            assert(!(before[i] is Timestamp && before[j] is Timestamp));
        }
    }
}

proof fn metric_is_json(m: MetricModel)
    requires
        observations_numeric(m.distribution),
        m.distribution.len() > 0,
    ensures
        is_json(metric_json(m)),
{
    reveal_strlit("{\"value\":");
    reveal_strlit("{\"values\":[");
    reveal_strlit("]");
    reveal_strlit("[");
    reveal_strlit(",\"unit\":");
    reveal_strlit("{");
    reveal_strlit("}");
    reveal_strlit(":");
    reveal_strlit("\"value\"");
    reveal_strlit("\"values\"");
    reveal_strlit("\"unit\"");
    plain_is_string("\"value\""@);
    plain_is_string("\"values\""@);
    plain_is_string("\"unit\""@);
    let list = json_observations(m.distribution);
    assert forall|i: int| 0 <= i < list.len() implies is_json(#[trigger] list[i]) by {
        observation_is_json(Dialect::Json, m.distribution[i]);
    }
    list_is_json(list);
    let values = if m.distribution.len() == 1 {
        member_of("\"value\""@, list[0]);
        "\"value\""@ + ":"@ + list[0]
    } else {
        member_of("\"values\""@, list_of(list));
        "\"values\""@ + ":"@ + list_of(list)
    };
    let unit = "\"unit\""@ + ":"@ + json_quoted_plain(unit_name(m.unit));
    quoted_is_string(unit_name(m.unit));
    member_of("\"unit\""@, json_quoted_plain(unit_name(m.unit)));
    if m.unit == Unit::NoUnit {
        object_is_json(seq![values]);
        assert(metric_json(m) =~= object_of(seq![values]));
    } else {
        object_is_json(seq![values, unit]);
        joined_push(seq![values], unit, seq![',']);
        assert(seq![values].push(unit) =~= seq![values, unit]);
        assert(metric_json(m) =~= object_of(seq![values, unit]));
    }
}

proof fn members_are_members(items: Seq<ItemModel>)
    requires
        items_numeric(items),
    ensures
        all_members(with_items(items).metrics),
        all_members(with_items(items).properties),
    decreases items.len(),
{
    if items.len() > 0 {
        let init = items.drop_last();
        assert forall|i: int| 0 <= i < init.len() implies (#[trigger] init[i] matches ItemModel::Value(
            _,
            value,
        ) ==> value_numeric(value)) by {
            assert(init[i] == items[i]);
        }
        members_are_members(init);
        if let ItemModel::Value(name, value) = items[items.len() - 1] {
            assert(value_numeric(value));
            quoted_is_string(name);
            match value {
                ValueModel::Text(s) => {
                    quoted_is_string(s);
                    member_of(json_quoted_plain(name), json_quoted_plain(s));
                },
                ValueModel::List(list) => {
                    elements_are_json(Dialect::Json, false, list);
                    list_is_json(elements(Dialect::Json, false, list));
                    member_of(
                        json_quoted_plain(name),
                        list_of(elements(Dialect::Json, false, list)),
                    );
                },
                ValueModel::Object(fields) => {
                    members_are_json(Dialect::Json, fields);
                    object_is_json(members(Dialect::Json, fields));
                    member_of(json_quoted_plain(name), object_of(members(Dialect::Json, fields)));
                },
                ValueModel::Metric(m) => {
                    if m.distribution.len() > 0 {
                        metric_is_json(m);
                        member_of(json_quoted_plain(name), metric_json(m));
                    }
                },
                _ => {},
            }
        }
    }
}

/// The members of an object with one more, which holds a section, if that is not empty.
spec fn with_section(parts: Seq<Seq<char>>, name: Seq<char>, inner: Seq<Seq<char>>) -> Seq<
    Seq<char>,
> {
    if inner.len() == 0 {
        parts
    } else {
        parts.push(name + ":"@ + object_of(inner))
    }
}

proof fn section_is_member(
    parts: Seq<Seq<char>>,
    name: Seq<char>,
    start: Seq<char>,
    inner: Seq<Seq<char>>,
)
    requires
        parts.len() > 0,
        all_members(parts),
        is_string(name),
        start == seq![','] + name + ":"@ + "{"@,
        all_members(inner),
    ensures
        all_members(with_section(parts, name, inner)),
        joined(with_section(parts, name, inner), seq![',']) == joined(parts, seq![',']) + section(
            start,
            inner,
        ),
{
    if inner.len() == 0 {
        assert(joined(parts, seq![',']) + section(start, inner) =~= joined(parts, seq![',']));
    } else {
        let member = name + ":"@ + object_of(inner);
        object_is_json(inner);
        member_of(name, object_of(inner));
        joined_push(parts, member, seq![',']);
        assert(seq![','] + member =~= section(start, inner));
        assert(joined(parts, seq![',']) + seq![','] + member =~= joined(parts, seq![',']) + section(
            start,
            inner,
        ));
    }
}

proof fn literals_of_lines()
    ensures
        "{\"timestamp\":"@ == "{"@ + "\"timestamp\""@ + ":"@,
        ",\"metrics\":{"@ == seq![','] + "\"metrics\""@ + ":"@ + "{"@,
        ",\"properties\":{"@ == seq![','] + "\"properties\""@ + ":"@ + "{"@,
        "}\n"@ == "}"@.push('\n'),
        is_string("\"timestamp\""@),
        is_string("\"metrics\""@),
        is_string("\"properties\""@),
{
    reveal_strlit("{\"timestamp\":");
    reveal_strlit(",\"metrics\":{");
    reveal_strlit(",\"properties\":{");
    reveal_strlit("{");
    reveal_strlit("}");
    reveal_strlit("}\n");
    reveal_strlit(":");
    reveal_strlit("\"timestamp\"");
    reveal_strlit("\"metrics\"");
    reveal_strlit("\"properties\"");
    plain_is_string("\"timestamp\""@);
    plain_is_string("\"metrics\""@);
    plain_is_string("\"properties\""@);
    assert("{\"timestamp\":"@ =~= "{"@ + "\"timestamp\""@ + ":"@);
    assert(",\"metrics\":{"@ =~= seq![','] + "\"metrics\""@ + ":"@ + "{"@);
    assert(",\"properties\":{"@ =~= seq![','] + "\"properties\""@ + ":"@ + "{"@);
    assert("}\n"@ =~= "}"@.push('\n'));
}

/// The line for an entry is JSON and a line break, whatever the names and strings in the entry
/// hold; so it has no other line breaks.
pub proof fn entries_are_json(items: Seq<ItemModel>, now: i128)
    requires
        items_numeric(items),
    ensures
        is_json_line(json_line(with_items(items), now)),
{
    let w = with_items(items);
    let text = json_line(w, now);
    literals_of_lines();
    members_are_members(items);
    let millis = epoch_millis(
        match w.timestamp {
            Some(t) => t,
            None => now,
        },
    ) as nat;
    decimal_is_json(millis);
    member_of("\"timestamp\""@, decimal(millis));
    let head = seq!["\"timestamp\""@ + ":"@ + decimal(millis)];
    section_is_member(head, "\"metrics\""@, ",\"metrics\":{"@, w.metrics);
    let middle = with_section(head, "\"metrics\""@, w.metrics);
    section_is_member(middle, "\"properties\""@, ",\"properties\":{"@, w.properties);
    let all = with_section(middle, "\"properties\""@, w.properties);
    object_is_json(all);
    json_is_printable(object_of(all));
    assert(text =~= object_of(all).push('\n'));
    assert(text.drop_last() =~= object_of(all));
}

} // verus!
