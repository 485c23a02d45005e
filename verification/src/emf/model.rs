//! What the EMF formatter writes, stated over the items of an entry.

use vstd::prelude::*;
use vstd::string::*;

use crate::emf::lines::{
    expect_dimension, metric_note, metric_noted, no_lines, set_line, LineModel, LinesModel,
    MetricNote, Place,
};
use crate::emf::metric::{definitions_with_metric, fields_with_metric, member_name};
use crate::entry::{epoch_millis, ConfigModel, ItemModel};
use crate::nested::{elements, members, Dialect};
use crate::order::sorted_pairs;
use crate::text::{concat, decimal, joined, json_quoted, json_string_array};
use crate::validate::{field_error, plain_error, ErrorModel};
use crate::value::{MetricModel, ValueModel};

verus! {

/// What a formatter was set up with.
pub ghost struct Settings {
    /// The namespaces that metrics are published to.
    pub namespaces: Seq<Seq<char>>,
    /// The sets of dimension names that metrics are published under.
    pub dimensions: Seq<Seq<Seq<char>>>,
    /// Directives that are added to each line, each after a comma.
    pub directives: Seq<char>,
    /// The log group that the lines are meant for.
    pub log_group: Option<Seq<char>>,
    /// Whether names may be used twice.
    pub skip_unique: bool,
    /// Whether dimensions may be missing.
    pub skip_dimensions_exist: bool,
    /// Whether any name is good.
    pub skip_names: bool,
    /// Whether dimensions of a single metric are ignored.
    pub ignore_dimensions: bool,
}

/// The metrics that share a set of dimensions of their own.
pub ghost struct SetModel {
    /// The names and instances of the dimensions, in order.
    pub key: Seq<(Seq<char>, Seq<char>)>,
    /// The sets of dimension names that the metrics are published under.
    pub dimensions: Seq<Seq<Seq<char>>>,
    pub fields: Seq<char>,
    pub definitions: Seq<char>,
}

/// What has been written of an entry.
pub ghost struct WriterModel {
    pub lines: LinesModel,
    pub errors: Seq<ErrorModel>,
    pub timestamp: Option<i128>,
    pub allow_split: bool,
    pub allow_unroutable: bool,
    /// The sets of dimension names of the entry, where it has its own.
    pub entry_dimensions: Option<Seq<Seq<Seq<char>>>>,
    /// The members for strings, lists and objects.
    pub strings: Seq<char>,
    /// The members and the definitions for metrics without dimensions of their own.
    pub fields: Seq<char>,
    pub definitions: Seq<char>,
    pub sets: Seq<SetModel>,
}

/// The lines with the names as dimensions to be filled in.
pub open spec fn expecting(lines: LinesModel, names: Seq<Seq<char>>) -> LinesModel
    decreases names.len(),
{
    if names.len() == 0 {
        lines
    } else {
        expect_dimension(expecting(lines, names.drop_last()), names.last())
    }
}

/// The lines with the names of several sets as dimensions to be filled in.
pub open spec fn expecting_sets(lines: LinesModel, sets: Seq<Seq<Seq<char>>>) -> LinesModel
    decreases sets.len(),
{
    if sets.len() == 0 {
        lines
    } else {
        expecting(expecting_sets(lines, sets.drop_last()), sets.last())
    }
}

/// What is known before an entry is written: the dimensions that it has to fill in,
/// if that is checked.
pub open spec fn initial_lines(s: Settings) -> LinesModel {
    if s.skip_dimensions_exist {
        no_lines()
    } else {
        expecting_sets(no_lines(), s.dimensions)
    }
}

/// Nothing written yet.
pub open spec fn fresh(lines: LinesModel) -> WriterModel {
    WriterModel {
        lines,
        errors: Seq::empty(),
        timestamp: None,
        allow_split: false,
        allow_unroutable: false,
        entry_dimensions: None,
        strings: Seq::empty(),
        fields: Seq::empty(),
        definitions: Seq::empty(),
        sets: Seq::empty(),
    }
}

/// One more error.
pub open spec fn with_error(w: WriterModel, error: ErrorModel) -> WriterModel {
    WriterModel { errors: w.errors.push(error), ..w }
}

// ---------------------------------------------------------------------------
// Timestamps and names
// ---------------------------------------------------------------------------

/// The last timestamp counts; more than one is an error.
pub open spec fn with_timestamp(w: WriterModel, nanos: i128) -> WriterModel {
    let w = if w.timestamp is Some {
        with_error(w, plain_error("multiple timestamps written"@))
    } else {
        w
    };
    WriterModel { timestamp: Some(nanos), ..w }
}

/// The error that a name is in itself, if any.
pub open spec fn name_error(s: Settings, name: Seq<char>) -> Option<ErrorModel> {
    if s.skip_names {
        None
    } else if name.len() == 0 {
        Some(field_error(""@, "name can't be empty"@))
    } else if name == "_aws"@ {
        Some(field_error("_aws"@, "name can't be `_aws`"@))
    } else {
        None
    }
}

// ---------------------------------------------------------------------------
// Strings, lists and objects
// ---------------------------------------------------------------------------

/// The note that `name` is a string, which fills in the dimension of that name if there is one. It
/// is an error if the name stands for something else already, where that is checked.
pub open spec fn with_text_note(s: Settings, w: WriterModel, name: Seq<char>) -> WriterModel {
    if w.lines.kinds.contains_key(name) && !(w.lines.kinds[name] is UnfoundDimension) {
        if s.skip_unique {
            w
        } else {
            with_error(w, field_error(name, "duplicate field"@))
        }
    } else {
        WriterModel { lines: set_line(w.lines, name, LineModel::Text), ..w }
    }
}

/// A member that is not a metric, with its JSON. It is taken note of where names are checked to be
/// unique or dimensions to exist.
pub open spec fn with_property(
    s: Settings,
    w: WriterModel,
    name: Seq<char>,
    json: Seq<char>,
) -> WriterModel {
    let w = WriterModel { strings: w.strings + member_name(name) + json, ..w };
    if s.skip_unique && s.skip_dimensions_exist {
        w
    } else {
        with_text_note(s, w, name)
    }
}

// ---------------------------------------------------------------------------
// Metrics
// ---------------------------------------------------------------------------

/// The keys of the sets.
pub open spec fn set_keys(sets: Seq<SetModel>) -> Seq<Seq<(Seq<char>, Seq<char>)>> {
    sets.map_values(|set: SetModel| set.key)
}

/// The names in a list of pairs.
pub open spec fn first_texts(list: Seq<(Seq<char>, Seq<char>)>) -> Seq<Seq<char>> {
    list.map_values(|p: (Seq<char>, Seq<char>)| p.0)
}

/// Each set of dimension names with more names at its end.
pub open spec fn extended(sets: Seq<Seq<Seq<char>>>, more: Seq<Seq<char>>) -> Seq<Seq<Seq<char>>> {
    sets.map_values(|set: Seq<Seq<char>>| set + more)
}

/// The sets of dimension names that the metrics of the entry are published under.
pub open spec fn effective_dimensions(s: Settings, w: WriterModel) -> Seq<Seq<Seq<char>>> {
    match w.entry_dimensions {
        Some(dimensions) => dimensions,
        None => s.dimensions,
    }
}

/// The writer with a set for `key`, as the last one if it is new.
pub open spec fn with_set(s: Settings, w: WriterModel, key: Seq<(Seq<char>, Seq<char>)>)
    -> WriterModel {
    if set_keys(w.sets).contains(key) {
        w
    } else {
        WriterModel {
            sets: w.sets.push(
                SetModel {
                    key,
                    dimensions: extended(effective_dimensions(s, w), first_texts(key)),
                    fields: Seq::empty(),
                    definitions: Seq::empty(),
                },
            ),
            ..w
        }
    }
}

/// The position of the set for `key`.
pub open spec fn set_position(w: WriterModel, key: Seq<(Seq<char>, Seq<char>)>) -> int {
    set_keys(w.sets).index_of(key)
}

/// The note that `name` is a metric in `place`.
pub open spec fn with_metric_note(
    s: Settings,
    w: WriterModel,
    name: Seq<char>,
    place: Place,
) -> WriterModel {
    if s.skip_unique || w.allow_unroutable {
        w
    } else {
        let noted = WriterModel { lines: metric_noted(w.lines, name, place), ..w };
        match metric_note(w.lines, name, place) {
            MetricNote::Taken => noted,
            MetricNote::InDimension => with_error(
                noted,
                field_error(name, "can't use metric in dimension field"@),
            ),
            MetricNote::Duplicate => with_error(noted, field_error(name, "duplicate field"@)),
        }
    }
}

/// Whether a metric stands among those without dimensions of their own.
pub open spec fn is_global(s: Settings, m: MetricModel) -> bool {
    s.ignore_dimensions || m.dimensions.len() == 0
}

/// What is said of a metric with dimensions where entries may not be split.
pub open spec fn split_reason() -> Seq<char> {
    "can't use per-metric dimensions without split entries - you probably want to remove WithDimensions<>"@
}

/// A metric without dimensions of its own.
pub open spec fn with_global_metric(
    s: Settings,
    w: WriterModel,
    name: Seq<char>,
    m: MetricModel,
    multiplicity: Option<u64>,
) -> WriterModel {
    let w = with_metric_note(s, w, name, Place::Global);
    WriterModel {
        fields: fields_with_metric(w.fields, name, m.distribution, multiplicity),
        definitions: definitions_with_metric(
            w.definitions,
            name,
            m.distribution,
            multiplicity,
            m.unit,
            m.flags,
        ),
        ..w
    }
}

/// A metric with dimensions of its own: it goes to the set for its dimensions,
/// whatever order they were given in.
pub open spec fn with_set_metric(
    s: Settings,
    w: WriterModel,
    name: Seq<char>,
    m: MetricModel,
    multiplicity: Option<u64>,
) -> WriterModel {
    let w = if w.allow_split {
        w
    } else {
        with_error(w, field_error(name, split_reason()))
    };
    let key = sorted_pairs(m.dimensions);
    let w = with_set(s, w, key);
    let i = set_position(w, key);
    let w = with_metric_note(s, w, name, Place::Within(i as usize));
    let set = w.sets[i];
    WriterModel {
        sets: w.sets.update(
            i,
            SetModel {
                fields: fields_with_metric(set.fields, name, m.distribution, multiplicity),
                definitions: definitions_with_metric(
                    set.definitions,
                    name,
                    m.distribution,
                    multiplicity,
                    m.unit,
                    m.flags,
                ),
                ..set
            },
        ),
        ..w
    }
}

/// A value under a name.
pub open spec fn with_value(
    s: Settings,
    w: WriterModel,
    name: Seq<char>,
    value: ValueModel,
    multiplicity: Option<u64>,
) -> WriterModel {
    match name_error(s, name) {
        Some(error) => with_error(w, error),
        None => match value {
            ValueModel::Nothing => w,
            ValueModel::Text(text) => with_property(s, w, name, json_quoted(text)),
            ValueModel::List(items) => with_property(
                s,
                w,
                name,
                "["@ + joined(elements(Dialect::Emf, false, items), seq![',']) + "]"@,
            ),
            ValueModel::Object(fields) => with_property(
                s,
                w,
                name,
                "{"@ + joined(members(Dialect::Emf, fields), seq![',']) + "}"@,
            ),
            ValueModel::Metric(m) => if is_global(s, m) {
                with_global_metric(s, w, name, m, multiplicity)
            } else {
                with_set_metric(s, w, name, m, multiplicity)
            },
            ValueModel::Error(e) => with_error(w, field_error(name, e.reason)),
        },
    }
}

// ---------------------------------------------------------------------------
// Settings of an entry
// ---------------------------------------------------------------------------

/// The note that the dimension `name` has to be filled in.
pub open spec fn with_dimension_note(s: Settings, w: WriterModel, name: Seq<char>) -> WriterModel {
    if !w.lines.kinds.contains_key(name) {
        WriterModel { lines: set_line(w.lines, name, LineModel::UnfoundDimension), ..w }
    } else if w.lines.kinds[name] is Metric && !s.skip_unique {
        with_error(w, field_error(name, "duplicate field"@))
    } else {
        w
    }
}

/// The notes for a set of dimension names.
pub open spec fn with_dimension_notes(s: Settings, w: WriterModel, names: Seq<Seq<char>>)
    -> WriterModel
    decreases names.len(),
{
    if names.len() == 0 {
        w
    } else {
        with_dimension_note(s, with_dimension_notes(s, w, names.drop_last()), names.last())
    }
}

/// The notes for several sets of dimension names.
pub open spec fn with_dimension_set_notes(s: Settings, w: WriterModel, sets: Seq<Seq<Seq<char>>>)
    -> WriterModel
    decreases sets.len(),
{
    if sets.len() == 0 {
        w
    } else {
        with_dimension_notes(s, with_dimension_set_notes(s, w, sets.drop_last()), sets.last())
    }
}

/// Each of the outer sets with each of the inner sets at its end.
pub open spec fn combined(outer: Seq<Seq<Seq<char>>>, inner: Seq<Seq<Seq<char>>>) -> Seq<
    Seq<Seq<char>>,
>
    decreases outer.len(),
{
    if outer.len() == 0 {
        Seq::empty()
    } else {
        combined(outer.drop_last(), inner) + inner.map_values(
            |set: Seq<Seq<char>>| outer.last() + set,
        )
    }
}

/// A setting of the entry.
pub open spec fn with_config(s: Settings, w: WriterModel, config: ConfigModel) -> WriterModel {
    match config {
        ConfigModel::EntryDimensions(sets) => if w.sets.len() > 0 {
            with_error(
                w,
                plain_error(
                    "entry dimensions must be configured before emitting a metric with custom dimensions"@,
                ),
            )
        } else if w.entry_dimensions is Some {
            with_error(w, plain_error("entry dimensions cannot be set twice"@))
        } else if sets.len() == 0 {
            with_error(w, plain_error("entry dimensions cannot be empty"@))
        } else {
            let noted = if s.skip_unique && s.skip_dimensions_exist {
                w
            } else {
                with_dimension_set_notes(s, w, sets)
            };
            WriterModel { entry_dimensions: Some(combined(s.dimensions, sets)), ..noted }
        },
        ConfigModel::AllowSplitEntries => WriterModel { allow_split: true, ..w },
        ConfigModel::AllowUnroutableEntries => WriterModel { allow_unroutable: true, ..w },
        ConfigModel::Other(_) => w,
    }
}

/// One item of an entry.
pub open spec fn with_item_written(
    s: Settings,
    w: WriterModel,
    item: ItemModel,
    multiplicity: Option<u64>,
) -> WriterModel {
    match item {
        ItemModel::Timestamp(nanos) => with_timestamp(w, nanos),
        ItemModel::Value(name, value) => with_value(s, w, name, value, multiplicity),
        ItemModel::Config(config) => with_config(s, w, config),
    }
}

/// All items of an entry, in order.
pub open spec fn with_items_written(
    s: Settings,
    w: WriterModel,
    items: Seq<ItemModel>,
    multiplicity: Option<u64>,
) -> WriterModel
    decreases items.len(),
{
    if items.len() == 0 {
        w
    } else {
        with_item_written(
            s,
            with_items_written(s, w, items.drop_last(), multiplicity),
            items.last(),
            multiplicity,
        )
    }
}

// ---------------------------------------------------------------------------
// Output
// ---------------------------------------------------------------------------

/// The errors for dimensions that were never filled in, in the order of the names.
pub open spec fn missing_dimensions(lines: LinesModel, names: Seq<Seq<char>>) -> Seq<ErrorModel>
    decreases names.len(),
{
    if names.len() == 0 {
        Seq::empty()
    } else {
        let init = missing_dimensions(lines, names.drop_last());
        if lines.kinds[names.last()] is UnfoundDimension {
            init.push(field_error(names.last(), "missing dimension"@))
        } else {
            init
        }
    }
}

/// All errors of an entry.
pub open spec fn all_errors(s: Settings, w: WriterModel) -> Seq<ErrorModel> {
    if s.skip_dimensions_exist || w.allow_unroutable {
        w.errors
    } else {
        w.errors + missing_dimensions(w.lines, w.lines.order)
    }
}

/// Sets of dimension names as JSON, separated by commas.
pub open spec fn dimensions_json(sets: Seq<Seq<Seq<char>>>) -> Seq<char> {
    joined(sets.map_values(|set: Seq<Seq<char>>| json_string_array(set)), seq![','])
}

/// The directive that publishes the defined metrics to a namespace.
pub open spec fn directive(
    namespace: Seq<char>,
    dimensions: Seq<Seq<Seq<char>>>,
    definitions: Seq<char>,
) -> Seq<char> {
    "{\"Namespace\":"@ + json_quoted(namespace) + ",\"Dimensions\":["@ + dimensions_json(dimensions)
        + "],\"Metrics\":["@ + definitions + "]}"@
}

/// The same directive for each namespace.
pub open spec fn directives(
    namespaces: Seq<Seq<char>>,
    dimensions: Seq<Seq<Seq<char>>>,
    definitions: Seq<char>,
) -> Seq<Seq<char>> {
    namespaces.map_values(|ns: Seq<char>| directive(ns, dimensions, definitions))
}

/// What stands between the directives and the timestamp.
pub open spec fn before_timestamp(log_group: Option<Seq<char>>) -> Seq<char> {
    match log_group {
        Some(name) => "],\"LogGroupName\":"@ + json_quoted(name) + ",\"Timestamp\":"@,
        None => "],\"Timestamp\":"@,
    }
}

/// A line of output: the directives for all namespaces and further ones, the
/// timestamp, and the members.
pub open spec fn line(
    s: Settings,
    dimensions: Seq<Seq<Seq<char>>>,
    definitions: Seq<char>,
    further: Seq<char>,
    millis: nat,
    members: Seq<char>,
) -> Seq<char> {
    "{\"_aws\":{\"CloudWatchMetrics\":["@ + joined(
        directives(s.namespaces, dimensions, definitions),
        seq![','],
    ) + further + before_timestamp(s.log_group) + decimal(millis) + "}"@ + members + "}\n"@
}

/// The members that give the instances of dimensions.
pub open spec fn instance_fields(key: Seq<(Seq<char>, Seq<char>)>) -> Seq<char> {
    concat(
        key.map_values(|p: (Seq<char>, Seq<char>)| member_name(p.0) + json_quoted(p.1)),
    )
}

/// The line for metrics that share dimensions of their own.
pub open spec fn set_line_text(s: Settings, w: WriterModel, set: SetModel, millis: nat) -> Seq<
    char,
> {
    line(
        s,
        set.dimensions,
        set.definitions,
        Seq::empty(),
        millis,
        instance_fields(set.key) + set.fields + w.strings,
    )
}

/// The lines for the sets that have metrics, in the order of the sets.
pub open spec fn set_lines(s: Settings, w: WriterModel, sets: Seq<SetModel>, millis: nat) -> Seq<
    Seq<char>,
>
    decreases sets.len(),
{
    if sets.len() == 0 {
        Seq::empty()
    } else {
        let init = set_lines(s, w, sets.drop_last(), millis);
        if sets.last().fields.len() == 0 {
            init
        } else {
            init.push(set_line_text(s, w, sets.last(), millis))
        }
    }
}

/// The line for everything without dimensions of its own.
pub open spec fn global_line(s: Settings, w: WriterModel, millis: nat) -> Seq<char> {
    line(
        s,
        effective_dimensions(s, w),
        w.definitions,
        s.directives,
        millis,
        w.fields + w.strings,
    )
}

/// The lines of an entry without errors. The line without dimensions is left out
/// where it would say nothing that the others do not.
pub open spec fn output_lines(s: Settings, w: WriterModel, now: i128) -> Seq<Seq<char>> {
    let millis = epoch_millis(
        match w.timestamp {
            Some(t) => t,
            None => now,
        },
    ) as nat;
    let lines = set_lines(s, w, w.sets, millis);
    if lines.len() == 0 || w.fields.len() > 0 {
        lines.push(global_line(s, w, millis))
    } else {
        lines
    }
}

/// What formatting an entry gives: its lines, or its errors.
pub open spec fn formatted(
    s: Settings,
    items: Seq<ItemModel>,
    multiplicity: Option<u64>,
    now: i128,
) -> Result<Seq<char>, Seq<ErrorModel>> {
    let w = with_items_written(s, fresh(initial_lines(s)), items, multiplicity);
    let errors = all_errors(s, w);
    if errors.len() > 0 {
        Err(errors)
    } else {
        Ok(concat(output_lines(s, w, now)))
    }
}

} // verus!
