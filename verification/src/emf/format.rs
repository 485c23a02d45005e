//! The EMF formatter and its builder.

use vstd::prelude::*;
use vstd::string::*;

use crate::emf::encoded::{JsonEncodedArray, JsonEncodedString};
use crate::emf::lines::{all_unfound, no_lines, LineKind, Lines, MetricNote, Place};
use crate::emf::metric::{member_name, member_name_text, write_metric};
use crate::emf::model::{
    all_errors, before_timestamp, combined, dimensions_json, directive, directives, expecting,
    expecting_sets, extended, first_texts, formatted, fresh, global_line, instance_fields,
    is_global, line, missing_dimensions, name_error, output_lines, set_keys, set_line_text,
    set_lines, set_position, with_config, with_dimension_note, with_dimension_notes,
    with_dimension_set_notes, with_error, with_global_metric, with_items_written, with_metric_note,
    with_property, with_set, with_set_metric, with_text_note, with_timestamp, with_value, SetModel,
    Settings, WriterModel,
};
use crate::entry::{epoch_millis, item_models, text_lists, Entry, EntryConfig, EntryItem, Timestamp};
use crate::index::{key_position, key_positions, new_key_index, set_key_position, KeyIndex};
use crate::nested::{array_text, object_text, Dialect};
use crate::order::sort_pairs;
use crate::text::{
    concat, decimal, itoa_u128, itoa_u64, joined, joined_push, json_quoted, json_string_array,
    push_part, serde_json_str, texts,
};
use crate::unit::{unit_name, Unit};
use crate::validate::{
    error_models, field_error, optional_text, ErrorModel, ValidationError, ValidationErrorBuilder,
};
use crate::value::{nested_models, pairs, MetricCall, WrittenValue};

verus! {

/// What a formatter does not check.
#[derive(Clone, Copy, Debug)]
pub struct Validation {
    pub skip_validate_unique: bool,
    pub skip_validate_dimensions_exist: bool,
    pub skip_validate_names: bool,
}

/// The sets of dimension names that a list of encoded sets stands for.
pub open spec fn array_texts(arrays: Seq<JsonEncodedArray>) -> Seq<Seq<Seq<char>>> {
    arrays.map_values(|a: JsonEncodedArray| a@)
}

/// Each of the encoded sets is well-formed.
pub open spec fn arrays_wf(arrays: Seq<JsonEncodedArray>) -> bool {
    forall|i: int| 0 <= i < arrays.len() ==> (#[trigger] arrays[i]).wf()
}

/// Formats entries in EMF.
pub struct Emf {
    namespaces: Vec<JsonEncodedString>,
    each_dimensions: Vec<JsonEncodedArray>,
    directives: String,
    before_timestamp: String,
    log_group: Ghost<Option<Seq<char>>>,
    validation: Validation,
    allow_ignored_dimensions: bool,
    base: Lines,
}

impl View for Emf {
    type V = Settings;

    closed spec fn view(&self) -> Settings {
        Settings {
            namespaces: self.namespaces@.map_values(|n: JsonEncodedString| n@),
            dimensions: array_texts(self.each_dimensions@),
            directives: self.directives@,
            log_group: self.log_group@,
            skip_unique: self.validation.skip_validate_unique,
            skip_dimensions_exist: self.validation.skip_validate_dimensions_exist,
            skip_names: self.validation.skip_validate_names,
            ignore_dimensions: self.allow_ignored_dimensions,
        }
    }
}

impl Emf {
    /// There is a namespace, what is encoded is what it stands for, and only the
    /// dimensions are known before an entry is written.
    pub closed spec fn wf(self) -> bool {
        &&& self.namespaces@.len() > 0
        &&& forall|i: int| 0 <= i < self.namespaces@.len() ==> (#[trigger] self.namespaces@[i]).wf()
        &&& arrays_wf(self.each_dimensions@)
        &&& self.before_timestamp@ == before_timestamp(self.log_group@)
        &&& self.base.wf()
        &&& self.base@ == expecting_sets(no_lines(), self@.dimensions)
        &&& all_unfound(self.base@)
    }
}

impl Emf {
    /// Whether a name is in itself good.
    pub fn accepts_name(&self, name: &str) -> (res: bool)
        ensures
            res == (name_error(self@, name@) is None),
    {
        self.validation.skip_validate_names || (!name.is_empty() && name.to_owned()
            != "_aws".to_owned())
    }
}

/// The metrics that share dimensions of their own.
struct MetricsForDimensionSet {
    key: Vec<(String, String)>,
    dimensions: Vec<JsonEncodedArray>,
    instance_fields: String,
    fields: String,
    definitions: String,
}

impl View for MetricsForDimensionSet {
    type V = SetModel;

    closed spec fn view(&self) -> SetModel {
        SetModel {
            key: pairs(self.key@),
            dimensions: array_texts(self.dimensions@),
            fields: self.fields@,
            definitions: self.definitions@,
        }
    }
}

impl MetricsForDimensionSet {
    spec fn wf(self) -> bool {
        &&& arrays_wf(self.dimensions@)
        &&& self.instance_fields@ == instance_fields(pairs(self.key@))
    }

    /// The set for the dimensions `key`, with no metrics as yet. They are published
    /// under each of the given sets of names, with those of `key` added.
    fn new(each_dimensions: &Vec<JsonEncodedArray>, key: Vec<(String, String)>) -> (res: Self)
        requires
            arrays_wf(each_dimensions@),
        ensures
            res.wf(),
            res@ == (SetModel {
                key: pairs(key@),
                dimensions: extended(array_texts(each_dimensions@), first_texts(pairs(key@))),
                fields: Seq::empty(),
                definitions: Seq::empty(),
            }),
    {
        let ghost k = pairs(key@);
        let ghost parts = k.map_values(
            |p: (Seq<char>, Seq<char>)| member_name(p.0) + json_quoted(p.1),
        );
        let mut names: Vec<String> = Vec::new();
        let mut instances = String::new();
        for i in 0..key.len()
            invariant
                k == pairs(key@),
                parts == k.map_values(
                    |p: (Seq<char>, Seq<char>)| member_name(p.0) + json_quoted(p.1),
                ),
                texts(names@) == first_texts(k).take(i as int),
                instances@ == concat(parts.take(i as int)),
        {
            let ghost before = names@;
            names.push(key[i].0.clone());
            instances.append(member_name_text(key[i].0.as_str()).as_str());
            instances.append(serde_json_str(key[i].1.as_str()).as_str());
            proof {
                assert(texts(names@) =~= texts(before).push(k[i as int].0));
                assert(first_texts(k).take(i + 1) =~= first_texts(k).take(i as int).push(
                    k[i as int].0,
                ));
                assert(parts.take(i + 1).drop_last() =~= parts.take(i as int));
                assert(instances@ =~= concat(parts.take(i + 1)));
            }
        }
        assert(texts(names@) =~= first_texts(k));
        assert(parts.take(parts.len() as int) =~= parts);
        let mut dimensions: Vec<JsonEncodedArray> = Vec::new();
        for i in 0..each_dimensions.len()
            invariant
                arrays_wf(each_dimensions@),
                arrays_wf(dimensions@),
                texts(names@) == first_texts(k),
                array_texts(dimensions@) == extended(
                    array_texts(each_dimensions@),
                    first_texts(k),
                ).take(i as int),
        {
            let ghost before = dimensions@;
            let ghost goal = extended(array_texts(each_dimensions@), first_texts(k));
            dimensions.push(each_dimensions[i].duplicate().extend_with_strings(&names));
            proof {
                assert(array_texts(dimensions@) =~= array_texts(before).push(goal[i as int]));
                assert(goal.take(i + 1) =~= goal.take(i as int).push(goal[i as int]));
            }
        }
        let res = MetricsForDimensionSet {
            key,
            dimensions,
            instance_fields: instances,
            fields: String::new(),
            definitions: String::new(),
        };
        assert(res@.dimensions =~= extended(array_texts(each_dimensions@), first_texts(k)));
        res
    }
}

/// What has been written of an entry.
struct EntryWriter {
    lines: Lines,
    error: ValidationErrorBuilder,
    timestamp: Option<Timestamp>,
    allow_split_entries: bool,
    is_allow_unroutable_entries: bool,
    entry_dimensions: Option<Vec<JsonEncodedArray>>,
    strings: String,
    fields: String,
    definitions: String,
    sets: Vec<MetricsForDimensionSet>,
    set_index: KeyIndex,
}

impl View for EntryWriter {
    type V = WriterModel;

    closed spec fn view(&self) -> WriterModel {
        WriterModel {
            lines: self.lines@,
            errors: self.error@,
            timestamp: match self.timestamp {
                Some(t) => Some(t.nanos),
                None => None,
            },
            allow_split: self.allow_split_entries,
            allow_unroutable: self.is_allow_unroutable_entries,
            entry_dimensions: match self.entry_dimensions {
                Some(d) => Some(array_texts(d@)),
                None => None,
            },
            strings: self.strings@,
            fields: self.fields@,
            definitions: self.definitions@,
            sets: self.sets@.map_values(|s: MetricsForDimensionSet| s@),
        }
    }
}

impl EntryWriter {
    spec fn wf(self) -> bool {
        &&& self.lines.wf()
        &&& self.entry_dimensions matches Some(d) ==> arrays_wf(d@)
        &&& forall|i: int| 0 <= i < self.sets@.len() ==> (#[trigger] self.sets@[i]).wf()
        &&& forall|i: int|
            0 <= i < self.sets@.len() ==> {
                &&& key_positions(self.set_index).contains_key(pairs(#[trigger] self.sets@[i].key@))
                &&& key_positions(self.set_index)[pairs(self.sets@[i].key@)] == i
            }
        &&& forall|k: Seq<(Seq<char>, Seq<char>)>| #[trigger]
            key_positions(self.set_index).contains_key(k) ==> {
                &&& key_positions(self.set_index)[k] < self.sets@.len()
                &&& pairs(self.sets@[key_positions(self.set_index)[k] as int].key@) == k
            }
    }

    fn new(lines: Lines) -> (w: EntryWriter)
        requires
            lines.wf(),
        ensures
            w.wf(),
            w@ == fresh(lines@),
    {
        let w = EntryWriter {
            lines,
            error: ValidationErrorBuilder::default(),
            timestamp: None,
            allow_split_entries: false,
            is_allow_unroutable_entries: false,
            entry_dimensions: None,
            strings: String::new(),
            fields: String::new(),
            definitions: String::new(),
            sets: Vec::new(),
            set_index: new_key_index(),
        };
        assert(w@.sets =~= Seq::empty());
        w
    }

    /// Records the timestamp.
    fn timestamp(&mut self, timestamp: Timestamp)
        requires
            old(self).wf(),
        ensures
            final(self).wf(),
            final(self)@ == with_timestamp(old(self)@, timestamp.nanos),
    {
        if self.timestamp.is_some() {
            self.error.invalid_mut("multiple timestamps written");
        }
        self.timestamp = Some(timestamp);
    }

    /// Tells whether the name is good, and records the error if it is not.
    fn validate_name(&mut self, emf: &Emf, name: &str) -> (res: bool)
        requires
            old(self).wf(),
        ensures
            final(self).wf(),
            res == (name_error(emf@, name@) is None),
            final(self)@ == match name_error(emf@, name@) {
                Some(error) => with_error(old(self)@, error),
                None => old(self)@,
            },
    {
        if !emf.validation.skip_validate_names {
            if name.is_empty() {
                self.error.extend_mut(ValidationError::invalid("name can't be empty").for_field(""));
                return false;
            }
            if name.to_owned() == "_aws".to_owned() {
                self.error.extend_mut(
                    ValidationError::invalid("name can't be `_aws`").for_field("_aws"),
                );
                return false;
            }
        }
        true
    }

    /// Records an error about a field.
    fn field_error(&mut self, name: &str, reason: &str)
        requires
            old(self).wf(),
        ensures
            final(self).wf(),
            final(self)@ == with_error(old(self)@, field_error(name@, reason@)),
    {
        self.error.extend_mut(ValidationError::invalid(reason).for_field(name));
    }

    /// Takes note of a string.
    fn validate_string(&mut self, emf: &Emf, name: &str)
        requires
            old(self).wf(),
        ensures
            final(self).wf(),
            final(self)@ == with_text_note(emf@, old(self)@, name@),
    {
        if !self.lines.note_text(name) && !emf.validation.skip_validate_unique {
            self.field_error(name, "duplicate field");
        }
    }

    /// Writes a member that is not a metric.
    fn property(&mut self, emf: &Emf, name: &str, json: &str)
        requires
            old(self).wf(),
        ensures
            final(self).wf(),
            final(self)@ == with_property(emf@, old(self)@, name@, json@),
    {
        self.strings.append(member_name_text(name).as_str());
        self.strings.append(json);
        if !emf.validation.skip_validate_unique
            || !emf.validation.skip_validate_dimensions_exist {
            self.validate_string(emf, name);
        }
    }

    /// Takes note of a metric.
    fn validate_metric(&mut self, emf: &Emf, name: &str, place: Place)
        requires
            old(self).wf(),
            place matches Place::Within(i) ==> i < usize::MAX,
        ensures
            final(self).wf(),
            final(self)@ == with_metric_note(emf@, old(self)@, name@, place),
    {
        if !emf.validation.skip_validate_unique && !self.is_allow_unroutable_entries {
            match self.lines.note_metric(name, place) {
                MetricNote::Taken => {},
                MetricNote::InDimension => {
                    self.field_error(name, "can't use metric in dimension field");
                },
                MetricNote::Duplicate => {
                    self.field_error(name, "duplicate field");
                },
            }
        }
    }

    /// The position of the set for `key`, which is added if it is new.
    fn set_for(&mut self, emf: &Emf, key: Vec<(String, String)>) -> (position: usize)
        requires
            emf.wf(),
            old(self).wf(),
        ensures
            final(self).wf(),
            final(self)@ == with_set(emf@, old(self)@, pairs(key@)),
            position < final(self)@.sets.len(),
            position == set_position(final(self)@, pairs(key@)),
    {
        let ghost k = pairs(key@);
        match key_position(&self.set_index, &key) {
            Some(position) => {
                proof {
                    let keys = set_keys(self@.sets);
                    assert(keys[position as int] == k);
                    assert(keys.contains(k));
                    assert(keys[keys.index_of(k)] == k);
                }
                position
            },
            None => {
                proof {
                    let keys = set_keys(self@.sets);
                    if keys.contains(k) {
                        let i = choose|i: int| 0 <= i < keys.len() && keys[i] == k;
                        assert(pairs(self.sets@[i].key@) == k);
                    }
                }
                let position: usize = self.sets.len();
                let set = match &self.entry_dimensions {
                    Some(dimensions) => MetricsForDimensionSet::new(dimensions, copy_pairs(&key)),
                    None => MetricsForDimensionSet::new(&emf.each_dimensions, copy_pairs(&key)),
                };
                let ghost added = set@;
                set_key_position(&mut self.set_index, key, position);
                self.sets.push(set);
                proof {
                    let keys = set_keys(self@.sets);
                    assert(self@.sets =~= old(self)@.sets.push(added));
                    assert(keys[position as int] == k);
                    assert(keys.contains(k));
                    let i = keys.index_of(k);
                    assert(keys[i] == k);
                    assert(pairs(self.sets@[i].key@) == k);
                }
                position
            },
        }
    }

    /// Writes a metric.
    fn metric(&mut self, emf: &Emf, name: &str, m: &MetricCall, multiplicity: Option<u64>)
        requires
            emf.wf(),
            old(self).wf(),
        ensures
            final(self).wf(),
            final(self)@ == if is_global(emf@, m@) {
                with_global_metric(emf@, old(self)@, name@, m@, multiplicity)
            } else {
                with_set_metric(emf@, old(self)@, name@, m@, multiplicity)
            },
    {
        if emf.allow_ignored_dimensions || m.dimensions.len() == 0 {
            self.validate_metric(emf, name, Place::Global);
            write_metric(
                name,
                &mut self.fields,
                &mut self.definitions,
                &m.distribution,
                m.unit,
                m.flags,
                multiplicity,
            );
        } else {
            if !self.allow_split_entries {
                self.field_error(
                    name,
                    "can't use per-metric dimensions without split entries - you probably want to remove WithDimensions<>",
                );
            }
            let key = sort_pairs(copy_pairs(&m.dimensions));
            let position: usize = self.set_for(emf, key);
            assert(position < self.sets.len());
            self.validate_metric(emf, name, Place::Within(position));
            let ghost before = self@;
            let ghost goal = with_set_metric(emf@, old(self)@, name@, m@, multiplicity);
            let set = &mut self.sets[position];
            write_metric(
                name,
                &mut set.fields,
                &mut set.definitions,
                &m.distribution,
                m.unit,
                m.flags,
                multiplicity,
            );
            proof {
                assert(self@.sets =~= goal.sets);
            }
        }
    }

    /// Writes a value under a name.
    fn value(&mut self, emf: &Emf, name: &str, value: &WrittenValue, multiplicity: Option<u64>)
        requires
            emf.wf(),
            old(self).wf(),
        ensures
            final(self).wf(),
            final(self)@ == with_value(emf@, old(self)@, name@, value@, multiplicity),
    {
        broadcast use nested_models;

        if self.validate_name(emf, name) {
            match value {
                WrittenValue::Nothing => {},
                WrittenValue::Text(text) => {
                    self.property(emf, name, serde_json_str(text.as_str()).as_str());
                },
                WrittenValue::List(items) => {
                    self.property(emf, name, array_text(Dialect::Emf, false, items).as_str());
                },
                WrittenValue::Object(fields) => {
                    self.property(emf, name, object_text(Dialect::Emf, fields).as_str());
                },
                WrittenValue::Metric(m) => {
                    self.metric(emf, name, m, multiplicity);
                },
                WrittenValue::Error(e) => {
                    self.error.extend_mut(e.duplicate().for_field(name));
                },
            }
        }
    }
}

impl EntryWriter {
    /// Takes note of a dimension that has to be filled in.
    fn note_dimension(&mut self, emf: &Emf, name: &str)
        requires
            old(self).wf(),
        ensures
            final(self).wf(),
            final(self)@ == with_dimension_note(emf@, old(self)@, name@),
    {
        match self.lines.find(name) {
            Some(position) => {
                let is_metric = matches!(self.lines.list[position].kind, LineKind::Metric { .. });
                if is_metric && !emf.validation.skip_validate_unique {
                    self.field_error(name, "duplicate field");
                }
            },
            None => {
                self.lines.expect(name);
            },
        }
    }

    /// Takes note of the dimensions of several sets.
    fn note_dimension_sets(&mut self, emf: &Emf, sets: &Vec<Vec<String>>)
        requires
            old(self).wf(),
        ensures
            final(self).wf(),
            final(self)@ == with_dimension_set_notes(emf@, old(self)@, text_lists(sets@)),
    {
        let ghost start = self@;
        let ghost all = text_lists(sets@);
        for i in 0..sets.len()
            invariant
                self.wf(),
                all == text_lists(sets@),
                self@ == with_dimension_set_notes(emf@, start, all.take(i as int)),
        {
            let ghost before = self@;
            let ghost names = all[i as int];
            let set = &sets[i];
            for j in 0..set.len()
                invariant
                    self.wf(),
                    names == texts(set@),
                    self@ == with_dimension_notes(emf@, before, names.take(j as int)),
            {
                proof {
                    assert(names.take(j + 1).drop_last() =~= names.take(j as int));
                    assert(names.take(j + 1).last() == set@[j as int]@);
                }
                self.note_dimension(emf, set[j].as_str());
            }
            proof {
                assert(names.take(names.len() as int) =~= names);
                assert(all.take(i + 1).drop_last() =~= all.take(i as int));
                assert(all.take(i + 1).last() == names);
            }
        }
        assert(all.take(all.len() as int) =~= all);
    }

    /// Applies a setting of the entry.
    fn config(&mut self, emf: &Emf, config: &EntryConfig)
        requires
            emf.wf(),
            old(self).wf(),
        ensures
            final(self).wf(),
            final(self)@ == with_config(emf@, old(self)@, config@),
    {
        match config {
            EntryConfig::EntryDimensions(sets) => {
                if self.sets.len() > 0 {
                    self.error.invalid_mut(
                        "entry dimensions must be configured before emitting a metric with custom dimensions",
                    );
                } else if self.entry_dimensions.is_some() {
                    self.error.invalid_mut("entry dimensions cannot be set twice");
                } else if sets.len() == 0 {
                    self.error.invalid_mut("entry dimensions cannot be empty");
                } else {
                    if !emf.validation.skip_validate_unique
                        || !emf.validation.skip_validate_dimensions_exist {
                        self.note_dimension_sets(emf, sets);
                    }
                    self.entry_dimensions = Some(combine(&emf.each_dimensions, sets));
                }
            },
            EntryConfig::AllowSplitEntries => {
                self.allow_split_entries = true;
            },
            EntryConfig::AllowUnroutableEntries => {
                self.is_allow_unroutable_entries = true;
            },
            EntryConfig::Other(_) => {},
        }
    }

    /// Writes the items of an entry.
    fn items(&mut self, emf: &Emf, items: &Vec<EntryItem>, multiplicity: Option<u64>)
        requires
            emf.wf(),
            old(self).wf(),
        ensures
            final(self).wf(),
            final(self)@ == with_items_written(
                emf@,
                old(self)@,
                item_models(items@),
                multiplicity,
            ),
    {
        let ghost start = self@;
        let ghost all = item_models(items@);
        for i in 0..items.len()
            invariant
                emf.wf(),
                self.wf(),
                all == item_models(items@),
                self@ == with_items_written(emf@, start, all.take(i as int), multiplicity),
        {
            proof {
                assert(all.take(i + 1).drop_last() =~= all.take(i as int));
                assert(all.take(i + 1).last() == items@[i as int]@);
            }
            match &items[i] {
                EntryItem::Timestamp(t) => {
                    self.timestamp(*t);
                },
                EntryItem::Value(name, value) => {
                    self.value(emf, name.as_str(), value, multiplicity);
                },
                EntryItem::Config(config) => {
                    self.config(emf, config);
                },
            }
        }
        assert(all.take(all.len() as int) =~= all);
    }

    /// Records an error for each dimension that was never filled in.
    fn check_dimensions(&mut self, emf: &Emf)
        requires
            old(self).wf(),
        ensures
            final(self)@ == (WriterModel {
                errors: all_errors(emf@, old(self)@),
                ..old(self)@
            }),
            final(self).wf(),
    {
        if !emf.validation.skip_validate_dimensions_exist && !self.is_allow_unroutable_entries {
            let ghost start = self@;
            let ghost names = self.lines@.order;
            let n: usize = self.lines.list.len();
            for i in 0..n
                invariant
                    self.wf(),
                    names == self.lines@.order,
                    n == self.lines.list@.len(),
                    start.lines == self@.lines,
                    self@ == (WriterModel {
                        errors: start.errors + missing_dimensions(
                            start.lines,
                            names.take(i as int),
                        ),
                        ..start
                    }),
            {
                proof {
                    assert(names.take(i + 1).drop_last() =~= names.take(i as int));
                    assert(names.take(i + 1).last() == self.lines.list@[i as int].name@);
                    assert(self.lines@.kinds[names[i as int]]
                        == self.lines.list@[i as int].kind@);
                }
                let ghost before = self@.errors;
                if matches!(self.lines.list[i].kind, LineKind::UnfoundDimension) {
                    let error = ValidationError::invalid("missing dimension").for_field(
                        self.lines.list[i].name.as_str(),
                    );
                    self.error.extend_mut(error);
                }
                assert(self@.errors =~= start.errors + missing_dimensions(
                    start.lines,
                    names.take(i + 1),
                ));
            }
            assert(names.take(names.len() as int) =~= names);
        }
    }
}

impl Emf {
    /// The directive for a namespace.
    fn directive_text(namespace: &JsonEncodedString, dimensions: &str, definitions: &str) -> (text:
        String)
        requires
            namespace.wf(),
        ensures
            text@ == "{\"Namespace\":"@ + json_quoted(namespace@) + ",\"Dimensions\":["@
                + dimensions@ + "],\"Metrics\":["@ + definitions@ + "]}"@,
    {
        let mut text = "{\"Namespace\":".to_owned();
        text.append(namespace.encoded_str.as_str());
        text.append(",\"Dimensions\":[");
        text.append(dimensions);
        text.append("],\"Metrics\":[");
        text.append(definitions);
        text.append("]}");
        text
    }

    /// A line of output.
    fn line_text(
        &self,
        dimensions: &Vec<JsonEncodedArray>,
        definitions: &str,
        further: &str,
        millis: u128,
        members: &str,
    ) -> (text: String)
        requires
            self.wf(),
            arrays_wf(dimensions@),
        ensures
            text@ == line(
                self@,
                array_texts(dimensions@),
                definitions@,
                further@,
                millis as nat,
                members@,
            ),
    {
        let sets = dimension_list(dimensions);
        let ghost head = "{\"_aws\":{\"CloudWatchMetrics\":["@;
        let ghost all = directives(self@.namespaces, array_texts(dimensions@), definitions@);
        let mut text = "{\"_aws\":{\"CloudWatchMetrics\":[".to_owned();
        let mut any = false;
        for i in 0..self.namespaces.len()
            invariant
                self.wf(),
                sets@ == dimensions_json(array_texts(dimensions@)),
                all == directives(self@.namespaces, array_texts(dimensions@), definitions@),
                all.len() == self.namespaces@.len(),
                any == (i > 0),
                text@ == head + joined(all.take(i as int), seq![',']),
        {
            let part = Self::directive_text(&self.namespaces[i], sets.as_str(), definitions);
            push_part(&mut text, &mut any, part.as_str());
            proof {
                assert(part@ == all[i as int]);
                joined_push(all.take(i as int), part@, seq![',']);
                assert(all.take(i + 1) =~= all.take(i as int).push(part@));
                assert(text@ =~= head + joined(all.take(i + 1), seq![',']));
            }
        }
        assert(all.take(all.len() as int) =~= all);
        text.append(further);
        text.append(self.before_timestamp.as_str());
        text.append(itoa_u128(millis).as_str());
        text.append("}");
        text.append(members);
        text.append("}\n");
        text
    }

    /// The lines of an entry, or its errors.
    fn finish(&self, writer: EntryWriter, now: Timestamp) -> (res: Result<
        String,
        Vec<ValidationError>,
    >)
        requires
            self.wf(),
            writer.wf(),
        ensures
            res is Ok <==> all_errors(self@, writer@).len() == 0,
            res matches Ok(text) ==> text@ == concat(output_lines(self@, writer@, now.nanos)),
            res matches Err(errors) ==> error_models(errors@) == all_errors(self@, writer@),
    {
        let ghost w = writer@;
        let mut writer = writer;
        writer.check_dimensions(self);
        let timestamp = match writer.timestamp {
            Some(t) => t,
            None => now,
        };
        let number: u128 = timestamp.epoch_millis();
        let EntryWriter { error, entry_dimensions, strings, fields, definitions, sets, .. } = writer;
        let ghost models = sets@.map_values(|s: MetricsForDimensionSet| s@);
        match error.build() {
            Err(errors) => {
                return Err(errors);
            },
            Ok(_) => {},
        }
        let mut text = String::new();
        let mut any = false;
        for i in 0..sets.len()
            invariant
                self.wf(),
                models == sets@.map_values(|s: MetricsForDimensionSet| s@),
                models == w.sets,
                forall|i: int| 0 <= i < sets@.len() ==> (#[trigger] sets@[i]).wf(),
                strings@ == w.strings,
                any == (set_lines(self@, w, models.take(i as int), number as nat).len() > 0),
                text@ == concat(set_lines(self@, w, models.take(i as int), number as nat)),
        {
            let ghost before = set_lines(self@, w, models.take(i as int), number as nat);
            proof {
                assert(models.take(i + 1).drop_last() =~= models.take(i as int));
                assert(models.take(i + 1).last() == sets@[i as int]@);
            }
            let set = &sets[i];
            if !set.fields.as_str().is_empty() {
                let mut members = set.instance_fields.clone();
                members.append(set.fields.as_str());
                members.append(strings.as_str());
                let part = self.line_text(
                    &set.dimensions,
                    set.definitions.as_str(),
                    "",
                    number,
                    members.as_str(),
                );
                text.append(part.as_str());
                any = true;
                proof {
                    reveal_strlit("");
                    assert(""@ =~= Seq::empty());
                    assert(part@ == set_line_text(self@, w, set@, number as nat));
                    assert(before.push(part@).drop_last() =~= before);
                }
            }
        }
        assert(models.take(models.len() as int) =~= models);
        let ghost lines = set_lines(self@, w, models, number as nat);
        if !any || !fields.as_str().is_empty() {
            let mut members = fields;
            members.append(strings.as_str());
            let part = match &entry_dimensions {
                Some(dimensions) => self.line_text(
                    dimensions,
                    definitions.as_str(),
                    self.directives.as_str(),
                    number,
                    members.as_str(),
                ),
                None => self.line_text(
                    &self.each_dimensions,
                    definitions.as_str(),
                    self.directives.as_str(),
                    number,
                    members.as_str(),
                ),
            };
            text.append(part.as_str());
            proof {
                assert(part@ == global_line(self@, w, number as nat));
                assert(lines.push(part@).drop_last() =~= lines);
            }
        }
        Ok(text)
    }

    /// Formats an entry, with each metric counted `multiplicity` times over if that
    /// is given. `now` is the timestamp of an entry that has none.
    pub fn format_with_multiplicity<E: Entry>(
        &self,
        entry: &E,
        now: Timestamp,
        multiplicity: Option<u64>,
    ) -> (res: Result<String, Vec<ValidationError>>)
        requires
            self.wf(),
        ensures
            ({
                let expected = formatted(
                    self@,
                    entry.items(),
                    multiplicity,
                    now.nanos,
                );
                &&& res is Ok <==> expected is Ok
                &&& res matches Ok(text) ==> expected == Ok::<Seq<char>, Seq<ErrorModel>>(text@)
                &&& res matches Err(errors) ==> expected == Err::<Seq<char>, Seq<ErrorModel>>(
                    error_models(errors@),
                )
            }),
    {
        let lines = if self.validation.skip_validate_dimensions_exist {
            Lines::new()
        } else {
            self.base.duplicate()
        };
        let mut writer = EntryWriter::new(lines);
        writer.items(self, &entry.write(), multiplicity);
        self.finish(writer, now)
    }

    /// Formats an entry.
    pub fn format<E: Entry>(&self, entry: &E, now: Timestamp) -> (res: Result<
        String,
        Vec<ValidationError>,
    >)
        requires
            self.wf(),
        ensures
            ({
                let expected = formatted(
                    self@,
                    entry.items(),
                    None,
                    now.nanos,
                );
                &&& res is Ok <==> expected is Ok
                &&& res matches Ok(text) ==> expected == Ok::<Seq<char>, Seq<ErrorModel>>(text@)
                &&& res matches Err(errors) ==> expected == Err::<Seq<char>, Seq<ErrorModel>>(
                    error_models(errors@),
                )
            }),
    {
        self.format_with_multiplicity(entry, now, None)
    }
}

/// Sets of dimension names, separated by commas.
fn dimension_list(dimensions: &Vec<JsonEncodedArray>) -> (text: String)
    requires
        arrays_wf(dimensions@),
    ensures
        text@ == dimensions_json(array_texts(dimensions@)),
{
    let ghost all = array_texts(dimensions@).map_values(
        |set: Seq<Seq<char>>| json_string_array(set),
    );
    let mut text = String::new();
    let mut any = false;
    for i in 0..dimensions.len()
        invariant
            arrays_wf(dimensions@),
            all == array_texts(dimensions@).map_values(
                |set: Seq<Seq<char>>| json_string_array(set),
            ),
            any == (i > 0),
            text@ == joined(all.take(i as int), seq![',']),
    {
        push_part(&mut text, &mut any, dimensions[i].encoded_array.as_str());
        proof {
            let part = all[i as int];
            joined_push(all.take(i as int), part, seq![',']);
            assert(all.take(i + 1) =~= all.take(i as int).push(part));
            assert(text@ =~= joined(all.take(i + 1), seq![',']));
        }
    }
    assert(all.take(all.len() as int) =~= all);
    text
}

/// Each of the outer sets with each of the inner sets at its end.
fn combine(outer: &Vec<JsonEncodedArray>, inner: &Vec<Vec<String>>) -> (res: Vec<JsonEncodedArray>)
    requires
        arrays_wf(outer@),
    ensures
        arrays_wf(res@),
        array_texts(res@) == combined(array_texts(outer@), text_lists(inner@)),
{
    let ghost out = array_texts(outer@);
    let ghost sets = text_lists(inner@);
    let mut res: Vec<JsonEncodedArray> = Vec::new();
    assert(array_texts(res@) =~= Seq::empty());
    for i in 0..outer.len()
        invariant
            arrays_wf(outer@),
            arrays_wf(res@),
            out == array_texts(outer@),
            sets == text_lists(inner@),
            array_texts(res@) == combined(out.take(i as int), sets),
    {
        let ghost before = array_texts(res@);
        let ghost row = sets.map_values(|set: Seq<Seq<char>>| out[i as int] + set);
        assert(row.take(0) =~= Seq::empty());
        for j in 0..inner.len()
            invariant
                arrays_wf(outer@),
                arrays_wf(res@),
                0 <= i < outer@.len(),
                out == array_texts(outer@),
                sets == text_lists(inner@),
                row == sets.map_values(|set: Seq<Seq<char>>| out[i as int] + set),
                array_texts(res@) == before + row.take(j as int),
        {
            let ghost earlier = res@;
            res.push(outer[i].duplicate().extend_with_strings(&inner[j]));
            proof {
                assert(array_texts(res@) =~= array_texts(earlier).push(row[j as int]));
                assert(before + row.take(j + 1) =~= (before + row.take(j as int)).push(
                    row[j as int],
                ));
            }
        }
        proof {
            assert(row.take(row.len() as int) =~= row);
            assert(out.take(i + 1).drop_last() =~= out.take(i as int));
            assert(out.take(i + 1).last() == out[i as int]);
        }
    }
    assert(out.take(out.len() as int) =~= out);
    res
}

/// A copy of a list of pairs.
fn copy_pairs(list: &Vec<(String, String)>) -> (res: Vec<(String, String)>)
    ensures
        res@ == list@,
{
    let mut res: Vec<(String, String)> = Vec::new();
    for i in 0..list.len()
        invariant
            res@ == list@.take(i as int),
    {
        res.push((list[i].0.clone(), list[i].1.clone()));
        assert(res@ =~= list@.take(i + 1));
    }
    assert(res@ =~= list@);
    res
}

/// How often a metric is stored.
#[derive(Clone, Copy, Debug, PartialEq, Eq, Structural)]
pub enum StorageResolution {
    /// Each second.
    Second,
    /// Each minute, which is the default.
    Minute,
}

/// The seconds from one stored value to the next.
pub open spec fn resolution_seconds(resolution: StorageResolution) -> u64 {
    match resolution {
        StorageResolution::Second => 1,
        StorageResolution::Minute => 60,
    }
}

impl StorageResolution {
    /// The seconds from one stored value to the next.
    pub fn seconds(self) -> (n: u64)
        ensures
            n == resolution_seconds(self),
    {
        match self {
            StorageResolution::Second => 1,
            StorageResolution::Minute => 60,
        }
    }
}

/// The definition of a metric in a directive.
#[derive(Clone, Copy, Debug)]
pub struct MetricDefinition<'a> {
    /// The name of the metric.
    pub name: &'a str,
    /// The unit of the metric.
    pub unit: Unit,
    /// How often the metric is stored; each minute if not given.
    pub storage_resolution: Option<StorageResolution>,
}

/// A directive that publishes metrics of its own choice.
#[derive(Debug)]
pub struct MetricDirective<'a> {
    /// The sets of dimension names that the metrics are published under.
    pub dimensions: Vec<Vec<&'a str>>,
    /// The metrics to publish.
    pub metrics: Vec<MetricDefinition<'a>>,
    /// The namespace that they are published to.
    pub namespace: &'a str,
}

/// The JSON of a metric definition.
pub open spec fn definition_json(d: MetricDefinition<'_>) -> Seq<char> {
    "{\"Name\":"@ + json_quoted(d.name@) + ",\"Unit\":"@ + json_quoted(unit_name(d.unit))
        + match d.storage_resolution {
        Some(r) => ",\"StorageResolution\":"@ + decimal(resolution_seconds(r) as nat),
        None => Seq::empty(),
    } + "}"@
}

/// The JSON of a directive.
pub open spec fn directive_json(d: MetricDirective<'_>) -> Seq<char> {
    "{\"Dimensions\":["@ + dimensions_json(slice_lists(d.dimensions@)) + "],\"Metrics\":["@
        + joined(d.metrics@.map_values(|m: MetricDefinition<'_>| definition_json(m)), seq![','])
        + "],\"Namespace\":"@ + json_quoted(d.namespace@) + "}"@
}

/// The texts that a list of string slices holds.
pub open spec fn slices(list: Seq<&str>) -> Seq<Seq<char>> {
    list.map_values(|s: &str| s@)
}

/// The texts that a list of lists of string slices holds.
pub open spec fn slice_lists(lists: Seq<Vec<&str>>) -> Seq<Seq<Seq<char>>> {
    lists.map_values(|list: Vec<&str>| slices(list@))
}

/// The JSON of a metric definition.
fn definition_json_text(d: &MetricDefinition<'_>) -> (text: String)
    ensures
        text@ == definition_json(*d),
{
    let mut text = "{\"Name\":".to_owned();
    text.append(serde_json_str(d.name).as_str());
    text.append(",\"Unit\":");
    text.append(serde_json_str(d.unit.name()).as_str());
    let ghost head = text@;
    match d.storage_resolution {
        Some(r) => {
            text.append(",\"StorageResolution\":");
            text.append(itoa_u64(r.seconds()).as_str());
            assert(text@ =~= head + (",\"StorageResolution\":"@ + decimal(
                resolution_seconds(r) as nat,
            )));
        },
        None => {
            assert(text@ =~= head + Seq::empty());
        },
    }
    text.append("}");
    text
}

/// The JSON of a directive.
fn directive_json_text(d: &MetricDirective<'_>) -> (text: String)
    ensures
        text@ == directive_json(*d),
{
    let mut arrays: Vec<JsonEncodedArray> = Vec::new();
    let ghost sets = slice_lists(d.dimensions@);
    assert(array_texts(arrays@) =~= sets.take(0));
    for i in 0..d.dimensions.len()
        invariant
            arrays_wf(arrays@),
            sets == slice_lists(d.dimensions@),
            array_texts(arrays@) == sets.take(i as int),
    {
        let ghost before = arrays@;
        let set = &d.dimensions[i];
        let mut names: Vec<String> = Vec::new();
        for j in 0..set.len()
            invariant
                texts(names@) == slices(set@).take(j as int),
        {
            let ghost earlier = names@;
            names.push(set[j].to_owned());
            assert(texts(names@) =~= texts(earlier).push(set@[j as int]@));
            assert(slices(set@).take(j + 1) =~= slices(set@).take(j as int).push(set@[j as int]@));
        }
        arrays.push(JsonEncodedArray::encode(&names));
        proof {
            assert(texts(names@) =~= sets[i as int]);
            assert(array_texts(arrays@) =~= array_texts(before).push(sets[i as int]));
            assert(sets.take(i + 1) =~= sets.take(i as int).push(sets[i as int]));
        }
    }
    assert(sets.take(sets.len() as int) =~= sets);
    let mut text = "{\"Dimensions\":[".to_owned();
    text.append(dimension_list(&arrays).as_str());
    text.append("],\"Metrics\":[");
    let ghost head = text@;
    let ghost all = d.metrics@.map_values(|m: MetricDefinition<'_>| definition_json(m));
    let mut any = false;
    for i in 0..d.metrics.len()
        invariant
            all == d.metrics@.map_values(|m: MetricDefinition<'_>| definition_json(m)),
            any == (i > 0),
            text@ == head + joined(all.take(i as int), seq![',']),
    {
        let part = definition_json_text(&d.metrics[i]);
        push_part(&mut text, &mut any, part.as_str());
        proof {
            joined_push(all.take(i as int), part@, seq![',']);
            assert(all.take(i + 1) =~= all.take(i as int).push(part@));
            assert(text@ =~= head + joined(all.take(i + 1), seq![',']));
        }
    }
    assert(all.take(all.len() as int) =~= all);
    text.append("],\"Namespace\":");
    text.append(serde_json_str(d.namespace).as_str());
    text.append("}");
    text
}

/// Sets up a formatter.
pub struct EmfBuilder {
    default_dimensions: Vec<Vec<String>>,
    extra_directives: String,
    namespaces: Vec<String>,
    validation: Validation,
    allow_ignored_dimensions: bool,
    log_group_name: Option<String>,
}

impl View for EmfBuilder {
    type V = Settings;

    closed spec fn view(&self) -> Settings {
        Settings {
            namespaces: texts(self.namespaces@),
            dimensions: text_lists(self.default_dimensions@),
            directives: self.extra_directives@,
            log_group: optional_text(self.log_group_name),
            skip_unique: self.validation.skip_validate_unique,
            skip_dimensions_exist: self.validation.skip_validate_dimensions_exist,
            skip_names: self.validation.skip_validate_names,
            ignore_dimensions: self.allow_ignored_dimensions,
        }
    }
}

/// The settings that a builder starts with: everything is checked.
pub open spec fn default_settings(namespace: Seq<char>, dimensions: Seq<Seq<Seq<char>>>)
    -> Settings {
    Settings {
        namespaces: seq![namespace],
        dimensions,
        directives: Seq::empty(),
        log_group: None,
        skip_unique: false,
        skip_dimensions_exist: false,
        skip_names: false,
        ignore_dimensions: false,
    }
}

/// The settings without any checks, if `skip` is set.
pub open spec fn skipping(s: Settings, skip: bool) -> Settings {
    Settings {
        skip_unique: s.skip_unique || skip,
        skip_dimensions_exist: s.skip_dimensions_exist || skip,
        skip_names: s.skip_names || skip,
        ..s
    }
}

/// Checks that are left out stay left out, however often and in which order they are asked for.
pub proof fn skipping_accumulates(s: Settings, a: bool, b: bool)
    ensures
        skipping(s, false) == s,
        skipping(skipping(s, a), b) == skipping(s, a || b),
{
}

impl Emf {
    /// Starts to set up a formatter that checks everything, as in builds with debug assertions.
    /// `builder_for_build` starts as the kind of build asks for. There has to be a set of
    /// dimensions, be it an empty one, since without sets nothing would be published.
    pub fn builder(namespace: String, default_dimensions: Vec<Vec<String>>) -> (b: EmfBuilder)
        requires
            default_dimensions@.len() > 0,
        ensures
            b@ == default_settings(namespace@, text_lists(default_dimensions@)),
    {
        let b = EmfBuilder {
            default_dimensions,
            extra_directives: String::new(),
            namespaces: vec![namespace],
            validation: Validation {
                skip_validate_unique: false,
                skip_validate_dimensions_exist: false,
                skip_validate_names: false,
            },
            allow_ignored_dimensions: false,
            log_group_name: None,
        };
        assert(b@.namespaces =~= seq![namespace@]);
        b
    }

    /// Starts to set up a formatter that checks everything in builds with debug assertions, and
    /// nothing that it need not check in others.
    pub fn builder_for_build(
        namespace: String,
        default_dimensions: Vec<Vec<String>>,
        debug_assertions: bool,
    ) -> (b: EmfBuilder)
        requires
            default_dimensions@.len() > 0,
        ensures
            b@ == skipping(
                default_settings(namespace@, text_lists(default_dimensions@)),
                !debug_assertions,
            ),
    {
        Self::builder(namespace, default_dimensions).skip_all_validations(!debug_assertions)
    }

    /// A formatter that checks everything.
    pub fn all_validations(namespace: String, default_dimensions: Vec<Vec<String>>) -> (emf: Emf)
        requires
            default_dimensions@.len() > 0,
        ensures
            emf.wf(),
            emf@ == default_settings(namespace@, text_lists(default_dimensions@)),
    {
        Self::builder(namespace, default_dimensions).build()
    }

    /// A formatter that checks nothing that it need not check.
    pub fn no_validations(namespace: String, default_dimensions: Vec<Vec<String>>) -> (emf: Emf)
        requires
            default_dimensions@.len() > 0,
        ensures
            emf.wf(),
            emf@ == skipping(
                default_settings(namespace@, text_lists(default_dimensions@)),
                true,
            ),
    {
        Self::builder(namespace, default_dimensions).skip_all_validations(true).build()
    }
}

impl EmfBuilder {
    /// The formatter with these settings. There has to be a namespace.
    pub fn build(self) -> (emf: Emf)
        requires
            self@.namespaces.len() > 0,
        ensures
            emf.wf(),
            emf@ == self@,
    {
        let mut base = Lines::new();
        let mut each_dimensions: Vec<JsonEncodedArray> = Vec::new();
        let ghost sets = self@.dimensions;
        assert(array_texts(each_dimensions@) =~= sets.take(0));
        for i in 0..self.default_dimensions.len()
            invariant
                base.wf(),
                all_unfound(base@),
                sets == text_lists(self.default_dimensions@),
                base@ == expecting_sets(no_lines(), sets.take(i as int)),
                arrays_wf(each_dimensions@),
                array_texts(each_dimensions@) == sets.take(i as int),
        {
            let set = &self.default_dimensions[i];
            let ghost names = texts(set@);
            let ghost before = base@;
            for j in 0..set.len()
                invariant
                    base.wf(),
                    all_unfound(base@),
                    names == texts(set@),
                    base@ == expecting(before, names.take(j as int)),
            {
                proof {
                    assert(names.take(j + 1).drop_last() =~= names.take(j as int));
                    assert(names.take(j + 1).last() == set@[j as int]@);
                }
                base.expect(set[j].as_str());
            }
            let ghost earlier = each_dimensions@;
            each_dimensions.push(JsonEncodedArray::encode(set));
            proof {
                assert(names.take(names.len() as int) =~= names);
                assert(sets.take(i + 1).drop_last() =~= sets.take(i as int));
                assert(sets.take(i + 1) =~= sets.take(i as int).push(names));
                assert(array_texts(each_dimensions@) =~= array_texts(earlier).push(names));
            }
        }
        assert(sets.take(sets.len() as int) =~= sets);
        let mut namespaces: Vec<JsonEncodedString> = Vec::new();
        for i in 0..self.namespaces.len()
            invariant
                namespaces@.len() == i,
                forall|k: int| 0 <= k < i ==> (#[trigger] namespaces@[k]).wf(),
                forall|k: int|
                    0 <= k < i ==> (#[trigger] namespaces@[k])@ == self.namespaces@[k]@,
        {
            namespaces.push(JsonEncodedString::encode(self.namespaces[i].as_str()));
        }
        let before_timestamp = match &self.log_group_name {
            Some(name) => {
                let mut text = "],\"LogGroupName\":".to_owned();
                text.append(serde_json_str(name.as_str()).as_str());
                text.append(",\"Timestamp\":");
                text
            },
            None => "],\"Timestamp\":".to_owned(),
        };
        let emf = Emf {
            namespaces,
            each_dimensions,
            directives: self.extra_directives,
            before_timestamp,
            log_group: Ghost(self@.log_group),
            validation: self.validation,
            allow_ignored_dimensions: self.allow_ignored_dimensions,
            base,
        };
        assert(emf@.namespaces =~= self@.namespaces);
        emf
    }

    /// Adds a directive to each line that has one for metrics without dimensions of
    /// their own.
    pub fn directive(self, directive: MetricDirective<'_>) -> (b: EmfBuilder)
        ensures
            b@ == (Settings {
                directives: self@.directives + ","@ + directive_json(directive),
                ..self@
            }),
    {
        let mut b = self;
        b.extra_directives.append(",");
        b.extra_directives.append(directive_json_text(&directive).as_str());
        b
    }

    /// Sets whether the dimensions of single metrics are ignored. They are an error
    /// otherwise, unless the entry may be split.
    pub fn allow_ignored_dimensions(self, allow: bool) -> (b: EmfBuilder)
        ensures
            b@ == (Settings { ignore_dimensions: allow, ..self@ }),
    {
        let mut b = self;
        b.allow_ignored_dimensions = allow;
        b
    }

    /// Sets whether dimensions may be missing from an entry.
    pub fn allow_dimensions_with_no_data(self, allow: bool) -> (b: EmfBuilder)
        ensures
            b@ == (Settings { skip_dimensions_exist: allow, ..self@ }),
    {
        let mut b = self;
        b.validation.skip_validate_dimensions_exist = allow;
        b
    }

    /// Leaves out all checks if `skip` is set; does nothing otherwise.
    pub fn skip_all_validations(self, skip: bool) -> (b: EmfBuilder)
        ensures
            b@ == skipping(self@, skip),
    {
        let mut b = self;
        b.validation.skip_validate_unique = b.validation.skip_validate_unique || skip;
        b.validation.skip_validate_dimensions_exist =
        b.validation.skip_validate_dimensions_exist || skip;
        b.validation.skip_validate_names = b.validation.skip_validate_names || skip;
        b
    }

    /// Adds a namespace that metrics are published to.
    pub fn add_namespace(self, namespace: String) -> (b: EmfBuilder)
        ensures
            b@ == (Settings { namespaces: self@.namespaces.push(namespace@), ..self@ }),
    {
        let mut b = self;
        b.namespaces.push(namespace);
        assert(b@.namespaces =~= self@.namespaces.push(namespace@));
        b
    }

    /// Sets the log group that the lines are meant for.
    pub fn log_group_name(self, log_group_name: String) -> (b: EmfBuilder)
        ensures
            b@ == (Settings { log_group: Some(log_group_name@), ..self@ }),
    {
        let mut b = self;
        b.log_group_name = Some(log_group_name);
        b
    }
}

} // verus!
