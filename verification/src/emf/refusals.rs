//! Which entries are refused.

use vstd::prelude::*;

use crate::emf::lines::{
    metric_note, metric_noted, no_lines, set_line, LineModel, LinesModel, MetricNote, Place,
};
use crate::emf::model::{
    expecting, expecting_sets, formatted, fresh, initial_lines, is_global, missing_dimensions,
    name_error, set_position, split_reason, with_dimension_notes, with_dimension_set_notes,
    with_error, with_item_written, with_items_written, with_metric_note, with_set, Settings,
    WriterModel,
};
use crate::entry::{ConfigModel, ItemModel};
use crate::order::sorted_pairs;
use crate::validate::field_error;
use crate::value::ValueModel;

verus! {

/// Whether a value is written as a string, a list or an object.
pub open spec fn is_property(value: ValueModel) -> bool {
    value is Text || value is List || value is Object
}

/// Whether there is an error already.
pub open spec fn failed(w: WriterModel) -> bool {
    w.errors.len() > 0
}

proof fn set_note_keeps(s: Settings, w: WriterModel, names: Seq<Seq<char>>, name: Seq<char>)
    ensures
        ({
            let after = with_dimension_notes(s, w, names);
            &&& failed(w) ==> failed(after)
            &&& w.lines.kinds.contains_key(name) ==> after.lines.kinds.contains_key(name)
                && after.lines.kinds[name] == w.lines.kinds[name]
            &&& after.allow_split == w.allow_split
            &&& after.allow_unroutable == w.allow_unroutable
            &&& after.timestamp == w.timestamp
            &&& all_listed(w.lines) ==> all_listed(after.lines)
        }),
    decreases names.len(),
{
    if names.len() > 0 {
        set_note_keeps(s, w, names.drop_last(), name);
        let before = with_dimension_notes(s, w, names.drop_last());
        listed_after_set(before.lines, names.last(), LineModel::UnfoundDimension);
    }
}

pub(crate) proof fn notes_keep(s: Settings, w: WriterModel, sets: Seq<Seq<Seq<char>>>, name: Seq<char>)
    ensures
        ({
            let after = with_dimension_set_notes(s, w, sets);
            &&& failed(w) ==> failed(after)
            &&& w.lines.kinds.contains_key(name) ==> after.lines.kinds.contains_key(name)
                && after.lines.kinds[name] == w.lines.kinds[name]
            &&& after.allow_split == w.allow_split
            &&& after.allow_unroutable == w.allow_unroutable
            &&& after.timestamp == w.timestamp
            &&& all_listed(w.lines) ==> all_listed(after.lines)
        }),
    decreases sets.len(),
{
    if sets.len() > 0 {
        notes_keep(s, w, sets.drop_last(), name);
        set_note_keeps(s, with_dimension_set_notes(s, w, sets.drop_last()), sets.last(), name);
    }
}

/// Whether each name that stands for something is in the list of names.
pub open spec fn all_listed(lines: LinesModel) -> bool {
    forall|name: Seq<char>| #[trigger]
        lines.kinds.contains_key(name) ==> lines.order.contains(name)
}

proof fn listed_after_set(lines: LinesModel, name: Seq<char>, kind: LineModel)
    ensures
        all_listed(lines) ==> all_listed(set_line(lines, name, kind)),
{
    let after = set_line(lines, name, kind);
    if all_listed(lines) {
        assert forall|n: Seq<char>| #[trigger] after.kinds.contains_key(n) implies after.order.contains(
            n,
        ) by {
            if lines.kinds.contains_key(n) {
                let i = lines.order.index_of(n);
                assert(lines.order[i] == n);
                assert(after.order[i] == n);
            } else {
                assert(after.order[lines.order.len() as int] == n);
            }
        }
    }
}

/// Whether `name` keeps what it stands for when an item is written: strings and metrics do, and so
/// do dimensions that the item does not fill in.
pub open spec fn is_kept(w: WriterModel, name: Seq<char>, item: ItemModel) -> bool {
    w.lines.kinds.contains_key(name) && (w.lines.kinds[name] is Text || (w.lines.kinds[name]
        is UnfoundDimension && !(item matches ItemModel::Value(n, v) && n == name && is_property(
        v,
    ))))
}

/// What an item leaves as it was.
pub(crate) proof fn item_keeps(
    s: Settings,
    w: WriterModel,
    item: ItemModel,
    multiplicity: Option<u64>,
    name: Seq<char>,
)
    ensures
        ({
            let after = with_item_written(s, w, item, multiplicity);
            &&& failed(w) ==> failed(after)
            &&& is_kept(w, name, item) ==> after.lines.kinds.contains_key(name)
                && after.lines.kinds[name] == w.lines.kinds[name]
            &&& all_listed(w.lines) ==> all_listed(after.lines)
            &&& after.allow_unroutable == (w.allow_unroutable || item == ItemModel::Config(
                ConfigModel::AllowUnroutableEntries,
            ))
            &&& after.allow_split == (w.allow_split || item == ItemModel::Config(
                ConfigModel::AllowSplitEntries,
            ))
            &&& w.timestamp is Some ==> after.timestamp is Some
        }),
{
    match item {
        ItemModel::Timestamp(_) => {},
        ItemModel::Config(config) => {
            if let ConfigModel::EntryDimensions(sets) = config {
                notes_keep(s, w, sets, name);
            }
        },
        ItemModel::Value(n, value) => {
            listed_after_set(w.lines, n, LineModel::Text);
            if let ValueModel::Metric(m) = value {
                if name_error(s, n) is None {
                    let w1 = if is_global(s, m) || w.allow_split {
                        w
                    } else {
                        with_error(w, field_error(n, split_reason()))
                    };
                    let key = sorted_pairs(m.dimensions);
                    let w2 = if is_global(s, m) {
                        w1
                    } else {
                        with_set(s, w1, key)
                    };
                    let place = if is_global(s, m) {
                        Place::Global
                    } else {
                        Place::Within(set_position(w2, key) as usize)
                    };
                    let noted = metric_noted(w2.lines, n, place);
                    if metric_note(w2.lines, n, place) == MetricNote::Taken {
                        match w2.lines.kinds[n] {
                            LineModel::Metric { global, sets } => {
                                listed_after_set(
                                    w2.lines,
                                    n,
                                    crate::emf::lines::standing_in(global, sets, place),
                                );
                            },
                            _ => {},
                        }
                        listed_after_set(
                            w2.lines,
                            n,
                            crate::emf::lines::standing_in(false, Set::empty(), place),
                        );
                    }
                    let w3 = with_metric_note(s, w2, n, place);
                    assert(failed(w2) ==> failed(w3));
                    assert(all_listed(w2.lines) ==> all_listed(w3.lines));
                    let after = with_item_written(s, w, item, multiplicity);
                    assert(after.lines == w3.lines);
                    assert(after.errors == w3.errors);
                }
            }
        },
    }
}

/// Writing some items and then others is writing all of them.
proof fn items_split(
    s: Settings,
    w: WriterModel,
    items: Seq<ItemModel>,
    multiplicity: Option<u64>,
    k: int,
)
    requires
        0 <= k <= items.len(),
    ensures
        with_items_written(s, w, items, multiplicity) == with_items_written(
            s,
            with_items_written(s, w, items.take(k), multiplicity),
            items.skip(k),
            multiplicity,
        ),
    decreases items.len(),
{
    if k == items.len() {
        assert(items.take(k) =~= items);
        assert(items.skip(k) =~= Seq::empty());
    } else {
        items_split(s, w, items.drop_last(), multiplicity, k);
        assert(items.drop_last().take(k) =~= items.take(k));
        assert(items.skip(k).drop_last() =~= items.drop_last().skip(k));
        assert(items.skip(k).last() == items.last());
    }
}

/// What several items leave as it was.
proof fn items_keep(
    s: Settings,
    w: WriterModel,
    items: Seq<ItemModel>,
    multiplicity: Option<u64>,
    name: Seq<char>,
)
    ensures
        ({
            let after = with_items_written(s, w, items, multiplicity);
            &&& failed(w) ==> failed(after)
            &&& all_listed(w.lines) ==> all_listed(after.lines)
            &&& w.timestamp is Some ==> after.timestamp is Some
            &&& (w.lines.kinds.contains_key(name) && w.lines.kinds[name] is Text)
                ==> after.lines.kinds.contains_key(name) && after.lines.kinds[name] is Text
            &&& (w.lines.kinds.contains_key(name) && w.lines.kinds[name] is UnfoundDimension && (
            forall|i: int|
                0 <= i < items.len() ==> !(#[trigger] items[i] matches ItemModel::Value(n, v) && n
                    == name && is_property(v)))) ==> after.lines.kinds.contains_key(name)
                && after.lines.kinds[name] is UnfoundDimension
            &&& (w.allow_unroutable || exists|i: int|
                0 <= i < items.len() && #[trigger] items[i] == ItemModel::Config(
                    ConfigModel::AllowUnroutableEntries,
                )) <== after.allow_unroutable
            &&& (w.allow_split || exists|i: int|
                0 <= i < items.len() && #[trigger] items[i] == ItemModel::Config(
                    ConfigModel::AllowSplitEntries,
                )) <== after.allow_split
        }),
    decreases items.len(),
{
    if items.len() > 0 {
        let init = items.drop_last();
        let before = with_items_written(s, w, init, multiplicity);
        items_keep(s, w, init, multiplicity, name);
        item_keeps(s, before, items.last(), multiplicity, name);
        let after = with_items_written(s, w, items, multiplicity);
        assert(items[items.len() - 1] == items.last());
        if forall|i: int|
            0 <= i < items.len() ==> !(#[trigger] items[i] matches ItemModel::Value(n, v) && n
                == name && is_property(v)) {
            assert forall|i: int| 0 <= i < init.len() implies !(
            #[trigger] init[i] matches ItemModel::Value(n, v) && n == name && is_property(v)) by {
                assert(init[i] == items[i]);
            }
        }
        if after.allow_unroutable && !w.allow_unroutable {
            if before.allow_unroutable {
                let i = choose|i: int|
                    0 <= i < init.len() && #[trigger] init[i] == ItemModel::Config(
                        ConfigModel::AllowUnroutableEntries,
                    );
                assert(items[i] == init[i]);
            }
        }
        if after.allow_split && !w.allow_split {
            if before.allow_split {
                let i = choose|i: int|
                    0 <= i < init.len() && #[trigger] init[i] == ItemModel::Config(
                        ConfigModel::AllowSplitEntries,
                    );
                assert(items[i] == init[i]);
            }
        }
    }
}

/// An entry with an error somewhere is refused.
proof fn failing_item(
    s: Settings,
    items: Seq<ItemModel>,
    multiplicity: Option<u64>,
    now: i128,
    k: int,
)
    requires
        0 <= k < items.len(),
        failed(
            with_item_written(
                s,
                with_items_written(s, fresh(initial_lines(s)), items.take(k), multiplicity),
                items[k],
                multiplicity,
            ),
        ),
    ensures
        formatted(s, items, multiplicity, now) is Err,
{
    let start = fresh(initial_lines(s));
    items_split(s, start, items, multiplicity, k + 1);
    assert(items.take(k + 1).drop_last() =~= items.take(k));
    let middle = with_items_written(s, start, items.take(k + 1), multiplicity);
    items_keep(s, middle, items.skip(k + 1), multiplicity, Seq::empty());
}

/// An entry with a name that is not allowed is refused.
pub proof fn bad_names_are_refused(
    s: Settings,
    items: Seq<ItemModel>,
    multiplicity: Option<u64>,
    now: i128,
    k: int,
)
    requires
        0 <= k < items.len(),
        items[k] matches ItemModel::Value(name, _) && name_error(s, name) is Some,
    ensures
        formatted(s, items, multiplicity, now) is Err,
{
    failing_item(s, items, multiplicity, now, k);
}

/// An entry with an error in place of a value is refused.
pub proof fn errors_are_refused(
    s: Settings,
    items: Seq<ItemModel>,
    multiplicity: Option<u64>,
    now: i128,
    k: int,
)
    requires
        0 <= k < items.len(),
        items[k] matches ItemModel::Value(_, ValueModel::Error(_)),
    ensures
        formatted(s, items, multiplicity, now) is Err,
{
    failing_item(s, items, multiplicity, now, k);
}

/// An entry with two timestamps is refused.
pub proof fn second_timestamps_are_refused(
    s: Settings,
    items: Seq<ItemModel>,
    multiplicity: Option<u64>,
    now: i128,
    j: int,
    k: int,
)
    requires
        0 <= j < k < items.len(),
        items[j] is Timestamp,
        items[k] is Timestamp,
    ensures
        formatted(s, items, multiplicity, now) is Err,
{
    let start = fresh(initial_lines(s));
    let head = items.take(k);
    items_split(s, start, head, multiplicity, j + 1);
    assert(head.take(j + 1).drop_last() =~= items.take(j));
    assert(head.take(j + 1).last() == items[j]);
    let middle = with_items_written(s, start, head.take(j + 1), multiplicity);
    assert(middle.timestamp is Some);
    items_keep(s, middle, head.skip(j + 1), multiplicity, Seq::empty());
    failing_item(s, items, multiplicity, now, k);
}

/// Where names are checked to be unique, an entry with two strings, lists or objects of one name is
/// refused.
pub proof fn second_properties_are_refused(
    s: Settings,
    items: Seq<ItemModel>,
    multiplicity: Option<u64>,
    now: i128,
    name: Seq<char>,
    j: int,
    k: int,
)
    requires
        0 <= j < k < items.len(),
        !s.skip_unique,
        items[j] matches ItemModel::Value(n, v) && n == name && is_property(v),
        items[k] matches ItemModel::Value(n, v) && n == name && is_property(v),
    ensures
        formatted(s, items, multiplicity, now) is Err,
{
    if name_error(s, name) is Some {
        failing_item(s, items, multiplicity, now, k);
    } else {
        property_then(s, items, multiplicity, now, name, j, k);
        failing_item(s, items, multiplicity, now, k);
    }
}

/// After a string, list or object its name stands for it.
proof fn property_then(
    s: Settings,
    items: Seq<ItemModel>,
    multiplicity: Option<u64>,
    now: i128,
    name: Seq<char>,
    j: int,
    k: int,
)
    requires
        0 <= j < k < items.len(),
        !s.skip_unique,
        name_error(s, name) is None,
        items[j] matches ItemModel::Value(n, v) && n == name && is_property(v),
    ensures
        ({
            let before = with_items_written(
                s,
                fresh(initial_lines(s)),
                items.take(k),
                multiplicity,
            );
            failed(before) || (before.lines.kinds.contains_key(name)
                && before.lines.kinds[name] is Text)
        }),
{
    let start = fresh(initial_lines(s));
    let head = items.take(k);
    items_split(s, start, head, multiplicity, j + 1);
    assert(head.take(j + 1).drop_last() =~= items.take(j));
    assert(head.take(j + 1).last() == items[j]);
    let middle = with_items_written(s, start, head.take(j + 1), multiplicity);
    assert(failed(middle) || (middle.lines.kinds.contains_key(name) && middle.lines.kinds[name]
        is Text));
    items_keep(s, middle, head.skip(j + 1), multiplicity, name);
}

/// Where names are checked to be unique, an entry with a metric under the name of an earlier string,
/// list or object is refused, unless it may lack dimensions.
pub proof fn metrics_under_names_of_properties_are_refused(
    s: Settings,
    items: Seq<ItemModel>,
    multiplicity: Option<u64>,
    now: i128,
    name: Seq<char>,
    j: int,
    k: int,
)
    requires
        0 <= j < k < items.len(),
        !s.skip_unique,
        forall|i: int|
            0 <= i < items.len() ==> #[trigger] items[i] != ItemModel::Config(
                ConfigModel::AllowUnroutableEntries,
            ),
        items[j] matches ItemModel::Value(n, v) && n == name && is_property(v),
        items[k] matches ItemModel::Value(n, ValueModel::Metric(_)) && n == name,
    ensures
        formatted(s, items, multiplicity, now) is Err,
{
    if name_error(s, name) is Some {
        failing_item(s, items, multiplicity, now, k);
    } else {
        property_then(s, items, multiplicity, now, name, j, k);
        let start = fresh(initial_lines(s));
        let head = items.take(k);
        items_keep(s, start, head, multiplicity, name);
        let before = with_items_written(s, start, head, multiplicity);
        assert(!before.allow_unroutable) by {
            if before.allow_unroutable {
                let i = choose|i: int|
                    0 <= i < head.len() && #[trigger] head[i] == ItemModel::Config(
                        ConfigModel::AllowUnroutableEntries,
                    );
                assert(items[i] == head[i]);
            }
        }
        if let ItemModel::Value(_, ValueModel::Metric(m)) = items[k] {
            let after = with_item_written(s, before, items[k], multiplicity);
            item_keeps(s, before, items[k], multiplicity, name);
            if is_global(s, m) {
                assert(failed(with_metric_note(s, before, name, Place::Global)));
            } else {
                let w1 = if before.allow_split {
                    before
                } else {
                    with_error(before, field_error(name, split_reason()))
                };
                let key = sorted_pairs(m.dimensions);
                let w2 = with_set(s, w1, key);
                let place = Place::Within(set_position(w2, key) as usize);
                let w3 = with_metric_note(s, w2, name, place);
                assert(failed(w3));
                assert(after.errors == w3.errors);
            }
            assert(failed(after));
        }
        failing_item(s, items, multiplicity, now, k);
    }
}

/// An entry with a metric that has dimensions of its own is refused, unless they are ignored or the
/// entry was allowed to be split before.
pub proof fn dimensions_without_split_are_refused(
    s: Settings,
    items: Seq<ItemModel>,
    multiplicity: Option<u64>,
    now: i128,
    k: int,
)
    requires
        0 <= k < items.len(),
        !s.ignore_dimensions,
        items[k] matches ItemModel::Value(_, ValueModel::Metric(m)) && m.dimensions.len() > 0,
        forall|i: int|
            0 <= i < k ==> #[trigger] items[i] != ItemModel::Config(ConfigModel::AllowSplitEntries),
    ensures
        formatted(s, items, multiplicity, now) is Err,
{
    let start = fresh(initial_lines(s));
    let head = items.take(k);
    items_keep(s, start, head, multiplicity, Seq::empty());
    let before = with_items_written(s, start, head, multiplicity);
    assert(!before.allow_split) by {
        if before.allow_split {
            let i = choose|i: int|
                0 <= i < head.len() && #[trigger] head[i] == ItemModel::Config(
                    ConfigModel::AllowSplitEntries,
                );
            assert(items[i] == head[i]);
        }
    }
    if let ItemModel::Value(name, ValueModel::Metric(m)) = items[k] {
        if name_error(s, name) is None {
            let w1 = with_error(before, field_error(name, split_reason()));
            let key = sorted_pairs(m.dimensions);
            let w2 = with_set(s, w1, key);
            let place = Place::Within(set_position(w2, key) as usize);
            let w3 = with_metric_note(s, w2, name, place);
            let after = with_item_written(s, before, items[k], multiplicity);
            assert(failed(w2));
            assert(failed(w3));
            assert(after.errors == w3.errors);
        }
    }
    failing_item(s, items, multiplicity, now, k);
}

proof fn expected_in(lines: LinesModel, names: Seq<Seq<char>>, name: Seq<char>)
    ensures
        ({
            let after = expecting(lines, names);
            &&& all_listed(lines) ==> all_listed(after)
            &&& lines.kinds.contains_key(name) ==> after.kinds.contains_key(name)
                && after.kinds[name] == lines.kinds[name]
            &&& names.contains(name) && !lines.kinds.contains_key(name)
                ==> after.kinds.contains_key(name) && after.kinds[name] is UnfoundDimension
        }),
    decreases names.len(),
{
    if names.len() > 0 {
        let init = names.drop_last();
        expected_in(lines, init, name);
        listed_after_set(expecting(lines, init), names.last(), LineModel::UnfoundDimension);
        if names.contains(name) && names.last() != name {
            let i = names.index_of(name);
            assert(init[i] == name);
        }
        if !init.contains(name) && !lines.kinds.contains_key(name) {
            not_expected(lines, init, name);
        }
    }
}

proof fn not_expected(lines: LinesModel, names: Seq<Seq<char>>, name: Seq<char>)
    requires
        !names.contains(name),
        !lines.kinds.contains_key(name),
    ensures
        !expecting(lines, names).kinds.contains_key(name),
    decreases names.len(),
{
    if names.len() > 0 {
        let init = names.drop_last();
        assert(names[names.len() - 1] != name);
        if init.contains(name) {
            let i = init.index_of(name);
            assert(names[i] == name);
        }
        not_expected(lines, init, name);
    }
}

proof fn expected_in_sets(lines: LinesModel, sets: Seq<Seq<Seq<char>>>, d: int, name: Seq<char>)
    requires
        lines == no_lines(),
        0 <= d < sets.len(),
        sets[d].contains(name),
    ensures
        all_listed(expecting_sets(lines, sets)),
        expecting_sets(lines, sets).kinds.contains_key(name),
        expecting_sets(lines, sets).kinds[name] is UnfoundDimension,
    decreases sets.len(),
{
    let init = sets.drop_last();
    let before = expecting_sets(lines, init);
    only_unfound(lines, init, name);
    if d < init.len() {
        expected_in_sets(lines, init, d, name);
    }
    expected_in(before, sets.last(), name);
}

proof fn only_unfound(lines: LinesModel, sets: Seq<Seq<Seq<char>>>, name: Seq<char>)
    requires
        lines == no_lines(),
    ensures
        all_listed(expecting_sets(lines, sets)),
        expecting_sets(lines, sets).kinds.contains_key(name) ==> expecting_sets(
            lines,
            sets,
        ).kinds[name] is UnfoundDimension,
    decreases sets.len(),
{
    if sets.len() > 0 {
        let init = sets.drop_last();
        let before = expecting_sets(lines, init);
        only_unfound(lines, init, name);
        expected_in(before, sets.last(), name);
        if !before.kinds.contains_key(name) && !sets.last().contains(name) {
            not_expected(before, sets.last(), name);
        }
    }
}

proof fn missing_is_found(lines: LinesModel, names: Seq<Seq<char>>, name: Seq<char>)
    requires
        names.contains(name),
        lines.kinds[name] is UnfoundDimension,
    ensures
        missing_dimensions(lines, names).len() > 0,
    decreases names.len(),
{
    let i = names.index_of(name);
    assert(names[i] == name);
    if names.last() != name {
        assert(names.drop_last()[i] == name);
        assert(names.drop_last().contains(name));
        missing_is_found(lines, names.drop_last(), name);
    }
}

/// Where dimensions are checked to exist, an entry without a string, list or object for one of the
/// dimensions that metrics are published under is refused, unless it may lack dimensions.
pub proof fn missing_dimensions_are_refused(
    s: Settings,
    items: Seq<ItemModel>,
    multiplicity: Option<u64>,
    now: i128,
    d: int,
    name: Seq<char>,
)
    requires
        !s.skip_dimensions_exist,
        0 <= d < s.dimensions.len(),
        s.dimensions[d].contains(name),
        forall|i: int|
            0 <= i < items.len() ==> !(#[trigger] items[i] matches ItemModel::Value(n, v) && n
                == name && is_property(v)),
        forall|i: int|
            0 <= i < items.len() ==> #[trigger] items[i] != ItemModel::Config(
                ConfigModel::AllowUnroutableEntries,
            ),
    ensures
        formatted(s, items, multiplicity, now) is Err,
{
    let start = fresh(initial_lines(s));
    expected_in_sets(no_lines(), s.dimensions, d, name);
    items_keep(s, start, items, multiplicity, name);
    let w = with_items_written(s, start, items, multiplicity);
    assert(w.lines.order.contains(name));
    missing_is_found(w.lines, w.lines.order, name);
}

} // verus!
