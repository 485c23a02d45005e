//! Which entries are accepted.

use vstd::prelude::*;

use crate::emf::lines::{no_lines, LineModel, LinesModel};
use crate::emf::model::{
    expecting, expecting_sets, formatted, fresh, initial_lines, is_global, missing_dimensions,
    name_error, set_keys, set_position, split_reason, with_dimension_notes,
    with_dimension_set_notes, with_error, with_item_written, with_items_written, with_set, Settings,
    WriterModel,
};
use crate::emf::refusals::is_property;
use crate::entry::{ConfigModel, ItemModel};
use crate::order::sorted_pairs;
use crate::validate::field_error;
use crate::value::ValueModel;

verus! {

/// Whether a name is one of the dimensions that metrics are published under.
pub open spec fn is_dimension(s: Settings, name: Seq<char>) -> bool {
    exists|d: int| 0 <= d < s.dimensions.len() && (#[trigger] s.dimensions[d]).contains(name)
}

/// Whether there is a string, a list or an object under a name.
pub open spec fn has_property(items: Seq<ItemModel>, name: Seq<char>) -> bool {
    exists|i: int|
        0 <= i < items.len() && (#[trigger] items[i] matches ItemModel::Value(n, v) && n == name
            && is_property(v))
}

/// Whether there is a metric under a name.
pub open spec fn has_metric(items: Seq<ItemModel>, name: Seq<char>) -> bool {
    exists|i: int|
        0 <= i < items.len() && (#[trigger] items[i] matches ItemModel::Value(
            n,
            ValueModel::Metric(_),
        ) && n == name)
}

/// Whether an item is in itself in order: a value under a good name and not an error, a metric
/// without dimensions of its own and not under the name of a dimension, a setting other than
/// dimensions of the entry.
pub open spec fn is_plain(s: Settings, item: ItemModel) -> bool {
    match item {
        ItemModel::Timestamp(_) => true,
        ItemModel::Value(name, value) => {
            &&& name_error(s, name) is None
            &&& !(value is Error)
            &&& value matches ValueModel::Metric(m) ==> is_global(s, m) && !is_dimension(s, name)
        },
        ItemModel::Config(config) => !(config is EntryDimensions),
    }
}

/// Whether two items get in each other's way: two timestamps, or two values under one name where
/// names are checked to be unique.
pub open spec fn clash(s: Settings, a: ItemModel, b: ItemModel) -> bool {
    match (a, b) {
        (ItemModel::Timestamp(_), ItemModel::Timestamp(_)) => true,
        (ItemModel::Value(m, v), ItemModel::Value(n, w)) => !s.skip_unique && m == n && !(v
            is Nothing) && !(w is Nothing),
        _ => false,
    }
}

/// What is known of an entry in order, after some of its items.
spec fn in_order(s: Settings, items: Seq<ItemModel>, w: WriterModel) -> bool {
    &&& w.errors.len() == 0
    &&& w.timestamp is Some ==> exists|i: int| 0 <= i < items.len() && (#[trigger] items[i]) is Timestamp
    &&& forall|name: Seq<char>| #[trigger]
        w.lines.kinds.contains_key(name) ==> match w.lines.kinds[name] {
            LineModel::Text => has_property(items, name),
            LineModel::Metric { .. } => has_metric(items, name),
            LineModel::UnfoundDimension => is_dimension(s, name) && (s.skip_dimensions_exist
                || !has_property(items, name)),
        }
    &&& forall|i: int| 0 <= i < w.lines.order.len() ==> w.lines.kinds.contains_key(
        #[trigger] w.lines.order[i],
    )
}

proof fn has_more(items: Seq<ItemModel>, item: ItemModel, name: Seq<char>)
    ensures
        has_property(items, name) ==> has_property(items.push(item), name),
        has_metric(items, name) ==> has_metric(items.push(item), name),
        has_property(items.push(item), name) ==> has_property(items, name) || (
        item matches ItemModel::Value(n, v) && n == name && is_property(v)),
        has_metric(items.push(item), name) ==> has_metric(items, name) || (
        item matches ItemModel::Value(n, ValueModel::Metric(_)) && n == name),
        (item matches ItemModel::Value(n, v) && n == name && is_property(v)) ==> has_property(
            items.push(item),
            name,
        ),
        (item matches ItemModel::Value(n, ValueModel::Metric(_)) && n == name) ==> has_metric(
            items.push(item),
            name,
        ),
{
    let more = items.push(item);
    if has_property(items, name) {
        let i = choose|i: int|
            0 <= i < items.len() && (#[trigger] items[i] matches ItemModel::Value(n, v) && n == name
                && is_property(v));
        assert(more[i] == items[i]);
    }
    if has_metric(items, name) {
        let i = choose|i: int|
            0 <= i < items.len() && (#[trigger] items[i] matches ItemModel::Value(
                n,
                ValueModel::Metric(_),
            ) && n == name);
        assert(more[i] == items[i]);
    }
    if has_property(more, name) {
        let i = choose|i: int|
            0 <= i < more.len() && (#[trigger] more[i] matches ItemModel::Value(n, v) && n == name
                && is_property(v));
        if i < items.len() {
            assert(items[i] == more[i]);
        }
    }
    if has_metric(more, name) {
        let i = choose|i: int|
            0 <= i < more.len() && (#[trigger] more[i] matches ItemModel::Value(
                n,
                ValueModel::Metric(_),
            ) && n == name);
        if i < items.len() {
            assert(items[i] == more[i]);
        }
    }
    assert(more[items.len() as int] == item);
}

proof fn one_more_item(
    s: Settings,
    items: Seq<ItemModel>,
    w: WriterModel,
    item: ItemModel,
    multiplicity: Option<u64>,
)
    requires
        in_order(s, items, w),
        is_plain(s, item),
        forall|i: int| 0 <= i < items.len() ==> !clash(s, #[trigger] items[i], item),
    ensures
        in_order(s, items.push(item), with_item_written(s, w, item, multiplicity)),
{
    let more = items.push(item);
    let after = with_item_written(s, w, item, multiplicity);
    assert forall|i: int| 0 <= i < items.len() implies more[i] == #[trigger] items[i] by {}
    match item {
        ItemModel::Timestamp(_) => {
            if w.timestamp is Some {
                let i = choose|i: int| 0 <= i < items.len() && (#[trigger] items[i]) is Timestamp;
                assert(clash(s, items[i], item));
            }
            assert(more[items.len() as int] is Timestamp);
        },
        ItemModel::Config(_) => {
            if w.timestamp is Some {
                let i = choose|i: int| 0 <= i < items.len() && (#[trigger] items[i]) is Timestamp;
                assert(more[i] is Timestamp);
            }
        },
        ItemModel::Value(name, value) => {
            if w.timestamp is Some {
                let i = choose|i: int| 0 <= i < items.len() && (#[trigger] items[i]) is Timestamp;
                assert(more[i] is Timestamp);
            }
            if has_property(items, name) {
                let i = choose|i: int|
                    0 <= i < items.len() && (#[trigger] items[i] matches ItemModel::Value(n, v) && n
                        == name && is_property(v));
                assert(!clash(s, items[i], item));
            }
            if has_metric(items, name) {
                let i = choose|i: int|
                    0 <= i < items.len() && (#[trigger] items[i] matches ItemModel::Value(
                        n,
                        ValueModel::Metric(_),
                    ) && n == name);
                assert(!clash(s, items[i], item));
            }
        },
    }
    assert forall|n: Seq<char>| #[trigger]
        after.lines.kinds.contains_key(n) implies match after.lines.kinds[n] {
        LineModel::Text => has_property(more, n),
        LineModel::Metric { .. } => has_metric(more, n),
        LineModel::UnfoundDimension => is_dimension(s, n) && (s.skip_dimensions_exist
            || !has_property(more, n)),
    } by {
        has_more(items, item, n);
        if let ItemModel::Value(name, value) = item {
            has_more(items, item, name);
            if n != name {
                assert(w.lines.kinds.contains_key(n));
                assert(after.lines.kinds[n] == w.lines.kinds[n]);
            }
        }
    }
    assert forall|i: int| 0 <= i < after.lines.order.len() implies after.lines.kinds.contains_key(
        #[trigger] after.lines.order[i],
    ) by {
        if i < w.lines.order.len() {
            assert(after.lines.order[i] == w.lines.order[i]);
        }
    }
    if let ItemModel::Value(name, value) = item {
        if w.lines.kinds.contains_key(name) {
            has_more(items, item, name);
        }
    }
    assert(after.errors.len() == 0);
}

proof fn all_items(s: Settings, items: Seq<ItemModel>, n: nat, multiplicity: Option<u64>)
    requires
        n <= items.len(),
        forall|i: int| 0 <= i < items.len() ==> is_plain(s, #[trigger] items[i]),
        forall|i: int, j: int|
            0 <= i < j < items.len() ==> !clash(s, #[trigger] items[i], #[trigger] items[j]),
    ensures
        in_order(
            s,
            items.take(n as int),
            with_items_written(s, fresh(initial_lines(s)), items.take(n as int), multiplicity),
        ),
    decreases n,
{
    if n == 0 {
        if !s.skip_dimensions_exist {
            only_dimensions(s, s.dimensions.len());
            assert(s.dimensions.take(s.dimensions.len() as int) =~= s.dimensions);
        }
        let none = items.take(0);
        assert forall|name: Seq<char>| !has_property(none, name) by {}
    } else {
        all_items(s, items, (n - 1) as nat, multiplicity);
        let head = items.take(n - 1);
        let item = items[n - 1];
        assert(items.take(n as int) =~= head.push(item));
        assert(items.take(n as int).drop_last() =~= head);
        assert forall|i: int| 0 <= i < head.len() implies !clash(s, #[trigger] head[i], item) by {
            assert(head[i] == items[i]);
        }
        one_more_item(
            s,
            head,
            with_items_written(s, fresh(initial_lines(s)), head, multiplicity),
            item,
            multiplicity,
        );
    }
}

proof fn only_names(s: Settings, lines: LinesModel, d: int, n: nat)
    requires
        0 <= d < s.dimensions.len(),
        n <= s.dimensions[d].len(),
        forall|name: Seq<char>| #[trigger]
            lines.kinds.contains_key(name) ==> lines.kinds[name] is UnfoundDimension
                && is_dimension(s, name),
        forall|i: int|
            0 <= i < lines.order.len() ==> lines.kinds.contains_key(#[trigger] lines.order[i]),
    ensures
        ({
            let after = expecting(lines, s.dimensions[d].take(n as int));
            &&& forall|name: Seq<char>| #[trigger]
                after.kinds.contains_key(name) ==> after.kinds[name] is UnfoundDimension
                    && is_dimension(s, name)
            &&& forall|i: int|
                0 <= i < after.order.len() ==> after.kinds.contains_key(#[trigger] after.order[i])
        }),
    decreases n,
{
    if n > 0 {
        only_names(s, lines, d, (n - 1) as nat);
        let names = s.dimensions[d].take(n as int);
        assert(names.drop_last() =~= s.dimensions[d].take(n - 1));
        let name = s.dimensions[d][n - 1];
        assert(s.dimensions[d].contains(name));
        assert(is_dimension(s, name));
        let before = expecting(lines, s.dimensions[d].take(n - 1));
        let after = expecting(lines, names);
        assert forall|i: int| 0 <= i < after.order.len() implies after.kinds.contains_key(
            #[trigger] after.order[i],
        ) by {
            if i < before.order.len() {
                assert(after.order[i] == before.order[i]);
            }
        }
    }
}

proof fn only_dimensions(s: Settings, n: nat)
    requires
        n <= s.dimensions.len(),
    ensures
        ({
            let lines = expecting_sets(no_lines(), s.dimensions.take(n as int));
            &&& forall|name: Seq<char>| #[trigger]
                lines.kinds.contains_key(name) ==> lines.kinds[name] is UnfoundDimension
                    && is_dimension(s, name)
            &&& forall|i: int|
                0 <= i < lines.order.len() ==> lines.kinds.contains_key(#[trigger] lines.order[i])
        }),
    decreases n,
{
    if n > 0 {
        only_dimensions(s, (n - 1) as nat);
        let sets = s.dimensions.take(n as int);
        assert(sets.drop_last() =~= s.dimensions.take(n - 1));
        let before = expecting_sets(no_lines(), sets.drop_last());
        let names = s.dimensions[n - 1];
        only_names(s, before, n - 1, names.len());
        assert(names.take(names.len() as int) =~= names);
    }
}

proof fn nothing_missing(lines: LinesModel, names: Seq<Seq<char>>)
    requires
        forall|i: int|
            0 <= i < names.len() ==> !(lines.kinds[#[trigger] names[i]] is UnfoundDimension),
    ensures
        missing_dimensions(lines, names).len() == 0,
    decreases names.len(),
{
    if names.len() > 0 {
        let init = names.drop_last();
        assert forall|i: int| 0 <= i < init.len() implies !(lines.kinds[#[trigger] init[i]]
            is UnfoundDimension) by {
            assert(init[i] == names[i]);
        }
        nothing_missing(lines, init);
        assert(!(lines.kinds[names[names.len() - 1]] is UnfoundDimension));
    }
}

/// An entry is accepted if its items are in order, do not get in each other's way, and fill in the
/// dimensions that metrics are published under, as far as that is checked.
pub proof fn entries_in_order_are_accepted(
    s: Settings,
    items: Seq<ItemModel>,
    multiplicity: Option<u64>,
    now: i128,
)
    requires
        forall|i: int| 0 <= i < items.len() ==> is_plain(s, #[trigger] items[i]),
        forall|i: int, j: int|
            0 <= i < j < items.len() ==> !clash(s, #[trigger] items[i], #[trigger] items[j]),
        !s.skip_dimensions_exist ==> forall|name: Seq<char>| #[trigger]
            is_dimension(s, name) ==> has_property(items, name),
    ensures
        formatted(s, items, multiplicity, now) is Ok,
{
    all_items(s, items, items.len(), multiplicity);
    assert(items.take(items.len() as int) =~= items);
    let w = with_items_written(s, fresh(initial_lines(s)), items, multiplicity);
    if !s.skip_dimensions_exist {
        assert forall|i: int| 0 <= i < w.lines.order.len() implies !(
        w.lines.kinds[#[trigger] w.lines.order[i]] is UnfoundDimension) by {
            let name = w.lines.order[i];
            assert(w.lines.kinds.contains_key(name));
        }
        nothing_missing(w.lines, w.lines.order);
    }
}

// ---------------------------------------------------------------------------
// What makes no difference
// ---------------------------------------------------------------------------

/// Whether two writers have taken note of the same, whatever numbers they have written.
spec fn same_notes(a: WriterModel, b: WriterModel) -> bool {
    &&& a.lines == b.lines
    &&& a.errors == b.errors
    &&& a.timestamp == b.timestamp
    &&& a.allow_split == b.allow_split
    &&& a.allow_unroutable == b.allow_unroutable
    &&& a.entry_dimensions == b.entry_dimensions
    &&& set_keys(a.sets) == set_keys(b.sets)
}

proof fn sets_stay_the_same(
    s: Settings,
    a: WriterModel,
    b: WriterModel,
    key: Seq<(Seq<char>, Seq<char>)>,
)
    requires
        same_notes(a, b),
    ensures
        same_notes(with_set(s, a, key), with_set(s, b, key)),
        set_position(with_set(s, a, key), key) == set_position(with_set(s, b, key), key),
        set_keys(with_set(s, a, key).sets).contains(key),
{
    let keys = set_keys(a.sets);
    let after_a = set_keys(with_set(s, a, key).sets);
    let after_b = set_keys(with_set(s, b, key).sets);
    if !keys.contains(key) {
        assert(after_a =~= keys.push(key));
        assert(after_b =~= keys.push(key));
        assert(after_a[keys.len() as int] == key);
    }
}

proof fn notes_do_not_depend_on_numbers(
    s: Settings,
    a: WriterModel,
    b: WriterModel,
    item: ItemModel,
    m: Option<u64>,
    n: Option<u64>,
)
    requires
        same_notes(a, b),
    ensures
        same_notes(with_item_written(s, a, item, m), with_item_written(s, b, item, n)),
{
    match item {
        ItemModel::Config(ConfigModel::EntryDimensions(sets)) => {
            assert(a.sets.len() == set_keys(a.sets).len());
            assert(b.sets.len() == set_keys(b.sets).len());
            set_notes_agree(s, a, b, sets);
        },
        ItemModel::Value(name, ValueModel::Metric(metric)) => {
            if name_error(s, name) is None && !is_global(s, metric) {
                let key = sorted_pairs(metric.dimensions);
                let a1 = if a.allow_split {
                    a
                } else {
                    with_error(a, field_error(name, split_reason()))
                };
                let b1 = if b.allow_split {
                    b
                } else {
                    with_error(b, field_error(name, split_reason()))
                };
                sets_stay_the_same(s, a1, b1, key);
                let a2 = with_set(s, a1, key);
                let b2 = with_set(s, b1, key);
                let i = set_position(a2, key);
                let keys = set_keys(a2.sets);
                assert(keys[i] == key);
                let a4 = with_item_written(s, a, item, m);
                let b4 = with_item_written(s, b, item, n);
                assert(set_keys(a4.sets) =~= set_keys(a2.sets));
                assert(set_keys(b4.sets) =~= set_keys(b2.sets));
            }
        },
        _ => {},
    }
}

proof fn set_notes_agree(s: Settings, a: WriterModel, b: WriterModel, sets: Seq<Seq<Seq<char>>>)
    requires
        same_notes(a, b),
    ensures
        same_notes(with_dimension_set_notes(s, a, sets), with_dimension_set_notes(s, b, sets)),
    decreases sets.len(),
{
    if sets.len() > 0 {
        set_notes_agree(s, a, b, sets.drop_last());
        notes_agree(
            s,
            with_dimension_set_notes(s, a, sets.drop_last()),
            with_dimension_set_notes(s, b, sets.drop_last()),
            sets.last(),
        );
    }
}

proof fn notes_agree(s: Settings, a: WriterModel, b: WriterModel, names: Seq<Seq<char>>)
    requires
        same_notes(a, b),
    ensures
        same_notes(with_dimension_notes(s, a, names), with_dimension_notes(s, b, names)),
    decreases names.len(),
{
    if names.len() > 0 {
        notes_agree(s, a, b, names.drop_last());
    }
}

proof fn all_notes_agree(s: Settings, items: Seq<ItemModel>, m: Option<u64>, n: Option<u64>)
    ensures
        same_notes(
            with_items_written(s, fresh(initial_lines(s)), items, m),
            with_items_written(s, fresh(initial_lines(s)), items, n),
        ),
    decreases items.len(),
{
    if items.len() > 0 {
        all_notes_agree(s, items.drop_last(), m, n);
        notes_do_not_depend_on_numbers(
            s,
            with_items_written(s, fresh(initial_lines(s)), items.drop_last(), m),
            with_items_written(s, fresh(initial_lines(s)), items.drop_last(), n),
            items.last(),
            m,
            n,
        );
    }
}

/// How many entries an entry stands for, and at which time it is formatted, makes no difference to
/// whether it is accepted, nor to its errors.
pub proof fn multiplicities_keep_acceptance(
    s: Settings,
    items: Seq<ItemModel>,
    m: Option<u64>,
    n: Option<u64>,
    now: i128,
    later: i128,
)
    ensures
        formatted(s, items, m, now) is Ok <==> formatted(s, items, n, later) is Ok,
        formatted(s, items, m, now) is Err ==> formatted(s, items, m, now) == formatted(
            s,
            items,
            n,
            later,
        ),
{
    all_notes_agree(s, items, m, n);
}

} // verus!
