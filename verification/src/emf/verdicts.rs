//! Which entries are refused, and for what.

use vstd::prelude::*;
use vstd::string::*;

use crate::emf::lines::{
    metric_note, metric_noted, no_lines, set_line, standing_in, stands_in, LineModel, LinesModel,
    MetricNote, Place,
};
use crate::emf::model::{
    all_errors, expecting, expecting_sets, formatted, fresh, initial_lines, is_global,
    missing_dimensions, name_error, set_keys, set_position, split_reason, with_dimension_notes,
    with_dimension_set_notes, with_error, with_item_written, with_items_written, with_metric_note,
    with_set, Settings, WriterModel,
};
use crate::emf::published::{belonging, belongs, key_is_in_order, own_dimensions};
use crate::emf::refusals::is_property;
use crate::entry::{ConfigModel, ItemModel};
use crate::order::sorted_pairs;
use crate::validate::{field_error, ErrorModel};
use crate::value::{MetricModel, ValueModel};

verus! {

// ---------------------------------------------------------------------------
// What came before
// ---------------------------------------------------------------------------

/// Whether values may stand under a name.
pub open spec fn is_good_name(s: Settings, name: Seq<char>) -> bool {
    s.skip_names || (name.len() > 0 && name != "_aws"@)
}

/// Whether one of the first items is this setting.
pub open spec fn has_setting(items: Seq<ItemModel>, k: int, config: ConfigModel) -> bool {
    exists|i: int| 0 <= i < k && #[trigger] items[i] == ItemModel::Config(config)
}

/// Whether one of the first items is a timestamp.
pub open spec fn has_timestamp(items: Seq<ItemModel>, k: int) -> bool {
    exists|i: int| 0 <= i < k && (#[trigger] items[i]) is Timestamp
}

/// Whether an item is a metric with dimensions of its own.
pub open spec fn is_apart(s: Settings, item: ItemModel) -> bool {
    item matches ItemModel::Value(name, _) && is_good_name(s, name) && own_dimensions(
        s,
        item,
    ).len() > 0
}

/// Whether one of the first items is a metric with dimensions of its own.
pub open spec fn has_metric_apart(s: Settings, items: Seq<ItemModel>, k: int) -> bool {
    exists|i: int| 0 <= i < k && is_apart(s, #[trigger] items[i])
}

/// Whether an item gives dimensions for the whole entry.
pub open spec fn lists_dimensions(item: ItemModel) -> bool {
    item matches ItemModel::Config(ConfigModel::EntryDimensions(sets)) && sets.len() > 0
}

/// Whether the item at a position gives the dimensions of the entry: the first one to do so does,
/// unless a metric with dimensions of its own came before.
pub open spec fn sets_dimensions(s: Settings, items: Seq<ItemModel>, i: int) -> bool {
    &&& lists_dimensions(items[i])
    &&& !has_metric_apart(s, items, i)
    &&& forall|j: int| 0 <= j < i ==> !lists_dimensions(#[trigger] items[j])
}

/// Whether one of the first items gives the dimensions of the entry.
pub open spec fn has_dimensions(s: Settings, items: Seq<ItemModel>, k: int) -> bool {
    exists|i: int| 0 <= i < k && #[trigger] sets_dimensions(s, items, i)
}

/// Whether a name is in one of the sets.
pub open spec fn is_in_sets(sets: Seq<Seq<Seq<char>>>, name: Seq<char>) -> bool {
    exists|d: int| 0 <= d < sets.len() && (#[trigger] sets[d]).contains(name)
}

/// Whether an item gives a dimension of that name for the whole entry.
pub open spec fn lists_dimension(item: ItemModel, name: Seq<char>) -> bool {
    item matches ItemModel::Config(ConfigModel::EntryDimensions(sets)) && is_in_sets(sets, name)
}

/// Whether it matters what names stand for.
pub open spec fn takes_notes(s: Settings) -> bool {
    !s.skip_unique || !s.skip_dimensions_exist
}

/// Whether a name is that of a dimension, either of all entries or of this one.
pub open spec fn is_expected(s: Settings, items: Seq<ItemModel>, k: int, name: Seq<char>) -> bool {
    ||| !s.skip_dimensions_exist && is_in_sets(s.dimensions, name)
    ||| takes_notes(s) && exists|i: int|
        0 <= i < k && #[trigger] sets_dimensions(s, items, i) && lists_dimension(items[i], name)
}

/// Whether an item is a string, a list or an object of that name.
pub open spec fn is_text_of(item: ItemModel, name: Seq<char>) -> bool {
    item matches ItemModel::Value(n, v) && n == name && is_property(v)
}

/// Whether an item is a metric of that name.
pub open spec fn is_metric_of(item: ItemModel, name: Seq<char>) -> bool {
    item matches ItemModel::Value(n, ValueModel::Metric(_)) && n == name
}

/// Whether the item at a position is a metric of that name that is checked and does not stand under
/// the name of a dimension.
pub open spec fn counts_as_metric(s: Settings, items: Seq<ItemModel>, i: int, name: Seq<char>)
    -> bool {
    &&& is_metric_of(items[i], name)
    &&& !s.skip_unique
    &&& !has_setting(items, i, ConfigModel::AllowUnroutableEntries)
    &&& !is_expected(s, items, i, name)
}

/// Whether a name stands for a string, list or object: one of the first items is one, and no metric
/// had that name before.
pub open spec fn stands_for_text(s: Settings, items: Seq<ItemModel>, k: int, name: Seq<char>)
    -> bool {
    is_good_name(s, name) && takes_notes(s) && exists|j: int|
        0 <= j < k && is_text_of(#[trigger] items[j], name) && forall|i: int|
            0 <= i < j ==> !#[trigger] counts_as_metric(s, items, i, name)
}

/// Whether a name stands for a metric: one of the first items is one, and no string, list or object
/// had that name before.
pub open spec fn stands_for_metric(s: Settings, items: Seq<ItemModel>, k: int, name: Seq<char>)
    -> bool {
    is_good_name(s, name) && exists|j: int|
        0 <= j < k && #[trigger] counts_as_metric(s, items, j, name) && forall|i: int|
            0 <= i < j ==> !is_text_of(#[trigger] items[i], name)
}

/// Whether one of the first items is a metric of that name with just these dimensions of its own,
/// and is checked.
pub open spec fn has_metric_with(
    s: Settings,
    items: Seq<ItemModel>,
    k: int,
    name: Seq<char>,
    key: Seq<(Seq<char>, Seq<char>)>,
) -> bool {
    exists|j: int|
        0 <= j < k && is_metric_of(#[trigger] items[j], name) && !has_setting(
            items,
            j,
            ConfigModel::AllowUnroutableEntries,
        ) && belongs(s, items[j], key)
}

// ---------------------------------------------------------------------------
// Errors
// ---------------------------------------------------------------------------

/// Whether a metric is refused for this reason.
pub open spec fn is_metric_error(
    s: Settings,
    items: Seq<ItemModel>,
    k: int,
    name: Seq<char>,
    reason: Seq<char>,
) -> bool {
    let own = own_dimensions(s, items[k]);
    let checked = !s.skip_unique && !has_setting(items, k, ConfigModel::AllowUnroutableEntries);
    let text = stands_for_text(s, items, k, name);
    let metric = stands_for_metric(s, items, k, name);
    ||| own.len() > 0 && !has_setting(items, k, ConfigModel::AllowSplitEntries) && reason
        == "can't use per-metric dimensions without split entries - you probably want to remove WithDimensions<>"@
    ||| checked && !text && !metric && is_expected(s, items, k, name) && reason
        == "can't use metric in dimension field"@
    ||| checked && (text || (metric && has_metric_with(s, items, k, name, own))) && reason
        == "duplicate field"@
}

/// Whether a value is refused for this reason.
pub open spec fn is_value_error(
    s: Settings,
    items: Seq<ItemModel>,
    k: int,
    name: Seq<char>,
    value: ValueModel,
    reason: Seq<char>,
) -> bool {
    if !is_good_name(s, name) {
        reason == if name.len() == 0 {
            "name can't be empty"@
        } else {
            "name can't be `_aws`"@
        }
    } else {
        match value {
            ValueModel::Nothing => false,
            ValueModel::Error(e) => reason == e.reason,
            ValueModel::Metric(_) => is_metric_error(s, items, k, name, reason),
            _ => !s.skip_unique && (stands_for_text(s, items, k, name) || stands_for_metric(
                s,
                items,
                k,
                name,
            )) && reason == "duplicate field"@,
        }
    }
}

/// Whether the entry is refused for this because of the item at a position.
pub open spec fn is_error_at(s: Settings, items: Seq<ItemModel>, k: int, e: ErrorModel) -> bool {
    match items[k] {
        ItemModel::Timestamp(_) => has_timestamp(items, k) && e.field is None && e.reason
            == "multiple timestamps written"@,
        ItemModel::Value(name, value) => e.field == Some(name) && is_value_error(
            s,
            items,
            k,
            name,
            value,
            e.reason,
        ),
        ItemModel::Config(ConfigModel::EntryDimensions(sets)) => if has_metric_apart(s, items, k) {
            e.field is None && e.reason
                == "entry dimensions must be configured before emitting a metric with custom dimensions"@
        } else if has_dimensions(s, items, k) {
            e.field is None && e.reason == "entry dimensions cannot be set twice"@
        } else if sets.len() == 0 {
            e.field is None && e.reason == "entry dimensions cannot be empty"@
        } else {
            !s.skip_unique && e.reason == "duplicate field"@ && e.field is Some && is_in_sets(
                sets,
                e.field->0,
            ) && stands_for_metric(s, items, k, e.field->0)
        },
        ItemModel::Config(_) => false,
    }
}

/// Whether the entry is refused for this because a dimension has no string, list or object.
pub open spec fn is_missing(s: Settings, items: Seq<ItemModel>, e: ErrorModel) -> bool {
    let n = items.len() as int;
    &&& !s.skip_dimensions_exist
    &&& !has_setting(items, n, ConfigModel::AllowUnroutableEntries)
    &&& e.field matches Some(name) && is_expected(s, items, n, name) && !stands_for_text(
        s,
        items,
        n,
        name,
    ) && !stands_for_metric(s, items, n, name)
    &&& e.reason == "missing dimension"@
}

/// Whether one of the first items is an error.
pub open spec fn has_error(s: Settings, items: Seq<ItemModel>, k: int, e: ErrorModel) -> bool {
    exists|i: int| 0 <= i < k && #[trigger] is_error_at(s, items, i, e)
}

/// Whether the entry is refused for this.
pub open spec fn is_refused_for(s: Settings, items: Seq<ItemModel>, e: ErrorModel) -> bool {
    has_error(s, items, items.len() as int, e) || is_missing(s, items, e)
}

// ---------------------------------------------------------------------------
// What an item changes
// ---------------------------------------------------------------------------

/// What one more item adds to what came before.
proof fn history_grows(s: Settings, items: Seq<ItemModel>, k: int)
    requires
        0 <= k < items.len(),
    ensures
        has_timestamp(items, k + 1) == (has_timestamp(items, k) || items[k] is Timestamp),
        has_metric_apart(s, items, k + 1) == (has_metric_apart(s, items, k) || is_apart(
            s,
            items[k],
        )),
        has_dimensions(s, items, k + 1) == (has_dimensions(s, items, k) || sets_dimensions(
            s,
            items,
            k,
        )),
        forall|config: ConfigModel| #[trigger]
            has_setting(items, k + 1, config) == (has_setting(items, k, config) || items[k]
                == ItemModel::Config(config)),
        sets_dimensions(s, items, k) == (lists_dimensions(items[k]) && !has_metric_apart(
            s,
            items,
            k,
        ) && !has_dimensions(s, items, k)),
{
    if has_timestamp(items, k) {
        let i = choose|i: int| 0 <= i < k && (#[trigger] items[i]) is Timestamp;
        assert(items[i] is Timestamp);
    }
    if has_metric_apart(s, items, k) {
        let i = choose|i: int| 0 <= i < k && is_apart(s, #[trigger] items[i]);
        assert(is_apart(s, items[i]));
    }
    if has_dimensions(s, items, k) {
        let i = choose|i: int| 0 <= i < k && #[trigger] sets_dimensions(s, items, i);
        assert(sets_dimensions(s, items, i));
        assert(lists_dimensions(items[i]));
    }
    assert forall|config: ConfigModel| #[trigger]
        has_setting(items, k + 1, config) == (has_setting(items, k, config) || items[k]
            == ItemModel::Config(config)) by {
        if has_setting(items, k, config) {
            let i = choose|i: int| 0 <= i < k && #[trigger] items[i] == ItemModel::Config(config);
            assert(items[i] == ItemModel::Config(config));
        }
    }
    if lists_dimensions(items[k]) && !has_metric_apart(s, items, k) && !has_dimensions(s, items, k) {
        assert forall|j: int| 0 <= j < k implies !lists_dimensions(#[trigger] items[j]) by {
            if lists_dimensions(items[j]) {
                first_dimensions(s, items, k, j);
            }
        }
    }
}

/// Where dimensions are given and no metric has dimensions of its own, one item gives those of the
/// entry.
proof fn first_dimensions(s: Settings, items: Seq<ItemModel>, k: int, j: int)
    requires
        0 <= j < k <= items.len(),
        lists_dimensions(items[j]),
        !has_metric_apart(s, items, k),
    ensures
        has_dimensions(s, items, k),
    decreases j,
{
    if forall|i: int| 0 <= i < j ==> !lists_dimensions(#[trigger] items[i]) {
        assert(!has_metric_apart(s, items, j)) by {
            if has_metric_apart(s, items, j) {
                let i = choose|i: int| 0 <= i < j && is_apart(s, #[trigger] items[i]);
                assert(is_apart(s, items[i]));
            }
        }
        assert(sets_dimensions(s, items, j));
    } else {
        let i = choose|i: int| 0 <= i < j && lists_dimensions(#[trigger] items[i]);
        first_dimensions(s, items, k, i);
    }
}

/// What one more item adds to what a name stands for.
proof fn meanings_grow(s: Settings, items: Seq<ItemModel>, k: int, name: Seq<char>)
    requires
        0 <= k < items.len(),
    ensures
        is_expected(s, items, k + 1, name) == (is_expected(s, items, k, name) || (takes_notes(s)
            && sets_dimensions(s, items, k) && lists_dimension(items[k], name))),
        stands_for_text(s, items, k + 1, name) == (stands_for_text(s, items, k, name) || (
        is_good_name(s, name) && takes_notes(s) && is_text_of(items[k], name)
            && !stands_for_text(s, items, k, name) && !stands_for_metric(s, items, k, name))),
        stands_for_metric(s, items, k + 1, name) == (stands_for_metric(s, items, k, name) || (
        is_good_name(s, name) && counts_as_metric(s, items, k, name) && !stands_for_text(
            s,
            items,
            k,
            name,
        ) && !stands_for_metric(s, items, k, name))),
        !(stands_for_text(s, items, k, name) && stands_for_metric(s, items, k, name)),
        !(stands_for_text(s, items, k + 1, name) && stands_for_metric(s, items, k + 1, name)),
{
    if is_expected(s, items, k, name) && !(!s.skip_dimensions_exist && is_in_sets(
        s.dimensions,
        name,
    )) {
        let i = choose|i: int|
            0 <= i < k && #[trigger] sets_dimensions(s, items, i) && lists_dimension(items[i], name);
        assert(sets_dimensions(s, items, i) && lists_dimension(items[i], name));
    }
    if sets_dimensions(s, items, k) && lists_dimension(items[k], name) && takes_notes(s) {
        assert(is_expected(s, items, k + 1, name));
    }
    one_meaning(s, items, k, name);
    one_meaning(s, items, k + 1, name);
    if stands_for_text(s, items, k, name) {
        let j = choose|j: int|
            0 <= j < k && is_text_of(#[trigger] items[j], name) && forall|i: int|
                0 <= i < j ==> !#[trigger] counts_as_metric(s, items, i, name);
        assert(is_text_of(items[j], name));
    } else if stands_for_text(s, items, k + 1, name) {
        let j = choose|j: int|
            0 <= j < k + 1 && is_text_of(#[trigger] items[j], name) && forall|i: int|
                0 <= i < j ==> !#[trigger] counts_as_metric(s, items, i, name);
        assert(j == k);
        if stands_for_metric(s, items, k, name) {
            let m = choose|m: int|
                0 <= m < k && #[trigger] counts_as_metric(s, items, m, name) && forall|i: int|
                    0 <= i < m ==> !is_text_of(#[trigger] items[i], name);
            assert(counts_as_metric(s, items, m, name));
        }
    }
    if stands_for_metric(s, items, k, name) {
        let m = choose|m: int|
            0 <= m < k && #[trigger] counts_as_metric(s, items, m, name) && forall|i: int|
                0 <= i < m ==> !is_text_of(#[trigger] items[i], name);
        assert(counts_as_metric(s, items, m, name));
    } else if stands_for_metric(s, items, k + 1, name) {
        let m = choose|m: int|
            0 <= m < k + 1 && #[trigger] counts_as_metric(s, items, m, name) && forall|i: int|
                0 <= i < m ==> !is_text_of(#[trigger] items[i], name);
        assert(m == k);
        if stands_for_text(s, items, k, name) {
            let j = choose|j: int|
                0 <= j < k && is_text_of(#[trigger] items[j], name) && forall|i: int|
                    0 <= i < j ==> !#[trigger] counts_as_metric(s, items, i, name);
            assert(is_text_of(items[j], name));
        }
    }
    if is_good_name(s, name) && takes_notes(s) && !stands_for_text(s, items, k, name)
        && !stands_for_metric(s, items, k, name) {
        assert forall|i: int| 0 <= i < k implies !#[trigger] counts_as_metric(s, items, i, name) by {
            if counts_as_metric(s, items, i, name) {
                some_meaning(s, items, k, name, i);
            }
        }
        assert forall|i: int| 0 <= i < k implies !is_text_of(#[trigger] items[i], name) by {
            if is_text_of(items[i], name) {
                some_meaning(s, items, k, name, i);
            }
        }
    }
}

/// A name does not stand for two things.
proof fn one_meaning(s: Settings, items: Seq<ItemModel>, k: int, name: Seq<char>)
    requires
        0 <= k <= items.len(),
    ensures
        !(stands_for_text(s, items, k, name) && stands_for_metric(s, items, k, name)),
{
    if stands_for_text(s, items, k, name) && stands_for_metric(s, items, k, name) {
        let j = choose|j: int|
            0 <= j < k && is_text_of(#[trigger] items[j], name) && forall|i: int|
                0 <= i < j ==> !#[trigger] counts_as_metric(s, items, i, name);
        let m = choose|m: int|
            0 <= m < k && #[trigger] counts_as_metric(s, items, m, name) && forall|i: int|
                0 <= i < m ==> !is_text_of(#[trigger] items[i], name);
        assert(counts_as_metric(s, items, m, name));
        assert(is_text_of(items[j], name));
        assert(j != m);
    }
}

/// A name that is taken note of stands for something.
proof fn some_meaning(s: Settings, items: Seq<ItemModel>, k: int, name: Seq<char>, i: int)
    requires
        0 <= i < k <= items.len(),
        is_good_name(s, name),
        takes_notes(s),
        counts_as_metric(s, items, i, name) || is_text_of(items[i], name),
    ensures
        stands_for_text(s, items, k, name) || stands_for_metric(s, items, k, name),
    decreases i,
{
    if exists|j: int| 0 <= j < i && #[trigger] counts_as_metric(s, items, j, name) {
        let j = choose|j: int| 0 <= j < i && #[trigger] counts_as_metric(s, items, j, name);
        some_meaning(s, items, k, name, j);
    } else if exists|j: int| 0 <= j < i && is_text_of(#[trigger] items[j], name) {
        let j = choose|j: int| 0 <= j < i && is_text_of(#[trigger] items[j], name);
        some_meaning(s, items, k, name, j);
    }
}

/// Whether the writer has kept what came before.
spec fn tells_history(s: Settings, items: Seq<ItemModel>, k: int, w: WriterModel) -> bool {
    &&& w.timestamp is Some == has_timestamp(items, k)
    &&& w.allow_split == has_setting(items, k, ConfigModel::AllowSplitEntries)
    &&& w.allow_unroutable == has_setting(items, k, ConfigModel::AllowUnroutableEntries)
    &&& w.entry_dimensions is Some == has_dimensions(s, items, k)
    &&& (w.sets.len() > 0) == has_metric_apart(s, items, k)
    &&& w.sets.len() <= k
    &&& forall|g: int, h: int|
        0 <= g < h < w.sets.len() ==> (#[trigger] w.sets[g]).key != (#[trigger] w.sets[h]).key
    &&& forall|g: int|
        0 <= g < w.sets.len() ==> (#[trigger] w.sets[g]).key.len() > 0 && sorted_pairs(
            w.sets[g].key,
        ) == w.sets[g].key
    &&& forall|i: int|
        0 <= i < k && is_apart(s, #[trigger] items[i]) ==> set_keys(w.sets).contains(
            sorted_pairs(own_dimensions(s, items[i])),
        )
}

/// Whether the writer has kept where metrics of a name stand.
spec fn tells_places(
    s: Settings,
    items: Seq<ItemModel>,
    k: int,
    w: WriterModel,
    name: Seq<char>,
    kind: LineModel,
) -> bool {
    &&& kind matches LineModel::Metric { global, sets } && global == has_metric_with(
        s,
        items,
        k,
        name,
        Seq::empty(),
    ) && forall|p: usize| #[trigger]
        sets.contains(p) == (p < w.sets.len() && has_metric_with(
            s,
            items,
            k,
            name,
            w.sets[p as int].key,
        ))
}

/// Whether the writer has kept what a name stands for.
spec fn tells_meaning(
    s: Settings,
    items: Seq<ItemModel>,
    k: int,
    w: WriterModel,
    name: Seq<char>,
) -> bool {
    let known = w.lines.kinds.contains_key(name);
    let kind = w.lines.kinds[name];
    &&& (known && kind is Text) == stands_for_text(s, items, k, name)
    &&& (known && kind is Metric) == stands_for_metric(s, items, k, name)
    &&& known == (stands_for_text(s, items, k, name) || stands_for_metric(s, items, k, name)
        || is_expected(s, items, k, name))
    &&& (known && kind is Metric) ==> tells_places(s, items, k, w, name, kind)
}

/// What one more item adds to the metrics of a name.
proof fn metrics_grow(
    s: Settings,
    items: Seq<ItemModel>,
    k: int,
    name: Seq<char>,
    key: Seq<(Seq<char>, Seq<char>)>,
)
    requires
        0 <= k < items.len(),
    ensures
        has_metric_with(s, items, k + 1, name, key) == (has_metric_with(s, items, k, name, key) || (
        is_metric_of(items[k], name) && !has_setting(items, k, ConfigModel::AllowUnroutableEntries)
            && belongs(s, items[k], key))),
{
    if has_metric_with(s, items, k, name, key) {
        let j = choose|j: int|
            0 <= j < k && is_metric_of(#[trigger] items[j], name) && !has_setting(
                items,
                j,
                ConfigModel::AllowUnroutableEntries,
            ) && belongs(s, items[j], key);
        assert(is_metric_of(items[j], name));
    }
}

/// In which order dimensions are given makes no difference.
proof fn metrics_with_same_dimensions(
    s: Settings,
    items: Seq<ItemModel>,
    k: int,
    name: Seq<char>,
    a: Seq<(Seq<char>, Seq<char>)>,
    b: Seq<(Seq<char>, Seq<char>)>,
)
    requires
        a.to_multiset() == b.to_multiset(),
        has_metric_with(s, items, k, name, a),
    ensures
        has_metric_with(s, items, k, name, b),
{
    let j = choose|j: int|
        0 <= j < k && is_metric_of(#[trigger] items[j], name) && !has_setting(
            items,
            j,
            ConfigModel::AllowUnroutableEntries,
        ) && belongs(s, items[j], a);
    assert(is_metric_of(items[j], name) && belongs(s, items[j], b));
}

/// No metric has dimensions that there is no set for.
proof fn no_metric_without_set(
    s: Settings,
    items: Seq<ItemModel>,
    k: int,
    w: WriterModel,
    name: Seq<char>,
    key: Seq<(Seq<char>, Seq<char>)>,
)
    requires
        0 <= k <= items.len(),
        tells_history(s, items, k, w),
        is_good_name(s, name),
        key.len() > 0,
        sorted_pairs(key) == key,
        !set_keys(w.sets).contains(key),
    ensures
        !has_metric_with(s, items, k, name, key),
{
    if has_metric_with(s, items, k, name, key) {
        let j = choose|j: int|
            0 <= j < k && is_metric_of(#[trigger] items[j], name) && !has_setting(
                items,
                j,
                ConfigModel::AllowUnroutableEntries,
            ) && belongs(s, items[j], key);
        if let ItemModel::Value(_, ValueModel::Metric(m)) = items[j] {
            belonging(s, items[j], m, key);
            assert(!is_global(s, m));
            assert(is_apart(s, items[j]));
        }
    }
}

/// A name that stands for nothing has no metrics.
proof fn no_metric_without_meaning(
    s: Settings,
    items: Seq<ItemModel>,
    k: int,
    name: Seq<char>,
    key: Seq<(Seq<char>, Seq<char>)>,
)
    requires
        0 <= k <= items.len(),
        !s.skip_unique,
        is_good_name(s, name),
        !stands_for_text(s, items, k, name),
        !stands_for_metric(s, items, k, name),
        !is_expected(s, items, k, name),
    ensures
        !has_metric_with(s, items, k, name, key),
{
    if has_metric_with(s, items, k, name, key) {
        let j = choose|j: int|
            0 <= j < k && is_metric_of(#[trigger] items[j], name) && !has_setting(
                items,
                j,
                ConfigModel::AllowUnroutableEntries,
            ) && belongs(s, items[j], key);
        if is_expected(s, items, j, name) {
            if !(!s.skip_dimensions_exist && is_in_sets(s.dimensions, name)) {
                let i = choose|i: int|
                    0 <= i < j && #[trigger] sets_dimensions(s, items, i) && lists_dimension(
                        items[i],
                        name,
                    );
                assert(sets_dimensions(s, items, i) && lists_dimension(items[i], name));
            }
        } else {
            some_meaning(s, items, k, name, j);
        }
    }
}

// ---------------------------------------------------------------------------
// Metrics
// ---------------------------------------------------------------------------

/// The writer with a set for a metric, if it has dimensions of its own.
spec fn with_place(s: Settings, w: WriterModel, m: MetricModel) -> WriterModel {
    if is_global(s, m) {
        w
    } else {
        with_set(s, w, sorted_pairs(m.dimensions))
    }
}

/// Where a metric stands.
spec fn place_of(s: Settings, w: WriterModel, m: MetricModel) -> Place {
    if is_global(s, m) {
        Place::Global
    } else {
        Place::Within(
            set_position(with_place(s, w, m), sorted_pairs(m.dimensions)) as usize,
        )
    }
}

/// The place of a metric is that of its dimensions.
proof fn place_is_found(s: Settings, items: Seq<ItemModel>, k: int, w: WriterModel, m: MetricModel)
    requires
        0 <= k < items.len() <= usize::MAX,
        tells_history(s, items, k, w),
        items[k] matches ItemModel::Value(_, ValueModel::Metric(x)) && x == m,
        !is_global(s, m),
    ensures
        ({
            let key = sorted_pairs(m.dimensions);
            let placed = with_place(s, w, m);
            &&& place_of(s, w, m) matches Place::Within(i) && i < placed.sets.len()
                && placed.sets[i as int].key == key && i == set_position(placed, key)
                && placed.sets == (if set_keys(w.sets).contains(key) {
                w.sets
            } else {
                w.sets.push(placed.sets.last())
            }) && (!set_keys(w.sets).contains(key) ==> i == w.sets.len())
            &&& set_keys(placed.sets).contains(key)
            &&& key.len() > 0 && sorted_pairs(key) == key
            &&& key.to_multiset() == own_dimensions(s, items[k]).to_multiset()
            &&& forall|g: int, h: int|
                0 <= g < h < placed.sets.len() ==> (#[trigger] placed.sets[g]).key != (
                #[trigger] placed.sets[h]).key
            &&& forall|g: int|
                0 <= g < placed.sets.len() ==> (#[trigger] placed.sets[g]).key.len() > 0
                    && sorted_pairs(placed.sets[g].key) == placed.sets[g].key
        }),
{
    let key = sorted_pairs(m.dimensions);
    let placed = with_place(s, w, m);
    key_is_in_order(m.dimensions);
    let keys = set_keys(w.sets);
    let now = set_keys(placed.sets);
    if keys.contains(key) {
        assert(placed.sets == w.sets);
    } else {
        assert(now[w.sets.len() as int] == key);
        assert forall|g: int| 0 <= g < w.sets.len() implies (#[trigger] w.sets[g]).key != key by {
            assert(keys[g] == w.sets[g].key);
        }
    }
    assert(now.contains(key));
    let i = now.index_of(key);
    assert(now[i] == placed.sets[i].key);
    assert forall|g: int, h: int| 0 <= g < h < placed.sets.len() implies (
    #[trigger] placed.sets[g]).key != (#[trigger] placed.sets[h]).key by {
        assert(placed.sets[g] == w.sets[g]);
        if h < w.sets.len() {
            assert(placed.sets[h] == w.sets[h]);
        }
    }
    assert forall|g: int| 0 <= g < placed.sets.len() implies (
    #[trigger] placed.sets[g]).key.len() > 0 && sorted_pairs(placed.sets[g].key)
        == placed.sets[g].key by {
        if g < w.sets.len() {
            assert(placed.sets[g] == w.sets[g]);
        }
    }
    if !keys.contains(key) {
        if i < w.sets.len() {
            assert(placed.sets[i].key != placed.sets[w.sets.len() as int].key);
        }
    }
}

/// What a metric does to the writer.
proof fn metric_effect(
    s: Settings,
    items: Seq<ItemModel>,
    k: int,
    w: WriterModel,
    multiplicity: Option<u64>,
    name: Seq<char>,
    m: MetricModel,
)
    requires
        0 <= k < items.len() <= usize::MAX,
        tells_history(s, items, k, w),
        items[k] == ItemModel::Value(name, ValueModel::Metric(m)),
        is_good_name(s, name),
    ensures
        ({
            let after = with_item_written(s, w, items[k], multiplicity);
            let placed = with_place(s, w, m);
            let place = place_of(s, w, m);
            &&& set_keys(after.sets) == set_keys(placed.sets)
            &&& after.sets.len() == placed.sets.len()
            &&& forall|g: int|
                0 <= g < after.sets.len() ==> (#[trigger] after.sets[g]).key == placed.sets[g].key
            &&& after.timestamp == w.timestamp
            &&& after.allow_split == w.allow_split
            &&& after.allow_unroutable == w.allow_unroutable
            &&& after.entry_dimensions == w.entry_dimensions
            &&& after.lines == (if s.skip_unique || w.allow_unroutable {
                w.lines
            } else {
                metric_noted(w.lines, name, place)
            })
            &&& after.errors == w.errors + (if is_global(s, m) || w.allow_split {
                Seq::empty()
            } else {
                seq![field_error(name, split_reason())]
            }) + (if s.skip_unique || w.allow_unroutable {
                Seq::empty()
            } else {
                match metric_note(w.lines, name, place) {
                    MetricNote::Taken => Seq::empty(),
                    MetricNote::InDimension => seq![
                        field_error(name, "can't use metric in dimension field"@),
                    ],
                    MetricNote::Duplicate => seq![field_error(name, "duplicate field"@)],
                }
            })
        }),
{
    let after = with_item_written(s, w, items[k], multiplicity);
    let placed = with_place(s, w, m);
    let place = place_of(s, w, m);
    assert(name_error(s, name) is None);
    if is_global(s, m) {
        assert(after.sets == w.sets);
        assert(after.errors =~= w.errors + Seq::<ErrorModel>::empty() + (if s.skip_unique
            || w.allow_unroutable {
            Seq::empty()
        } else {
            match metric_note(w.lines, name, place) {
                MetricNote::Taken => Seq::empty(),
                MetricNote::InDimension => seq![
                    field_error(name, "can't use metric in dimension field"@),
                ],
                MetricNote::Duplicate => seq![field_error(name, "duplicate field"@)],
            }
        }));
    } else {
        place_is_found(s, items, k, w, m);
        let key = sorted_pairs(m.dimensions);
        let w1 = if w.allow_split {
            w
        } else {
            with_error(w, field_error(name, split_reason()))
        };
        let w2 = with_set(s, w1, key);
        assert(w2.sets == placed.sets);
        assert(w2.lines == w.lines);
        let i = set_position(w2, key);
        assert(place == Place::Within(i as usize));
        let w3 = with_metric_note(s, w2, name, place);
        assert(w3.sets == placed.sets);
        assert(after.errors == w3.errors);
        assert(after.lines == w3.lines);
        assert(set_keys(after.sets) =~= set_keys(placed.sets));
        let split = if w.allow_split {
            Seq::<ErrorModel>::empty()
        } else {
            seq![field_error(name, split_reason())]
        };
        assert(w2.errors =~= w.errors + split);
        assert(w3.errors =~= w2.errors + (if s.skip_unique || w.allow_unroutable {
            Seq::empty()
        } else {
            match metric_note(w.lines, name, place) {
                MetricNote::Taken => Seq::empty(),
                MetricNote::InDimension => seq![
                    field_error(name, "can't use metric in dimension field"@),
                ],
                MetricNote::Duplicate => seq![field_error(name, "duplicate field"@)],
            }
        }));
    }
}

/// After a metric, the writer has kept what came before.
proof fn metric_history(
    s: Settings,
    items: Seq<ItemModel>,
    k: int,
    w: WriterModel,
    multiplicity: Option<u64>,
    name: Seq<char>,
    m: MetricModel,
)
    requires
        0 <= k < items.len() <= usize::MAX,
        tells_history(s, items, k, w),
        items[k] == ItemModel::Value(name, ValueModel::Metric(m)),
        is_good_name(s, name),
    ensures
        tells_history(s, items, k + 1, with_item_written(s, w, items[k], multiplicity)),
{
    let after = with_item_written(s, w, items[k], multiplicity);
    let placed = with_place(s, w, m);
    history_grows(s, items, k);
    metric_effect(s, items, k, w, multiplicity, name, m);
    assert(is_apart(s, items[k]) == !is_global(s, m));
    if !is_global(s, m) {
        place_is_found(s, items, k, w, m);
        key_is_in_order(m.dimensions);
    }
    assert forall|g: int, h: int| 0 <= g < h < after.sets.len() implies (
    #[trigger] after.sets[g]).key != (#[trigger] after.sets[h]).key by {
        assert(after.sets[g].key == placed.sets[g].key);
        assert(after.sets[h].key == placed.sets[h].key);
    }
    assert forall|g: int| 0 <= g < after.sets.len() implies (#[trigger] after.sets[g]).key.len() > 0
        && sorted_pairs(after.sets[g].key) == after.sets[g].key by {
        assert(after.sets[g].key == placed.sets[g].key);
    }
    assert forall|i: int| 0 <= i < k + 1 && is_apart(s, #[trigger] items[i]) implies set_keys(
        after.sets,
    ).contains(sorted_pairs(own_dimensions(s, items[i]))) by {
        if i < k {
            let keys = set_keys(w.sets);
            let key = sorted_pairs(own_dimensions(s, items[i]));
            let g = keys.index_of(key);
            assert(keys[g] == key);
            assert(placed.sets[g] == w.sets[g]);
            assert(set_keys(after.sets)[g] == key);
        }
    }
}

/// After a metric, the writer has kept what names stand for.
proof fn metric_meaning(
    s: Settings,
    items: Seq<ItemModel>,
    k: int,
    w: WriterModel,
    multiplicity: Option<u64>,
    name: Seq<char>,
    m: MetricModel,
    n: Seq<char>,
)
    requires
        0 <= k < items.len() <= usize::MAX,
        tells_history(s, items, k, w),
        items[k] == ItemModel::Value(name, ValueModel::Metric(m)),
        is_good_name(s, name),
        tells_meaning(s, items, k, w, n),
    ensures
        tells_meaning(s, items, k + 1, with_item_written(s, w, items[k], multiplicity), n),
{
    let after = with_item_written(s, w, items[k], multiplicity);
    let placed = with_place(s, w, m);
    let place = place_of(s, w, m);
    metric_effect(s, items, k, w, multiplicity, name, m);
    meanings_grow(s, items, k, n);
    let checked = !s.skip_unique && !w.allow_unroutable;
    let known = after.lines.kinds.contains_key(n);
    let kind = after.lines.kinds[n];
    assert(after.lines.kinds.contains_key(n) == (w.lines.kinds.contains_key(n) || (checked && n
        == name)));
    if known && kind is Metric {
        metrics_grow(s, items, k, n, Seq::empty());
        belonging(s, items[k], m, Seq::empty());
        if !is_global(s, m) {
            place_is_found(s, items, k, w, m);
        }
        if checked && n == name && !w.lines.kinds.contains_key(n) {
            no_metric_without_meaning(s, items, k, n, Seq::empty());
        }
        assert(is_good_name(s, n));
        assert(!s.skip_unique) by {
            if w.lines.kinds.contains_key(n) && w.lines.kinds[n] is Metric {
                let j = choose|j: int|
                    0 <= j < k && #[trigger] counts_as_metric(s, items, j, n) && forall|i: int|
                        0 <= i < j ==> !is_text_of(#[trigger] items[i], n);
                assert(counts_as_metric(s, items, j, n));
            }
        }
        let (global, sets) = match kind {
            LineModel::Metric { global, sets } => (global, sets),
            _ => (false, Set::empty()),
        };
        assert forall|p: usize| #[trigger] sets.contains(p) == (p < after.sets.len()
            && has_metric_with(s, items, k + 1, n, after.sets[p as int].key)) by {
            if p < after.sets.len() {
                let key = after.sets[p as int].key;
                assert(key == placed.sets[p as int].key);
                metrics_grow(s, items, k, n, key);
                belonging(s, items[k], m, key);
                if p < w.sets.len() {
                    assert(placed.sets[p as int] == w.sets[p as int]);
                } else {
                    no_metric_without_set(s, items, k, w, n, key);
                }
                if checked && n == name && !w.lines.kinds.contains_key(n) {
                    no_metric_without_meaning(s, items, k, n, key);
                }
                if let Place::Within(i) = place {
                    if i != p {
                        assert(placed.sets[i as int].key != placed.sets[p as int].key);
                    }
                }
            }
        }
        assert(tells_places(s, items, k + 1, after, n, kind));
    }
}

/// A metric is refused for its errors.
proof fn metric_errors(
    s: Settings,
    items: Seq<ItemModel>,
    k: int,
    w: WriterModel,
    multiplicity: Option<u64>,
    name: Seq<char>,
    m: MetricModel,
    e: ErrorModel,
)
    requires
        0 <= k < items.len() <= usize::MAX,
        tells_history(s, items, k, w),
        items[k] == ItemModel::Value(name, ValueModel::Metric(m)),
        is_good_name(s, name),
        tells_meaning(s, items, k, w, name),
    ensures
        with_item_written(s, w, items[k], multiplicity).errors.contains(e) == (w.errors.contains(e)
            || is_error_at(s, items, k, e)),
{
    let after = with_item_written(s, w, items[k], multiplicity);
    let placed = with_place(s, w, m);
    let place = place_of(s, w, m);
    let own = own_dimensions(s, items[k]);
    metric_effect(s, items, k, w, multiplicity, name, m);
    one_meaning(s, items, k, name);
    let split = if is_global(s, m) || w.allow_split {
        Seq::<ErrorModel>::empty()
    } else {
        seq![field_error(name, split_reason())]
    };
    let note = if s.skip_unique || w.allow_unroutable {
        Seq::<ErrorModel>::empty()
    } else {
        match metric_note(w.lines, name, place) {
            MetricNote::Taken => Seq::empty(),
            MetricNote::InDimension => seq![
                field_error(name, "can't use metric in dimension field"@),
            ],
            MetricNote::Duplicate => seq![field_error(name, "duplicate field"@)],
        }
    };
    assert(own.len() > 0 <==> !is_global(s, m));
    if w.lines.kinds.contains_key(name) {
        if let LineModel::Metric { global, sets } = w.lines.kinds[name] {
            assert(stands_in(global, sets, place) == has_metric_with(s, items, k, name, own)) by {
                if is_global(s, m) {
                    assert(own =~= Seq::empty());
                } else {
                    place_is_found(s, items, k, w, m);
                    let key = sorted_pairs(m.dimensions);
                    if has_metric_with(s, items, k, name, own) {
                        metrics_with_same_dimensions(s, items, k, name, own, key);
                    }
                    if has_metric_with(s, items, k, name, key) {
                        metrics_with_same_dimensions(s, items, k, name, key, own);
                    }
                    if !set_keys(w.sets).contains(key) {
                        no_metric_without_set(s, items, k, w, name, key);
                    }
                }
            }
        }
    }
    sum_holds(w.errors, split, e);
    sum_holds(w.errors + split, note, e);
    one_holds(field_error(name, split_reason()), e);
    one_holds(field_error(name, "can't use metric in dimension field"@), e);
    one_holds(field_error(name, "duplicate field"@), e);
    none_holds(e);
}

/// A list made of two holds what they hold.
proof fn sum_holds(a: Seq<ErrorModel>, b: Seq<ErrorModel>, e: ErrorModel)
    ensures
        (a + b).contains(e) == (a.contains(e) || b.contains(e)),
{
    let both = a + b;
    if a.contains(e) {
        let i = a.index_of(e);
        assert(both[i] == e);
    }
    if b.contains(e) {
        let i = b.index_of(e);
        assert(both[a.len() + i] == e);
    }
    if both.contains(e) {
        let i = both.index_of(e);
        assert(both[i] == e);
        if i < a.len() {
            assert(a[i] == e);
        } else {
            assert(b[i - a.len()] == e);
        }
    }
}

/// A list of one error holds that error alone.
proof fn one_holds(error: ErrorModel, e: ErrorModel)
    ensures
        seq![error].contains(e) == (e == error),
{
    assert(seq![error][0] == error);
}

/// An empty list holds nothing.
proof fn none_holds(e: ErrorModel)
    ensures
        !Seq::<ErrorModel>::empty().contains(e),
{
}

// ---------------------------------------------------------------------------
// Dimensions of the entry
// ---------------------------------------------------------------------------

/// What the notes for some names change.
spec fn notes_taken(
    s: Settings,
    w: WriterModel,
    after: WriterModel,
    names: spec_fn(Seq<char>) -> bool,
) -> bool {
    &&& after.timestamp == w.timestamp
    &&& after.allow_split == w.allow_split
    &&& after.allow_unroutable == w.allow_unroutable
    &&& after.entry_dimensions == w.entry_dimensions
    &&& after.sets == w.sets
    &&& forall|n: Seq<char>| #[trigger]
        after.lines.kinds.contains_key(n) == (w.lines.kinds.contains_key(n) || names(n))
    &&& forall|n: Seq<char>|
        w.lines.kinds.contains_key(n) ==> #[trigger] after.lines.kinds[n] == w.lines.kinds[n]
    &&& forall|n: Seq<char>|
        names(n) && !w.lines.kinds.contains_key(n) ==> (#[trigger] after.lines.kinds[n])
            is UnfoundDimension
    &&& forall|e: ErrorModel| #[trigger]
        after.errors.contains(e) == (w.errors.contains(e) || (!s.skip_unique && e.reason
            == "duplicate field"@ && e.field is Some && names(e.field->0)
            && w.lines.kinds.contains_key(e.field->0) && w.lines.kinds[e.field->0] is Metric))
}

proof fn notes_of_names(s: Settings, w: WriterModel, names: Seq<Seq<char>>)
    ensures
        notes_taken(s, w, with_dimension_notes(s, w, names), |n: Seq<char>| names.contains(n)),
    decreases names.len(),
{
    let f = |n: Seq<char>| names.contains(n);
    let after = with_dimension_notes(s, w, names);
    if names.len() > 0 {
        let init = names.drop_last();
        let last = names.last();
        notes_of_names(s, w, init);
        let before = with_dimension_notes(s, w, init);
        let g = |n: Seq<char>| init.contains(n);
        assert forall|n: Seq<char>| #[trigger] names.contains(n) == (init.contains(n) || n
            == last) by {
            if init.contains(n) {
                let i = init.index_of(n);
                assert(names[i] == n);
            }
            if n == last {
                assert(names[names.len() - 1] == n);
            }
            if names.contains(n) {
                let i = names.index_of(n);
                if i < init.len() {
                    assert(init[i] == n);
                }
            }
        }
        assert forall|n: Seq<char>| #[trigger] after.lines.kinds.contains_key(n) == (
        w.lines.kinds.contains_key(n) || f(n)) by {
            assert(before.lines.kinds.contains_key(n) == (w.lines.kinds.contains_key(n) || g(n)));
        }
        assert forall|n: Seq<char>| w.lines.kinds.contains_key(n) implies
            #[trigger] after.lines.kinds[n] == w.lines.kinds[n] by {
            assert(before.lines.kinds[n] == w.lines.kinds[n]);
            assert(before.lines.kinds.contains_key(n));
        }
        assert forall|n: Seq<char>| f(n) && !w.lines.kinds.contains_key(n) implies (
        #[trigger] after.lines.kinds[n]) is UnfoundDimension by {
            if g(n) {
                assert(before.lines.kinds[n] is UnfoundDimension);
                assert(before.lines.kinds.contains_key(n));
            } else {
                assert(!before.lines.kinds.contains_key(n));
            }
        }
        let error = field_error(last, "duplicate field"@);
        let clash = before.lines.kinds.contains_key(last) && before.lines.kinds[last] is Metric
            && !s.skip_unique;
        assert(clash == (w.lines.kinds.contains_key(last) && w.lines.kinds[last] is Metric
            && !s.skip_unique)) by {
            if w.lines.kinds.contains_key(last) {
                assert(before.lines.kinds[last] == w.lines.kinds[last]);
                assert(before.lines.kinds.contains_key(last));
            } else if g(last) {
                assert(before.lines.kinds[last] is UnfoundDimension);
            }
        }
        assert forall|e: ErrorModel| #[trigger] after.errors.contains(e) == (w.errors.contains(e)
            || (!s.skip_unique && e.reason == "duplicate field"@ && e.field is Some && f(
            e.field->0,
        ) && w.lines.kinds.contains_key(e.field->0) && w.lines.kinds[e.field->0] is Metric)) by {
            assert(before.errors.contains(e) == (w.errors.contains(e) || (!s.skip_unique && e.reason
                == "duplicate field"@ && e.field is Some && g(e.field->0)
                && w.lines.kinds.contains_key(e.field->0) && w.lines.kinds[e.field->0]
                is Metric)));
            sum_holds(before.errors, seq![error], e);
            one_holds(error, e);
            assert(before.errors.push(error) =~= before.errors + seq![error]);
        }
    }
}

proof fn notes_of_sets(s: Settings, w: WriterModel, sets: Seq<Seq<Seq<char>>>)
    ensures
        notes_taken(
            s,
            w,
            with_dimension_set_notes(s, w, sets),
            |n: Seq<char>| is_in_sets(sets, n),
        ),
    decreases sets.len(),
{
    let f = |n: Seq<char>| is_in_sets(sets, n);
    let after = with_dimension_set_notes(s, w, sets);
    if sets.len() > 0 {
        let init = sets.drop_last();
        let last = sets.last();
        notes_of_sets(s, w, init);
        let before = with_dimension_set_notes(s, w, init);
        notes_of_names(s, before, last);
        let g = |n: Seq<char>| is_in_sets(init, n);
        let h = |n: Seq<char>| last.contains(n);
        assert forall|n: Seq<char>| #[trigger] is_in_sets(sets, n) == (is_in_sets(init, n)
            || last.contains(n)) by {
            sets_grow(sets, n);
        }
        assert forall|n: Seq<char>| #[trigger] after.lines.kinds.contains_key(n) == (
        w.lines.kinds.contains_key(n) || f(n)) by {
            assert(before.lines.kinds.contains_key(n) == (w.lines.kinds.contains_key(n) || g(n)));
            assert(after.lines.kinds.contains_key(n) == (before.lines.kinds.contains_key(n) || h(
                n,
            )));
        }
        assert forall|n: Seq<char>| w.lines.kinds.contains_key(n) implies
            #[trigger] after.lines.kinds[n] == w.lines.kinds[n] by {
            assert(before.lines.kinds.contains_key(n));
            assert(before.lines.kinds[n] == w.lines.kinds[n]);
        }
        assert forall|n: Seq<char>| f(n) && !w.lines.kinds.contains_key(n) implies (
        #[trigger] after.lines.kinds[n]) is UnfoundDimension by {
            if g(n) {
                assert(before.lines.kinds.contains_key(n));
                assert(before.lines.kinds[n] is UnfoundDimension);
            } else {
                assert(!before.lines.kinds.contains_key(n));
                assert(h(n));
            }
        }
        assert forall|e: ErrorModel| #[trigger] after.errors.contains(e) == (w.errors.contains(e)
            || (!s.skip_unique && e.reason == "duplicate field"@ && e.field is Some && f(
            e.field->0,
        ) && w.lines.kinds.contains_key(e.field->0) && w.lines.kinds[e.field->0] is Metric)) by {
            assert(before.errors.contains(e) == (w.errors.contains(e) || (!s.skip_unique && e.reason
                == "duplicate field"@ && e.field is Some && g(e.field->0)
                && w.lines.kinds.contains_key(e.field->0) && w.lines.kinds[e.field->0]
                is Metric)));
            if e.field is Some {
                let n = e.field->0;
                assert(before.lines.kinds.contains_key(n) == (w.lines.kinds.contains_key(n) || g(
                    n,
                )));
                if w.lines.kinds.contains_key(n) {
                    assert(before.lines.kinds[n] == w.lines.kinds[n]);
                } else if g(n) {
                    assert(before.lines.kinds[n] is UnfoundDimension);
                }
                assert(f(n) == (g(n) || h(n)));
            }
        }
    } else {
        assert forall|n: Seq<char>| !#[trigger] is_in_sets(sets, n) by {}
    }
}

/// A name is in one of the sets if it is in one of the first ones or in the last one.
proof fn sets_grow(sets: Seq<Seq<Seq<char>>>, name: Seq<char>)
    requires
        sets.len() > 0,
    ensures
        is_in_sets(sets, name) == (is_in_sets(sets.drop_last(), name) || sets.last().contains(
            name,
        )),
{
    let init = sets.drop_last();
    if is_in_sets(init, name) {
        let d = choose|d: int| 0 <= d < init.len() && (#[trigger] init[d]).contains(name);
        assert(sets[d].contains(name));
    }
    if sets.last().contains(name) {
        assert(sets[sets.len() - 1].contains(name));
    }
    if is_in_sets(sets, name) {
        let d = choose|d: int| 0 <= d < sets.len() && (#[trigger] sets[d]).contains(name);
        if d < init.len() {
            assert(init[d].contains(name));
        }
    }
}

// ---------------------------------------------------------------------------
// All items
// ---------------------------------------------------------------------------

/// Whether the list of names holds those that stand for something.
spec fn lists_names(lines: LinesModel) -> bool {
    forall|n: Seq<char>| #[trigger] lines.order.contains(n) == lines.kinds.contains_key(n)
}

/// Whether the writer has kept all that matters.
spec fn tells_all(s: Settings, items: Seq<ItemModel>, k: int, w: WriterModel) -> bool {
    &&& tells_history(s, items, k, w)
    &&& forall|n: Seq<char>| #[trigger] tells_meaning(s, items, k, w, n)
    &&& forall|e: ErrorModel| #[trigger] w.errors.contains(e) == has_error(s, items, k, e)
}

/// What one more item adds to the errors.
proof fn errors_grow(s: Settings, items: Seq<ItemModel>, k: int, e: ErrorModel)
    requires
        0 <= k < items.len(),
    ensures
        has_error(s, items, k + 1, e) == (has_error(s, items, k, e) || is_error_at(s, items, k, e)),
{
    if has_error(s, items, k, e) {
        let i = choose|i: int| 0 <= i < k && #[trigger] is_error_at(s, items, i, e);
        assert(is_error_at(s, items, i, e));
    }
}

/// An item that is neither a metric nor gives dimensions, and that no name is taken note for.
proof fn other_item(
    s: Settings,
    items: Seq<ItemModel>,
    k: int,
    w: WriterModel,
    after: WriterModel,
    errors: Seq<ErrorModel>,
)
    requires
        0 <= k < items.len(),
        tells_all(s, items, k, w),
        !is_apart(s, items[k]),
        !sets_dimensions(s, items, k),
        forall|n: Seq<char>|
            is_good_name(s, n) && takes_notes(s) ==> !#[trigger] is_text_of(items[k], n)
                && !is_metric_of(items[k], n),
        after.lines == w.lines,
        after.sets == w.sets,
        after.entry_dimensions == w.entry_dimensions,
        after.timestamp is Some == (w.timestamp is Some || items[k] is Timestamp),
        after.allow_split == (w.allow_split || items[k] == ItemModel::Config(
            ConfigModel::AllowSplitEntries,
        )),
        after.allow_unroutable == (w.allow_unroutable || items[k] == ItemModel::Config(
            ConfigModel::AllowUnroutableEntries,
        )),
        after.errors == w.errors + errors,
        forall|e: ErrorModel| #[trigger] errors.contains(e) == is_error_at(s, items, k, e),
    ensures
        tells_all(s, items, k + 1, after),
{
    history_grows(s, items, k);
    assert(tells_history(s, items, k + 1, after));
    assert forall|n: Seq<char>| #[trigger] tells_meaning(s, items, k + 1, after, n) by {
        assert(tells_meaning(s, items, k, w, n));
        meanings_grow(s, items, k, n);
        assert(is_good_name(s, n) && takes_notes(s) ==> !is_text_of(items[k], n));
        metrics_stay(s, items, k, w, after, n);
    }
    assert forall|e: ErrorModel| #[trigger] after.errors.contains(e) == has_error(
        s,
        items,
        k + 1,
        e,
    ) by {
        errors_grow(s, items, k, e);
        sum_holds(w.errors, errors, e);
        assert(w.errors.contains(e) == has_error(s, items, k, e));
    }
}

/// An item that is no metric leaves the metrics of a name where they are.
proof fn metrics_stay(
    s: Settings,
    items: Seq<ItemModel>,
    k: int,
    w: WriterModel,
    after: WriterModel,
    n: Seq<char>,
)
    requires
        0 <= k < items.len(),
        tells_meaning(s, items, k, w, n),
        is_good_name(s, n) && takes_notes(s) ==> !is_metric_of(items[k], n),
        w.lines.kinds.contains_key(n) && w.lines.kinds[n] is Metric
            ==> after.lines.kinds.contains_key(n) && after.lines.kinds[n] == w.lines.kinds[n],
        after.sets == w.sets,
    ensures
        w.lines.kinds.contains_key(n) && w.lines.kinds[n] is Metric ==> tells_places(
            s,
            items,
            k + 1,
            after,
            n,
            after.lines.kinds[n],
        ),
{
    if w.lines.kinds.contains_key(n) && w.lines.kinds[n] is Metric {
        let j = choose|j: int|
            0 <= j < k && #[trigger] counts_as_metric(s, items, j, n) && forall|i: int|
                0 <= i < j ==> !is_text_of(#[trigger] items[i], n);
        assert(counts_as_metric(s, items, j, n));
        assert(takes_notes(s));
        metrics_grow(s, items, k, n, Seq::empty());
        if let LineModel::Metric { global, sets } = w.lines.kinds[n] {
            assert forall|p: usize| #[trigger] sets.contains(p) == (p < after.sets.len()
                && has_metric_with(s, items, k + 1, n, after.sets[p as int].key)) by {
                metrics_grow(s, items, k, n, after.sets[p as int].key);
            }
        }
    }
}

/// A string, a list or an object.
proof fn property_step(
    s: Settings,
    items: Seq<ItemModel>,
    k: int,
    w: WriterModel,
    multiplicity: Option<u64>,
    name: Seq<char>,
    value: ValueModel,
)
    requires
        0 <= k < items.len(),
        tells_all(s, items, k, w),
        items[k] == ItemModel::Value(name, value),
        is_property(value),
        is_good_name(s, name),
    ensures
        tells_all(s, items, k + 1, with_item_written(s, w, items[k], multiplicity)),
{
    let after = with_item_written(s, w, items[k], multiplicity);
    assert(name_error(s, name) is None);
    history_grows(s, items, k);
    assert(tells_history(s, items, k + 1, after));
    assert(tells_meaning(s, items, k, w, name));
    one_meaning(s, items, k, name);
    let taken = w.lines.kinds.contains_key(name) && !(w.lines.kinds[name] is UnfoundDimension);
    assert(after.lines == (if takes_notes(s) && !taken {
        set_line(w.lines, name, LineModel::Text)
    } else {
        w.lines
    }));
    let errors = if takes_notes(s) && taken && !s.skip_unique {
        seq![field_error(name, "duplicate field"@)]
    } else {
        Seq::<ErrorModel>::empty()
    };
    assert(after.errors =~= w.errors + errors);
    assert forall|n: Seq<char>| #[trigger] tells_meaning(s, items, k + 1, after, n) by {
        assert(tells_meaning(s, items, k, w, n));
        meanings_grow(s, items, k, n);
        metrics_stay(s, items, k, w, after, n);
    }
    assert forall|e: ErrorModel| #[trigger] after.errors.contains(e) == has_error(
        s,
        items,
        k + 1,
        e,
    ) by {
        errors_grow(s, items, k, e);
        sum_holds(w.errors, errors, e);
        one_holds(field_error(name, "duplicate field"@), e);
        none_holds(e);
        assert(w.errors.contains(e) == has_error(s, items, k, e));
    }
}

/// Dimensions for the whole entry.
proof fn dimensions_step(
    s: Settings,
    items: Seq<ItemModel>,
    k: int,
    w: WriterModel,
    multiplicity: Option<u64>,
    sets: Seq<Seq<Seq<char>>>,
)
    requires
        0 <= k < items.len(),
        tells_all(s, items, k, w),
        items[k] == ItemModel::Config(ConfigModel::EntryDimensions(sets)),
    ensures
        tells_all(s, items, k + 1, with_item_written(s, w, items[k], multiplicity)),
{
    let after = with_item_written(s, w, items[k], multiplicity);
    history_grows(s, items, k);
    if w.sets.len() > 0 || w.entry_dimensions is Some || sets.len() == 0 {
        let errors = seq![after.errors.last()];
        assert(after.errors =~= w.errors + errors);
        assert forall|e: ErrorModel| #[trigger] errors.contains(e) == is_error_at(
            s,
            items,
            k,
            e,
        ) by {
            one_holds(errors[0], e);
        }
        other_item(s, items, k, w, after, errors);
    } else {
        notes_of_sets(s, w, sets);
        let f = |n: Seq<char>| is_in_sets(sets, n);
        let noted = with_dimension_set_notes(s, w, sets);
        assert(sets_dimensions(s, items, k));
        assert(tells_history(s, items, k + 1, after));
        assert forall|n: Seq<char>| #[trigger] tells_meaning(s, items, k + 1, after, n) by {
            assert(tells_meaning(s, items, k, w, n));
            meanings_grow(s, items, k, n);
            assert(lists_dimension(items[k], n) == f(n));
            if takes_notes(s) {
                assert(noted.lines.kinds.contains_key(n) == (w.lines.kinds.contains_key(n) || f(
                    n,
                )));
                if w.lines.kinds.contains_key(n) {
                    assert(noted.lines.kinds[n] == w.lines.kinds[n]);
                } else if f(n) {
                    assert(noted.lines.kinds[n] is UnfoundDimension);
                }
            }
            metrics_stay(s, items, k, w, after, n);
        }
        assert forall|e: ErrorModel| #[trigger] after.errors.contains(e) == has_error(
            s,
            items,
            k + 1,
            e,
        ) by {
            errors_grow(s, items, k, e);
            assert(w.errors.contains(e) == has_error(s, items, k, e));
            if e.field is Some {
                assert(tells_meaning(s, items, k, w, e.field->0));
                assert(f(e.field->0) == is_in_sets(sets, e.field->0));
            }
            if takes_notes(s) {
                assert(after.errors == noted.errors);
                assert(noted.errors.contains(e) == (w.errors.contains(e) || (!s.skip_unique
                    && e.reason == "duplicate field"@ && e.field is Some && f(e.field->0)
                    && w.lines.kinds.contains_key(e.field->0) && w.lines.kinds[e.field->0]
                    is Metric)));
            }
        }
    }
}

/// One more item.
proof fn item_step(
    s: Settings,
    items: Seq<ItemModel>,
    k: int,
    w: WriterModel,
    multiplicity: Option<u64>,
)
    requires
        0 <= k < items.len() <= usize::MAX,
        tells_all(s, items, k, w),
    ensures
        tells_all(s, items, k + 1, with_item_written(s, w, items[k], multiplicity)),
{
    let after = with_item_written(s, w, items[k], multiplicity);
    match items[k] {
        ItemModel::Timestamp(_) => {
            let error = crate::validate::plain_error("multiple timestamps written"@);
            let errors = if w.timestamp is Some {
                seq![error]
            } else {
                Seq::empty()
            };
            assert(after.errors =~= w.errors + errors);
            assert forall|e: ErrorModel| #[trigger] errors.contains(e) == is_error_at(
                s,
                items,
                k,
                e,
            ) by {
                one_holds(error, e);
                none_holds(e);
            }
            other_item(s, items, k, w, after, errors);
        },
        ItemModel::Config(ConfigModel::EntryDimensions(sets)) => {
            dimensions_step(s, items, k, w, multiplicity, sets);
        },
        ItemModel::Config(_) => {
            assert(after.errors =~= w.errors + Seq::<ErrorModel>::empty());
            other_item(s, items, k, w, after, Seq::empty());
        },
        ItemModel::Value(name, value) => {
            if !is_good_name(s, name) || value is Nothing || value is Error {
                let errors = if is_good_name(s, name) && value is Nothing {
                    Seq::<ErrorModel>::empty()
                } else {
                    seq![after.errors.last()]
                };
                assert(after.errors =~= w.errors + errors);
                reveal_strlit("");
                assert(name.len() == 0 ==> name =~= ""@);
                assert forall|e: ErrorModel| #[trigger] errors.contains(e) == is_error_at(
                    s,
                    items,
                    k,
                    e,
                ) by {
                    one_holds(after.errors.last(), e);
                    none_holds(e);
                }
                other_item(s, items, k, w, after, errors);
            } else if let ValueModel::Metric(m) = value {
                metric_history(s, items, k, w, multiplicity, name, m);
                assert forall|n: Seq<char>| #[trigger] tells_meaning(s, items, k + 1, after, n) by {
                    assert(tells_meaning(s, items, k, w, n));
                    metric_meaning(s, items, k, w, multiplicity, name, m, n);
                }
                assert forall|e: ErrorModel| #[trigger] after.errors.contains(e) == has_error(
                    s,
                    items,
                    k + 1,
                    e,
                ) by {
                    assert(tells_meaning(s, items, k, w, name));
                    metric_errors(s, items, k, w, multiplicity, name, m, e);
                    errors_grow(s, items, k, e);
                    assert(w.errors.contains(e) == has_error(s, items, k, e));
                }
            } else {
                property_step(s, items, k, w, multiplicity, name, value);
            }
        },
    }
}

proof fn names_listed(lines: LinesModel, name: Seq<char>, kind: LineModel)
    requires
        lists_names(lines),
    ensures
        lists_names(set_line(lines, name, kind)),
{
    let after = set_line(lines, name, kind);
    assert forall|n: Seq<char>| #[trigger] after.order.contains(n) == after.kinds.contains_key(
        n,
    ) by {
        assert(lines.order.contains(n) == lines.kinds.contains_key(n));
        if lines.order.contains(n) {
            let i = lines.order.index_of(n);
            assert(after.order[i] == n);
        }
        if !lines.kinds.contains_key(name) {
            assert(after.order[lines.order.len() as int] == name);
        }
        if after.order.contains(n) {
            let i = after.order.index_of(n);
            if i < lines.order.len() {
                assert(lines.order[i] == n);
                assert(lines.order.contains(n));
            }
        }
    }
}

proof fn names_listed_by_notes(s: Settings, w: WriterModel, names: Seq<Seq<char>>)
    requires
        lists_names(w.lines),
    ensures
        lists_names(with_dimension_notes(s, w, names).lines),
    decreases names.len(),
{
    if names.len() > 0 {
        names_listed_by_notes(s, w, names.drop_last());
        let before = with_dimension_notes(s, w, names.drop_last());
        names_listed(before.lines, names.last(), LineModel::UnfoundDimension);
    }
}

proof fn names_listed_by_set_notes(s: Settings, w: WriterModel, sets: Seq<Seq<Seq<char>>>)
    requires
        lists_names(w.lines),
    ensures
        lists_names(with_dimension_set_notes(s, w, sets).lines),
    decreases sets.len(),
{
    if sets.len() > 0 {
        names_listed_by_set_notes(s, w, sets.drop_last());
        let before = with_dimension_set_notes(s, w, sets.drop_last());
        names_listed_by_notes(s, before, sets.last());
    }
}

proof fn names_listed_by_item(
    s: Settings,
    items: Seq<ItemModel>,
    k: int,
    w: WriterModel,
    multiplicity: Option<u64>,
)
    requires
        0 <= k < items.len() <= usize::MAX,
        tells_history(s, items, k, w),
        lists_names(w.lines),
    ensures
        lists_names(with_item_written(s, w, items[k], multiplicity).lines),
{
    match items[k] {
        ItemModel::Config(ConfigModel::EntryDimensions(sets)) => {
            names_listed_by_set_notes(s, w, sets);
        },
        ItemModel::Value(name, value) => {
            names_listed(w.lines, name, LineModel::Text);
            if let ValueModel::Metric(m) = value {
                if is_good_name(s, name) {
                    metric_effect(s, items, k, w, multiplicity, name, m);
                    let place = place_of(s, w, m);
                    names_listed(w.lines, name, standing_in(false, Set::empty(), place));
                    if let LineModel::Metric { global, sets } = w.lines.kinds[name] {
                        names_listed(w.lines, name, standing_in(global, sets, place));
                    }
                }
            }
        },
        _ => {},
    }
}

proof fn names_expected(lines: LinesModel, names: Seq<Seq<char>>, n: Seq<char>)
    requires
        lists_names(lines),
    ensures
        ({
            let after = expecting(lines, names);
            &&& lists_names(after)
            &&& after.kinds.contains_key(n) == (lines.kinds.contains_key(n) || names.contains(n))
            &&& after.kinds.contains_key(n) && (lines.kinds.contains_key(n) ==> lines.kinds[n]
                is UnfoundDimension) ==> after.kinds[n] is UnfoundDimension
        }),
    decreases names.len(),
{
    if names.len() > 0 {
        let init = names.drop_last();
        names_expected(lines, init, n);
        names_expected(lines, init, names.last());
        names_listed(expecting(lines, init), names.last(), LineModel::UnfoundDimension);
        if init.contains(n) {
            assert(names[init.index_of(n)] == n);
        }
        if n == names.last() {
            assert(names[names.len() - 1] == n);
        }
        if names.contains(n) {
            let i = names.index_of(n);
            if i < init.len() {
                assert(init[i] == n);
            }
        }
    }
}

proof fn sets_expected(lines: LinesModel, sets: Seq<Seq<Seq<char>>>, n: Seq<char>)
    requires
        lists_names(lines),
    ensures
        ({
            let after = expecting_sets(lines, sets);
            &&& lists_names(after)
            &&& after.kinds.contains_key(n) == (lines.kinds.contains_key(n) || is_in_sets(sets, n))
            &&& after.kinds.contains_key(n) && (lines.kinds.contains_key(n) ==> lines.kinds[n]
                is UnfoundDimension) ==> after.kinds[n] is UnfoundDimension
        }),
    decreases sets.len(),
{
    if sets.len() > 0 {
        sets_expected(lines, sets.drop_last(), n);
        names_expected(expecting_sets(lines, sets.drop_last()), sets.last(), n);
        sets_grow(sets, n);
    }
}

/// Before the first item nothing but the dimensions of all entries is known.
proof fn before_all_items(s: Settings, items: Seq<ItemModel>)
    ensures
        tells_all(s, items, 0, fresh(initial_lines(s))),
        lists_names(initial_lines(s)),
{
    let w = fresh(initial_lines(s));
    assert(lists_names(no_lines()));
    sets_expected(no_lines(), s.dimensions, Seq::empty());
    assert forall|n: Seq<char>| #[trigger] tells_meaning(s, items, 0, w, n) by {
        sets_expected(no_lines(), s.dimensions, n);
    }
}

/// The writer keeps all that matters.
proof fn after_items(s: Settings, items: Seq<ItemModel>, multiplicity: Option<u64>, k: int)
    requires
        0 <= k <= items.len() <= usize::MAX,
    ensures
        tells_all(
            s,
            items,
            k,
            with_items_written(s, fresh(initial_lines(s)), items.take(k), multiplicity),
        ),
        lists_names(
            with_items_written(s, fresh(initial_lines(s)), items.take(k), multiplicity).lines,
        ),
    decreases k,
{
    if k == 0 {
        before_all_items(s, items);
        assert(items.take(0) =~= Seq::empty());
    } else {
        after_items(s, items, multiplicity, k - 1);
        let before = with_items_written(
            s,
            fresh(initial_lines(s)),
            items.take(k - 1),
            multiplicity,
        );
        assert(items.take(k).drop_last() =~= items.take(k - 1));
        assert(items.take(k).last() == items[k - 1]);
        item_step(s, items, k - 1, before, multiplicity);
        names_listed_by_item(s, items, k - 1, before, multiplicity);
    }
}

/// A dimension is missing if it was not filled in.
proof fn dimensions_missing(lines: LinesModel, names: Seq<Seq<char>>, e: ErrorModel)
    ensures
        missing_dimensions(lines, names).contains(e) == (e.field is Some && names.contains(
            e.field->0,
        ) && lines.kinds[e.field->0] is UnfoundDimension && e.reason == "missing dimension"@),
    decreases names.len(),
{
    if names.len() > 0 {
        let init = names.drop_last();
        let last = names.last();
        dimensions_missing(lines, init, e);
        let before = missing_dimensions(lines, init);
        let error = field_error(last, "missing dimension"@);
        sum_holds(before, seq![error], e);
        one_holds(error, e);
        assert(before.push(error) =~= before + seq![error]);
        if e.field is Some {
            let n = e.field->0;
            if init.contains(n) {
                assert(names[init.index_of(n)] == n);
            }
            if n == last {
                assert(names[names.len() - 1] == n);
            }
            if names.contains(n) {
                let i = names.index_of(n);
                if i < init.len() {
                    assert(init[i] == n);
                }
            }
        }
    } else {
        none_holds(e);
    }
}

/// An entry is refused for just these errors: those of its items, each judged by the items before it,
/// and the dimensions that it lacks. An entry without any is written.
pub proof fn entries_are_refused_for_their_errors(
    s: Settings,
    items: Seq<ItemModel>,
    multiplicity: Option<u64>,
    now: i128,
)
    requires
        items.len() <= usize::MAX,
    ensures
        formatted(s, items, multiplicity, now) is Err <==> exists|e: ErrorModel|
            is_refused_for(s, items, e),
        formatted(s, items, multiplicity, now) matches Err(errors) ==> forall|e: ErrorModel|
            #[trigger] errors.contains(e) <==> is_refused_for(s, items, e),
{
    let n = items.len() as int;
    after_items(s, items, multiplicity, n);
    assert(items.take(n) =~= items);
    let w = with_items_written(s, fresh(initial_lines(s)), items, multiplicity);
    let errors = all_errors(s, w);
    assert forall|e: ErrorModel| #[trigger] errors.contains(e) <==> is_refused_for(s, items, e) by {
        assert(w.errors.contains(e) == has_error(s, items, n, e));
        dimensions_missing(w.lines, w.lines.order, e);
        sum_holds(w.errors, missing_dimensions(w.lines, w.lines.order), e);
        if e.field is Some {
            let name = e.field->0;
            assert(tells_meaning(s, items, n, w, name));
            assert(w.lines.order.contains(name) == w.lines.kinds.contains_key(name));
            one_meaning(s, items, n, name);
        }
    }
    if errors.len() > 0 {
        assert(errors.contains(errors[0]));
        assert(is_refused_for(s, items, errors[0]));
    }
    if exists|e: ErrorModel| is_refused_for(s, items, e) {
        let e = choose|e: ErrorModel| is_refused_for(s, items, e);
        assert(errors.contains(e));
    }
}

} // verus!
