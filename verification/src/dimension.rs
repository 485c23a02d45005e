//! Values and entries with dimensions added to their metrics.

use vstd::hash_set::StringHashSet;
use vstd::prelude::*;
use vstd::string::*;

use crate::entry::{item_models, Entry, EntryItem, ItemModel};
use crate::traits::{MetricValue, Value};
use crate::value::{pairs, MetricModel, ValueModel, WrittenValue};

verus! {

/// Names and instances of dimensions, in a small vector of the `smallvec` crate.
#[verifier::external_body]
#[derive(Debug)]
pub struct PairList {
    list: smallvec::SmallVec<[(String, String); 1]>,
}

/// The dimensions that a list holds.
pub uninterp spec fn pair_items(list: PairList) -> Seq<(Seq<char>, Seq<char>)>;

/// `smallvec::SmallVec::from_vec` makes a list of the items of a vector.
#[verifier::external_body]
fn pair_list_from(items: Vec<(String, String)>) -> (res: PairList)
    ensures
        pair_items(res) == pairs(items@),
{
    PairList { list: smallvec::SmallVec::from_vec(items) }
}

/// `smallvec::SmallVec::push` puts an item after all others.
#[verifier::external_body]
fn push_pair(list: &mut PairList, name: String, instance: String)
    ensures
        pair_items(*final(list)) == pair_items(*old(list)).push((name@, instance@)),
{
    list.list.push((name, instance));
}

/// `smallvec::SmallVec::clear` removes all items.
#[verifier::external_body]
fn clear_pairs(list: &mut PairList)
    ensures
        pair_items(*final(list)).len() == 0,
{
    list.list.clear();
}

/// `smallvec::SmallVec::as_slice` gives the items in order.
#[verifier::external_body]
fn pairs_slice(list: &PairList) -> (res: &[(String, String)])
    ensures
        pairs(res@) == pair_items(*list),
{
    list.list.as_slice()
}

/// What is written with dimensions added: they come after those that a metric has already.
/// Everything else stays as it is.
pub open spec fn with_dimensions(value: ValueModel, dimensions: Seq<(Seq<char>, Seq<char>)>)
    -> ValueModel {
    match value {
        ValueModel::Metric(m) => ValueModel::Metric(
            MetricModel { dimensions: m.dimensions + dimensions, ..m },
        ),
        _ => value,
    }
}

/// Adds dimensions to what a value writes.
fn add_dimensions(written: WrittenValue, dimensions: &[(String, String)]) -> (res: WrittenValue)
    ensures
        res@ == with_dimensions(written@, pairs(dimensions@)),
{
    match written {
        WrittenValue::Metric(m) => {
            let mut m = m;
            let ghost before = m@;
            let ghost own = pairs(dimensions@);
            assert(before.dimensions + own.take(0) =~= before.dimensions);
            for i in 0..dimensions.len()
                invariant
                    own == pairs(dimensions@),
                    m@ == (MetricModel {
                        dimensions: before.dimensions + own.take(i as int),
                        ..before
                    }),
            {
                let ghost earlier = m@.dimensions;
                m.dimensions.push((dimensions[i].0.clone(), dimensions[i].1.clone()));
                proof {
                    assert(m@.dimensions =~= earlier.push(own[i as int]));
                    assert(before.dimensions + own.take(i + 1) =~= earlier.push(own[i as int]));
                }
            }
            assert(own.take(own.len() as int) =~= own);
            WrittenValue::Metric(m)
        },
        other => other,
    }
}

/// A value or an entry whose metrics have dimensions added. `N` is the number of dimensions that
/// are expected.
#[derive(Debug)]
pub struct WithDimensions<V, const N: usize> {
    value: V,
    dimensions: PairList,
}

/// A value with one dimension added.
pub type WithDimension<V> = WithDimensions<V, 1>;

/// A value with any number of dimensions added.
pub type WithVecDimensions<V> = WithDimensions<V, 0>;

impl<V, const N: usize> WithDimensions<V, N> {
    /// The value itself.
    pub closed spec fn inner(self) -> V {
        self.value
    }

    /// The dimensions that are added.
    pub closed spec fn added(self) -> Seq<(Seq<char>, Seq<char>)> {
        pair_items(self.dimensions)
    }

    /// A value with no dimensions added.
    pub fn new_const(value: V) -> (w: Self)
        ensures
            w.inner() == value,
            w.added().len() == 0,
    {
        WithDimensions { value, dimensions: pair_list_from(Vec::new()) }
    }

    /// A value with dimensions added.
    pub fn new_with_dimensions(value: V, dimensions: Vec<(String, String)>) -> (w: Self)
        ensures
            w.inner() == value,
            w.added() == pairs(dimensions@),
    {
        WithDimensions { value, dimensions: pair_list_from(dimensions) }
    }

    /// The dimensions that are added.
    pub fn dimensions(&self) -> (list: &[(String, String)])
        ensures
            pairs(list@) == self.added(),
    {
        pairs_slice(&self.dimensions)
    }

    /// Adds one more dimension.
    pub fn add_dimension(&mut self, key: String, value: String)
        ensures
            final(self).inner() == old(self).inner(),
            final(self).added() == old(self).added().push((key@, value@)),
    {
        push_pair(&mut self.dimensions, key, value);
    }

    /// Takes back all dimensions that were added.
    pub fn clear_dimensions(&mut self)
        ensures
            final(self).inner() == old(self).inner(),
            final(self).added().len() == 0,
    {
        clear_pairs(&mut self.dimensions);
    }

    /// Another value with the same dimensions added: what `f` makes of this one.
    pub fn map_value<U, F: Fn(V) -> U>(self, f: F) -> (w: WithDimensions<U, N>)
        requires
            call_requires(f, (self.inner(),)),
        ensures
            call_ensures(f, (self.inner(),), w.inner()),
            w.added() == self.added(),
    {
        WithDimensions { value: f(self.value), dimensions: self.dimensions }
    }

    /// The value itself.
    pub fn as_inner(&self) -> (value: &V)
        ensures
            *value == self.inner(),
    {
        &self.value
    }

    /// What an entry hands over, with the dimensions added to each of its values.
    pub fn entry_writer_wrapper(&self, items: Vec<EntryItem>) -> (res: Vec<EntryItem>)
        ensures
            item_models(res@) == items_with_dimensions(
                item_models(items@),
                self.added(),
                |n: Seq<char>| false,
            ),
    {
        items_with(items, self.dimensions(), &StringHashSet::new())
    }
}

impl<V> WithDimensions<V, 1> {
    /// A value with one dimension added.
    pub fn new(value: V, class: String, instance: String) -> (w: Self)
        ensures
            w.inner() == value,
            w.added() == seq![(class@, instance@)],
    {
        let w = Self::new_with_dimensions(value, vec![(class, instance)]);
        assert(w.added() =~= seq![(class@, instance@)]);
        w
    }
}

impl<V, const N: usize> From<V> for WithDimensions<V, N> {
    /// A value with no dimensions added.
    fn from(value: V) -> (w: Self)
        ensures
            w.inner() == value,
            w.added().len() == 0,
    {
        Self::new_const(value)
    }
}

impl<V, const N: usize> vstd::std_specs::convert::FromSpecImpl<V> for WithDimensions<V, N> {
    open spec fn obeys_from_spec() -> bool {
        false
    }

    open spec fn from_spec(value: V) -> Self {
        arbitrary()
    }
}

impl<V: Value, const N: usize> Value for WithDimensions<V, N> {
    open spec fn model(&self) -> ValueModel {
        with_dimensions(self.inner().model(), self.added())
    }

    fn write(&self) -> (written: WrittenValue) {
        add_dimensions(self.value.write(), self.dimensions())
    }
}

impl<V: MetricValue, const N: usize> MetricValue for WithDimensions<V, N> {
    type Unit = V::Unit;
}

/// An item with dimensions added to its value, unless its name is excepted.
pub open spec fn item_with_dimensions(
    item: ItemModel,
    dimensions: Seq<(Seq<char>, Seq<char>)>,
    excepted: spec_fn(Seq<char>) -> bool,
) -> ItemModel {
    match item {
        ItemModel::Value(name, value) => if excepted(name) {
            item
        } else {
            ItemModel::Value(name, with_dimensions(value, dimensions))
        },
        _ => item,
    }
}

/// The items of an entry with dimensions added to their values, except under some names.
pub open spec fn items_with_dimensions(
    items: Seq<ItemModel>,
    dimensions: Seq<(Seq<char>, Seq<char>)>,
    excepted: spec_fn(Seq<char>) -> bool,
) -> Seq<ItemModel> {
    items.map_values(|i: ItemModel| item_with_dimensions(i, dimensions, excepted))
}

/// The items of an entry with dimensions added to their values, except under the names in a list.
fn items_with(items: Vec<EntryItem>, dimensions: &[(String, String)], denylist: &StringHashSet) -> (res:
    Vec<EntryItem>)
    ensures
        item_models(res@) == items_with_dimensions(
            item_models(items@),
            pairs(dimensions@),
            |n: Seq<char>| denylist@.contains(n),
        ),
{
    let ghost list = items@;
    let ghost goal = items_with_dimensions(
        item_models(list),
        pairs(dimensions@),
        |n: Seq<char>| denylist@.contains(n),
    );
    let mut rest = items;
    let mut res: Vec<EntryItem> = Vec::new();
    let ghost mut k: int = 0;
    assert(rest@ =~= list.skip(0));
    assert(item_models(res@) =~= goal.take(0));
    while rest.len() > 0
        invariant
            goal == items_with_dimensions(
                item_models(list),
                pairs(dimensions@),
                |n: Seq<char>| denylist@.contains(n),
            ),
            0 <= k <= list.len(),
            rest@ == list.skip(k),
            item_models(res@) == goal.take(k),
        decreases rest.len(),
    {
        let ghost before = res@;
        let item = rest.remove(0);
        assert(item == list[k]);
        let item = match item {
            EntryItem::Value(name, value) => {
                if denylist.contains(name.as_str()) {
                    EntryItem::Value(name, value)
                } else {
                    EntryItem::Value(name, add_dimensions(value, dimensions))
                }
            },
            other => other,
        };
        let ghost model = item@;
        res.push(item);
        proof {
            assert(model == goal[k]);
            assert(item_models(res@) =~= item_models(before).push(model));
            assert(goal.take(k + 1) =~= goal.take(k).push(goal[k]));
            assert(rest@ =~= list.skip(k + 1));
            k = k + 1;
        }
    }
    assert(goal.take(k) =~= goal);
    res
}

impl<E: Entry, const N: usize> Entry for WithDimensions<E, N> {
    open spec fn items(&self) -> Seq<ItemModel> {
        items_with_dimensions(self.inner().items(), self.added(), |n: Seq<char>| false)
    }

    fn write(&self) -> (items: Vec<EntryItem>) {
        self.entry_writer_wrapper(self.value.write())
    }
}

/// An entry whose metrics have dimensions added, except under the names of a denylist. `N` is the
/// number of dimensions that are expected.
pub struct WithGlobalDimensions<E, const N: usize> {
    entry: E,
    global_dimensions: PairList,
    global_dimensions_denylist: StringHashSet,
}

/// The texts in a list of strings, without their order.
pub open spec fn text_set(list: Seq<String>) -> Set<Seq<char>>
    decreases list.len(),
{
    if list.len() == 0 {
        Set::empty()
    } else {
        text_set(list.drop_last()).insert(list.last()@)
    }
}

impl<E, const N: usize> WithGlobalDimensions<E, N> {
    /// The entry itself.
    pub closed spec fn inner(self) -> E {
        self.entry
    }

    /// The dimensions that are added.
    pub closed spec fn added(self) -> Seq<(Seq<char>, Seq<char>)> {
        pair_items(self.global_dimensions)
    }

    /// The names that no dimensions are added under.
    pub closed spec fn denied(self) -> Set<Seq<char>> {
        self.global_dimensions_denylist@
    }

    /// An entry with dimensions added, except under the names of a denylist.
    pub fn new_with_global_dimensions(
        entry: E,
        global_dimensions: Vec<(String, String)>,
        global_dimensions_denylist: Vec<String>,
    ) -> (w: Self)
        ensures
            w.inner() == entry,
            w.added() == pairs(global_dimensions@),
            w.denied() == text_set(global_dimensions_denylist@),
    {
        let names = global_dimensions_denylist;
        let mut denylist = StringHashSet::new();
        for i in 0..names.len()
            invariant
                denylist@ == text_set(names@.take(i as int)),
        {
            assert(names@.take(i + 1).drop_last() =~= names@.take(i as int));
            denylist.insert(names[i].clone());
        }
        assert(names@.take(names@.len() as int) =~= names@);
        WithGlobalDimensions {
            entry,
            global_dimensions: pair_list_from(global_dimensions),
            global_dimensions_denylist: denylist,
        }
    }

    /// The dimensions that are added.
    pub fn global_dimensions(&self) -> (list: &[(String, String)])
        ensures
            pairs(list@) == self.added(),
    {
        pairs_slice(&self.global_dimensions)
    }

    /// The names that no dimensions are added under.
    pub fn global_dimensions_denylist(&self) -> (names: &StringHashSet)
        ensures
            names@ == self.denied(),
    {
        &self.global_dimensions_denylist
    }

    /// Adds one more dimension.
    pub fn add_global_dimension(&mut self, class: String, instance: String)
        ensures
            final(self).inner() == old(self).inner(),
            final(self).added() == old(self).added().push((class@, instance@)),
            final(self).denied() == old(self).denied(),
    {
        push_pair(&mut self.global_dimensions, class, instance);
    }

    /// Takes back all dimensions that were added.
    pub fn clear_global_dimensions(&mut self)
        ensures
            final(self).inner() == old(self).inner(),
            final(self).added().len() == 0,
            final(self).denied() == old(self).denied(),
    {
        clear_pairs(&mut self.global_dimensions);
    }

    /// Lets dimensions be added under all names.
    pub fn clear_global_dimensions_denylist(&mut self)
        ensures
            final(self).inner() == old(self).inner(),
            final(self).added() == old(self).added(),
            final(self).denied() == Set::<Seq<char>>::empty(),
    {
        self.global_dimensions_denylist.clear();
    }

    /// The entry itself.
    pub fn as_inner(&self) -> (entry: &E)
        ensures
            *entry == self.inner(),
    {
        &self.entry
    }
}

impl<E, const N: usize> From<E> for WithGlobalDimensions<E, N> {
    /// An entry with no dimensions added, and none denied.
    fn from(entry: E) -> (w: Self)
        ensures
            w.inner() == entry,
            w.added().len() == 0,
            w.denied() == Set::<Seq<char>>::empty(),
    {
        WithGlobalDimensions {
            entry,
            global_dimensions: pair_list_from(Vec::new()),
            global_dimensions_denylist: StringHashSet::new(),
        }
    }
}

impl<E, const N: usize> vstd::std_specs::convert::FromSpecImpl<E> for WithGlobalDimensions<E, N> {
    open spec fn obeys_from_spec() -> bool {
        false
    }

    open spec fn from_spec(entry: E) -> Self {
        arbitrary()
    }
}

impl<E: Entry, const N: usize> Entry for WithGlobalDimensions<E, N> {
    open spec fn items(&self) -> Seq<ItemModel> {
        items_with_dimensions(
            self.inner().items(),
            self.added(),
            |n: Seq<char>| self.denied().contains(n),
        )
    }

    fn write(&self) -> (items: Vec<EntryItem>) {
        items_with(
            self.entry.write(),
            pairs_slice(&self.global_dimensions),
            &self.global_dimensions_denylist,
        )
    }
}

/// Adding dimensions and then more of them is adding all of them, in that order; adding none
/// changes nothing.
pub proof fn adding_dimensions(
    value: ValueModel,
    first: Seq<(Seq<char>, Seq<char>)>,
    second: Seq<(Seq<char>, Seq<char>)>,
)
    ensures
        with_dimensions(with_dimensions(value, first), second) == with_dimensions(
            value,
            first + second,
        ),
        with_dimensions(value, Seq::empty()) == value,
        !(value is Metric) ==> with_dimensions(value, first) == value,
{
    if let ValueModel::Metric(m) = value {
        assert(m.dimensions + first + second =~= m.dimensions + (first + second));
        assert(m.dimensions + Seq::empty() =~= m.dimensions);
    }
}

/// Nothing is added to a value under a name of the denylist, nor to timestamps and settings; the
/// items of an entry stay in their order.
pub proof fn denied_names_are_left_alone(
    items: Seq<ItemModel>,
    dimensions: Seq<(Seq<char>, Seq<char>)>,
    denied: Set<Seq<char>>,
    i: int,
)
    requires
        0 <= i < items.len(),
        items[i] matches ItemModel::Value(name, _) ==> denied.contains(name),
    ensures
        items_with_dimensions(items, dimensions, |n: Seq<char>| denied.contains(n)).len()
            == items.len(),
        items_with_dimensions(items, dimensions, |n: Seq<char>| denied.contains(n))[i] == items[i],
{
}

/// A metric with dimensions added has those that it had, and after them those that were added, each
/// once; its observations, its unit and its flags are what they were.
pub proof fn added_dimensions_come_last(
    value: ValueModel,
    m: MetricModel,
    dimensions: Seq<(Seq<char>, Seq<char>)>,
)
    requires
        value == ValueModel::Metric(m),
    ensures
        with_dimensions(value, dimensions) matches ValueModel::Metric(n) && {
            &&& n.dimensions.len() == m.dimensions.len() + dimensions.len()
            &&& forall|i: int|
                0 <= i < m.dimensions.len() ==> #[trigger] n.dimensions[i] == m.dimensions[i]
            &&& forall|i: int|
                0 <= i < dimensions.len() ==> n.dimensions[m.dimensions.len() + i]
                    == #[trigger] dimensions[i]
            &&& n.distribution == m.distribution
            &&& n.unit == m.unit
            &&& n.flags == m.flags
        },
{
}

/// Dimensions are added to each metric of an entry that is not under a name of the denylist, and the
/// metric stays where it is.
pub proof fn other_names_have_dimensions_added(
    items: Seq<ItemModel>,
    dimensions: Seq<(Seq<char>, Seq<char>)>,
    denied: Set<Seq<char>>,
    i: int,
    name: Seq<char>,
    m: MetricModel,
)
    requires
        0 <= i < items.len(),
        items[i] == ItemModel::Value(name, ValueModel::Metric(m)),
        !denied.contains(name),
    ensures
        ({
            let after = items_with_dimensions(
                items,
                dimensions,
                |n: Seq<char>| denied.contains(n),
            );
            &&& after.len() == items.len()
            &&& after[i] matches ItemModel::Value(n, ValueModel::Metric(k)) && n == name
                && k.dimensions == m.dimensions + dimensions && k.distribution == m.distribution
                && k.unit == m.unit && k.flags == m.flags
        }),
{
}

/// The names of a denylist are all of those that it was made of, and no others.
pub proof fn denied_names(list: Seq<String>, name: Seq<char>)
    ensures
        text_set(list).contains(name) <==> exists|i: int|
            0 <= i < list.len() && (#[trigger] list[i])@ == name,
    decreases list.len(),
{
    if list.len() > 0 {
        let init = list.drop_last();
        denied_names(init, name);
        assert(list[list.len() - 1] == list.last());
        if exists|i: int| 0 <= i < init.len() && (#[trigger] init[i])@ == name {
            let i = choose|i: int| 0 <= i < init.len() && (#[trigger] init[i])@ == name;
            assert(list[i]@ == name);
        }
        if exists|i: int| 0 <= i < list.len() && (#[trigger] list[i])@ == name {
            let i = choose|i: int| 0 <= i < list.len() && (#[trigger] list[i])@ == name;
            if i < init.len() {
                assert(init[i]@ == name);
            }
        }
    }
}

/// A value with dimensions added writes the metric that the value itself writes, with those dimensions
/// after its own; anything else it writes as the value itself does.
pub proof fn values_have_dimensions_added<V: Value, const N: usize>(w: WithDimensions<V, N>)
    ensures
        w.inner().model() matches ValueModel::Metric(m) ==> (w.model() matches ValueModel::Metric(n)
            && n.dimensions == m.dimensions + w.added() && n.distribution == m.distribution
            && n.unit == m.unit && n.flags == m.flags),
        !(w.inner().model() is Metric) ==> w.model() == w.inner().model(),
{
}

/// Whether an item is another with dimensions added: a metric has them after its own, anything else
/// stays as it is.
pub open spec fn has_added(
    before: ItemModel,
    dimensions: Seq<(Seq<char>, Seq<char>)>,
    after: ItemModel,
) -> bool {
    match before {
        ItemModel::Value(name, ValueModel::Metric(m)) => after matches ItemModel::Value(
            n,
            ValueModel::Metric(k),
        ) && n == name && k.dimensions == m.dimensions + dimensions && k.distribution
            == m.distribution && k.unit == m.unit && k.flags == m.flags,
        _ => after == before,
    }
}

/// An entry with dimensions added hands over what the entry itself does, in order, with the dimensions
/// added to each metric.
pub proof fn entries_have_dimensions_added<E: Entry, const N: usize>(w: WithDimensions<E, N>)
    ensures
        w.items().len() == w.inner().items().len(),
        forall|i: int|
            0 <= i < w.inner().items().len() ==> has_added(
                w.inner().items()[i],
                w.added(),
                #[trigger] w.items()[i],
            ),
{
}

/// An entry with global dimensions hands over what the entry itself does, in order, with the
/// dimensions added to each metric but those under the names that are denied.
pub proof fn entries_have_global_dimensions_added<E: Entry, const N: usize>(
    w: WithGlobalDimensions<E, N>,
)
    ensures
        w.items().len() == w.inner().items().len(),
        forall|i: int|
            0 <= i < w.inner().items().len() ==> if w.inner().items()[i] matches ItemModel::Value(
                name,
                _,
            ) && w.denied().contains(name) {
                #[trigger] w.items()[i] == w.inner().items()[i]
            } else {
                has_added(w.inner().items()[i], w.added(), w.items()[i])
            },
{
}

} // verus!
