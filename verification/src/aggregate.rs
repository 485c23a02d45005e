//! Aggregates: entries merged into one, all of them or by key.

use vstd::prelude::*;
use vstd::std_specs::iter::IteratorSpec;
use vstd::string::*;

use crate::entry::{item_models, Entry, EntryItem, ItemModel};
use crate::index::{key_position, key_positions, new_key_index, set_key_position, KeyIndex};
use crate::listing::{selects, selects_more, selects_none};
use crate::value::pairs;

verus! {

/// Something that is closed before it is emitted.
pub trait CloseValue: Sized {
    /// What it is closed to.
    type Closed;

    /// What it is closed to.
    open spec fn closed(self) -> Self::Closed {
        arbitrary()
    }

    /// Closes it.
    fn close(self) -> (closed: Self::Closed)
        ensures
            closed == self.closed(),
    ;
}

/// An entry that can be merged with others of its kind.
pub trait Merge: Sized {
    /// What entries are merged into.
    type Merged;

    /// What decides how they are merged.
    type MergeConfig;

    /// What no entries are merged into.
    open spec fn nothing_merged(config: Self::MergeConfig) -> Self::Merged {
        arbitrary()
    }

    /// What becomes of merged entries with one more.
    open spec fn merged_with(merged: Self::Merged, entry: Self) -> Self::Merged {
        arbitrary()
    }

    /// What no entries are merged into.
    fn new_merged(config: &Self::MergeConfig) -> (merged: Self::Merged)
        ensures
            merged == Self::nothing_merged(*config),
    ;

    /// Merges one more entry.
    fn merge(accum: &mut Self::Merged, input: Self)
        ensures
            *final(accum) == Self::merged_with(*old(accum), input),
    ;
}

/// An entry that can be merged without being used up.
pub trait MergeRef: Merge {
    /// Merges one more entry.
    fn merge_ref(accum: &mut Self::Merged, input: &Self)
        ensures
            *final(accum) == Self::merged_with(*old(accum), *input),
    ;
}

/// Tells by which key an entry is aggregated.
pub trait Key<Source> {
    /// The key itself. It is closed when what was aggregated is emitted.
    type Key: CloseValue;

    /// The key of an entry.
    open spec fn key_of(source: Source) -> Self::Key {
        arbitrary()
    }

    /// The names and values that the key of an entry is compared by: entries have the same key if
    /// these are the same.
    open spec fn identity_of(source: Source) -> Seq<(Seq<char>, Seq<char>)> {
        arbitrary()
    }

    /// The key of an entry.
    fn from_source(source: &Source) -> (key: Self::Key)
        ensures
            key == Self::key_of(*source),
    ;

    /// The names and values that the key of an entry is compared by.
    fn identity(source: &Source) -> (identity: Vec<(String, String)>)
        ensures
            pairs(identity@) == Self::identity_of(*source),
    ;
}

/// The key of entries that have none: all of them are aggregated together.
#[derive(Clone, Copy, Debug, PartialEq, Eq, Structural)]
pub struct NoKey;

impl CloseValue for NoKey {
    type Closed = NoKey;

    open spec fn closed(self) -> NoKey {
        self
    }

    fn close(self) -> (closed: NoKey) {
        self
    }
}

impl Entry for NoKey {
    open spec fn items(&self) -> Seq<ItemModel> {
        Seq::empty()
    }

    fn write(&self) -> (items: Vec<EntryItem>) {
        let items: Vec<EntryItem> = Vec::new();
        assert(item_models(items@) =~= Seq::empty());
        items
    }
}

impl<Source> Key<Source> for NoKey {
    type Key = NoKey;

    open spec fn key_of(source: Source) -> NoKey {
        NoKey
    }

    open spec fn identity_of(source: Source) -> Seq<(Seq<char>, Seq<char>)> {
        Seq::empty()
    }

    fn from_source(source: &Source) -> (key: NoKey) {
        NoKey
    }

    fn identity(source: &Source) -> (identity: Vec<(String, String)>) {
        let identity: Vec<(String, String)> = Vec::new();
        assert(pairs(identity@) =~= Seq::empty());
        identity
    }
}

/// Says what is missing where entries with keys are put in an [`Aggregate`].
pub type AggregateMustBeUsedOnStructsWithNoKeys = NoKey;

/// Says what is aggregated, and by which key.
pub trait AggregateStrategy: Sized {
    /// The entries that are aggregated.
    type Source: Merge;

    /// The key that they are aggregated by.
    type Key: Key<Self::Source>;
}

/// The key that entries are aggregated by.
pub type KeyTy<T> = <<T as AggregateStrategy>::Key as Key<<T as AggregateStrategy>::Source>>::Key;

/// What entries are merged into.
pub type AggregateTy<T> = <<T as AggregateStrategy>::Source as Merge>::Merged;

/// Merged entries with some more, in order.
pub open spec fn merged_with_all<S: Merge>(merged: S::Merged, entries: Seq<S>) -> S::Merged
    decreases entries.len(),
{
    if entries.len() == 0 {
        merged
    } else {
        S::merged_with(merged_with_all(merged, entries.drop_last()), entries.last())
    }
}

/// All entries of one event, merged.
pub struct Aggregate<T: AggregateStrategy> {
    aggregated: <T::Source as Merge>::Merged,
}

impl<T: AggregateStrategy> Aggregate<T> {
    /// What the entries are merged into.
    pub closed spec fn merged(self) -> <T::Source as Merge>::Merged {
        self.aggregated
    }

    /// An aggregate of what is merged already.
    pub fn new(value: <T::Source as Merge>::Merged) -> (a: Aggregate<T>)
        ensures
            a.merged() == value,
    {
        Aggregate { aggregated: value }
    }

    /// What the entries are merged into.
    pub fn into_merged(self) -> (value: <T::Source as Merge>::Merged)
        ensures
            value == self.merged(),
    {
        self.aggregated
    }

    /// Merges an entry as it is.
    pub fn insert_direct(&mut self, entry: T::Source)
        ensures
            final(self).merged() == T::Source::merged_with(old(self).merged(), entry),
    {
        T::Source::merge(&mut self.aggregated, entry);
    }

    /// Merges entries as they are, one after the other.
    pub fn insert_all_direct<I: Iterator<Item = T::Source>>(&mut self, entries: I)
        requires
            entries.obeys_prophetic_iter_laws(),
            entries.decrease() is Some,
        ensures
            final(self).merged() == merged_with_all::<T::Source>(
                old(self).merged(),
                entries.remaining(),
            ),
    {
        let ghost list = entries.remaining();
        let ghost start = self.merged();
        let mut rest = entries;
        let ghost mut k: int = 0;
        assert(list.skip(0) =~= list);
        loop
            invariant
                rest.obeys_prophetic_iter_laws(),
                rest.decrease() is Some,
                0 <= k <= list.len(),
                rest.remaining() == list.skip(k),
                self.merged() == merged_with_all::<T::Source>(start, list.take(k)),
            ensures
                k == list.len(),
            decreases rest.decrease()->0,
        {
            match rest.next() {
                Some(entry) => {
                    proof {
                        assert(entry == list[k]);
                        assert(list.take(k + 1).drop_last() =~= list.take(k));
                    }
                    self.insert_direct(entry);
                    proof {
                        assert(rest.remaining() =~= list.skip(k + 1));
                        k = k + 1;
                    }
                },
                None => {
                    break;
                },
            }
        }
        assert(list.take(k) =~= list);
    }

    /// Merges an entry without using it up.
    pub fn merge_ref(&mut self, entry: &T::Source) where T::Source: MergeRef
        ensures
            final(self).merged() == T::Source::merged_with(old(self).merged(), *entry),
    {
        T::Source::merge_ref(&mut self.aggregated, entry);
    }
}

/// What entries are closed to, in order.
pub open spec fn all_closed<T: CloseValue>(entries: Seq<T>) -> Seq<T::Closed> {
    entries.map_values(|e: T| e.closed())
}

impl<
    T: AggregateStrategy<Key = AggregateMustBeUsedOnStructsWithNoKeys> + CloseValue<
        Closed = <T as AggregateStrategy>::Source,
    >,
> Aggregate<T> {
    /// Closes an entry and merges it.
    pub fn insert(&mut self, entry: T)
        ensures
            final(self).merged() == T::Source::merged_with(old(self).merged(), entry.closed()),
    {
        T::Source::merge(&mut self.aggregated, entry.close());
    }

    /// Closes an entry, merges it, and hands it on to be emitted by itself.
    pub fn insert_and_send_to(&mut self, entry: T) -> (sent: T::Source) where T::Source: MergeRef
        ensures
            final(self).merged() == T::Source::merged_with(old(self).merged(), entry.closed()),
            sent == entry.closed(),
    {
        let entry = entry.close();
        T::Source::merge_ref(&mut self.aggregated, &entry);
        entry
    }

    /// Closes entries and merges them, one after the other.
    pub fn insert_all<I: Iterator<Item = T>>(&mut self, entries: I)
        requires
            entries.obeys_prophetic_iter_laws(),
            entries.decrease() is Some,
        ensures
            final(self).merged() == merged_with_all::<T::Source>(
                old(self).merged(),
                all_closed::<T>(entries.remaining()),
            ),
    {
        let ghost list = entries.remaining();
        let ghost goal = all_closed::<T>(list);
        let ghost start = self.merged();
        let mut rest = entries;
        let ghost mut k: int = 0;
        assert(list.skip(0) =~= list);
        loop
            invariant
                rest.obeys_prophetic_iter_laws(),
                rest.decrease() is Some,
                goal == all_closed::<T>(list),
                0 <= k <= list.len(),
                rest.remaining() == list.skip(k),
                self.merged() == merged_with_all::<T::Source>(start, goal.take(k)),
            ensures
                k == list.len(),
            decreases rest.decrease()->0,
        {
            match rest.next() {
                Some(entry) => {
                    proof {
                        assert(entry == list[k]);
                        assert(goal.take(k + 1).drop_last() =~= goal.take(k));
                        assert(goal.take(k + 1).last() == entry.closed());
                    }
                    self.insert(entry);
                    proof {
                        assert(rest.remaining() =~= list.skip(k + 1));
                        k = k + 1;
                    }
                },
                None => {
                    break;
                },
            }
        }
        assert(goal.take(k) =~= goal);
    }
}

impl<T: AggregateStrategy> CloseValue for Aggregate<T> where
    <T::Source as Merge>::Merged: CloseValue,
 {
    type Closed = <<T::Source as Merge>::Merged as CloseValue>::Closed;

    open spec fn closed(self) -> Self::Closed {
        self.merged().closed()
    }

    fn close(self) -> (closed: Self::Closed) {
        self.aggregated.close()
    }
}

impl<T: AggregateStrategy> Default for Aggregate<T> where <T::Source as Merge>::Merged: Default {
    fn default() -> (a: Aggregate<T>)
        ensures
            call_ensures(<<T::Source as Merge>::Merged as Default>::default, (), a.merged()),
    {
        Aggregate { aggregated: Default::default() }
    }
}

/// An aggregate is what its entries are merged into, and nothing else: two that are merged into the
/// same are the same, and one of what is merged already is closed to what that is closed to.
pub proof fn aggregates_are_what_is_merged<T: AggregateStrategy>(a: Aggregate<T>, b: Aggregate<T>)
    where <T::Source as Merge>::Merged: CloseValue
    requires
        a.merged() == b.merged(),
    ensures
        a == b,
        a.closed() == b.merged().closed(),
{
}

/// Inserting entries in one call is inserting them in two, the first ones first; inserting none
/// changes nothing.
pub proof fn inserting_in_parts<S: Merge>(merged: S::Merged, first: Seq<S>, second: Seq<S>)
    ensures
        merged_with_all(merged, first + second) == merged_with_all(
            merged_with_all(merged, first),
            second,
        ),
        merged_with_all(merged, Seq::<S>::empty()) == merged,
    decreases second.len(),
{
    if second.len() == 0 {
        assert(first + second =~= first);
    } else {
        inserting_in_parts(merged, first, second.drop_last());
        assert((first + second).drop_last() =~= first + second.drop_last());
    }
}

// ---------------------------------------------------------------------------
// By key
// ---------------------------------------------------------------------------

/// A key, and what the entries with it are merged into.
pub struct AggregationResult<K, M> {
    pub key: K,
    pub aggregated: M,
}

impl<K: CloseValue, M: CloseValue> CloseValue for AggregationResult<K, M> {
    type Closed = AggregationResult<K::Closed, M::Closed>;

    open spec fn closed(self) -> AggregationResult<K::Closed, M::Closed> {
        AggregationResult { key: self.key.closed(), aggregated: self.aggregated.closed() }
    }

    fn close(self) -> (closed: AggregationResult<K::Closed, M::Closed>) {
        AggregationResult { key: self.key.close(), aggregated: self.aggregated.close() }
    }
}

impl<K: Entry, M: Entry> Entry for AggregationResult<K, M> {
    /// The key and what is merged for it make up one entry.
    open spec fn items(&self) -> Seq<ItemModel> {
        self.key.items() + self.aggregated.items()
    }

    fn write(&self) -> (items: Vec<EntryItem>) {
        let mut items = self.key.write();
        let ghost first = items@;
        let mut rest = self.aggregated.write();
        let ghost second = rest@;
        items.append(&mut rest);
        assert(item_models(first + second) =~= item_models(first) + item_models(second));
        items
    }
}

/// The entries that have the same key: what the key is compared by, the key, and what they are
/// merged into.
pub ghost struct Group<K, M> {
    pub identity: Seq<(Seq<char>, Seq<char>)>,
    pub key: K,
    pub merged: M,
}

/// What the keys are compared by, in order.
pub open spec fn identities<K, M>(list: Seq<Group<K, M>>) -> Seq<Seq<(Seq<char>, Seq<char>)>> {
    list.map_values(|g: Group<K, M>| g.identity)
}

/// What is merged by key with one more entry: it is merged with those of its key, or comes last
/// with a key that is new.
pub open spec fn merged_by_key<T: AggregateStrategy>(
    config: <T::Source as Merge>::MergeConfig,
    list: Seq<Group<KeyTy<T>, AggregateTy<T>>>,
    entry: T::Source,
) -> Seq<Group<KeyTy<T>, AggregateTy<T>>> {
    let identity = T::Key::identity_of(entry);
    if identities(list).contains(identity) {
        let i = identities(list).index_of(identity);
        list.update(
            i,
            Group { merged: T::Source::merged_with(list[i].merged, entry), ..list[i] },
        )
    } else {
        list.push(
            Group {
                identity,
                key: T::Key::key_of(entry),
                merged: T::Source::merged_with(T::Source::nothing_merged(config), entry),
            },
        )
    }
}

/// Entries merged by key, in order.
pub open spec fn all_merged_by_key<T: AggregateStrategy>(
    config: <T::Source as Merge>::MergeConfig,
    entries: Seq<T::Source>,
) -> Seq<Group<KeyTy<T>, AggregateTy<T>>>
    decreases entries.len(),
{
    if entries.len() == 0 {
        Seq::empty()
    } else {
        merged_by_key::<T>(
            config,
            all_merged_by_key::<T>(config, entries.drop_last()),
            entries.last(),
        )
    }
}

/// What is kept of the entries with one key.
struct Stored<K, M> {
    identity: Ghost<Seq<(Seq<char>, Seq<char>)>>,
    result: AggregationResult<K, M>,
}

impl<K, M> Stored<K, M> {
    spec fn group(self) -> Group<K, M> {
        Group { identity: self.identity@, key: self.result.key, merged: self.result.aggregated }
    }
}

/// Merges entries by key.
pub struct KeyedAggregator<T: AggregateStrategy> {
    index: KeyIndex,
    storage: Vec<Stored<KeyTy<T>, AggregateTy<T>>>,
    merge_config: <T::Source as Merge>::MergeConfig,
}

impl<T: AggregateStrategy> KeyedAggregator<T> {
    /// The keys and what is merged for each, in the order in which the keys came up.
    pub closed spec fn results(self) -> Seq<Group<KeyTy<T>, AggregateTy<T>>> {
        self.storage@.map_values(|s: Stored<KeyTy<T>, AggregateTy<T>>| s.group())
    }

    /// What decides how entries are merged.
    pub closed spec fn config(self) -> <T::Source as Merge>::MergeConfig {
        self.merge_config
    }

    /// The index holds the position of each key, and nothing else.
    pub closed spec fn wf(self) -> bool {
        &&& forall|i: int|
            0 <= i < self.storage@.len() ==> {
                &&& key_positions(self.index).contains_key((#[trigger] self.storage@[i]).identity@)
                &&& key_positions(self.index)[self.storage@[i].identity@] == i
            }
        &&& forall|k: Seq<(Seq<char>, Seq<char>)>| #[trigger]
            key_positions(self.index).contains_key(k) ==> {
                &&& key_positions(self.index)[k] < self.storage@.len()
                &&& self.storage@[key_positions(self.index)[k] as int].identity@ == k
            }
    }

    /// Merges entries by key, in a way that can be chosen.
    pub fn new_with_config(merge_config: <T::Source as Merge>::MergeConfig) -> (a: Self)
        ensures
            a.wf(),
            a.results().len() == 0,
            a.config() == merge_config,
    {
        KeyedAggregator { index: new_key_index(), storage: Vec::new(), merge_config }
    }

    /// The position of what is merged for the key of an entry, which is added if it is new.
    fn get_or_create_accum(&mut self, entry: &T::Source) -> (position: usize)
        requires
            old(self).wf(),
        ensures
            final(self).wf(),
            final(self).config() == old(self).config(),
            position < final(self).storage@.len(),
            ({
                let identity = T::Key::identity_of(*entry);
                let known = identities(old(self).results());
                if known.contains(identity) {
                    &&& final(self).results() == old(self).results()
                    &&& position == known.index_of(identity)
                } else {
                    &&& final(self).results() == old(self).results().push(
                        Group {
                            identity,
                            key: T::Key::key_of(*entry),
                            merged: T::Source::nothing_merged(old(self).config()),
                        },
                    )
                    &&& position == old(self).results().len()
                }
            }),
    {
        let identity = T::Key::identity(entry);
        let ghost k = pairs(identity@);
        let ghost known = identities(self.results());
        match key_position(&self.index, &identity) {
            Some(position) => {
                proof {
                    assert(known[position as int] == k);
                    assert(known.contains(k));
                    let i = known.index_of(k);
                    assert(known[i] == k);
                    assert(self.storage@[i].identity@ == k);
                }
                position
            },
            None => {
                proof {
                    if known.contains(k) {
                        let i = known.index_of(k);
                        assert(known[i] == k);
                        assert(self.storage@[i].identity@ == k);
                    }
                }
                let position: usize = self.storage.len();
                let aggregated = T::Source::new_merged(&self.merge_config);
                let key = T::Key::from_source(entry);
                set_key_position(&mut self.index, identity, position);
                let stored = Stored {
                    identity: Ghost(k),
                    result: AggregationResult { key, aggregated },
                };
                let ghost added = stored.group();
                self.storage.push(stored);
                assert(self.results() =~= old(self).results().push(added));
                position
            },
        }
    }

    /// Merges an entry with those of its key.
    pub fn merge(&mut self, entry: T::Source)
        requires
            old(self).wf(),
        ensures
            final(self).wf(),
            final(self).config() == old(self).config(),
            final(self).results() == merged_by_key::<T>(
                old(self).config(),
                old(self).results(),
                entry,
            ),
    {
        let ghost before = self.results();
        let ghost identity = T::Key::identity_of(entry);
        let position: usize = self.get_or_create_accum(&entry);
        let ghost middle = self.results();
        T::Source::merge(&mut self.storage[position].result.aggregated, entry);
        proof {
            let p = position as int;
            let merged = T::Source::merged_with(middle[p].merged, entry);
            assert(self.results() =~= middle.update(p, Group { merged, ..middle[p] }));
            if identities(before).contains(identity) {
                assert(identities(before)[p] == identity);
            }
            assert(self.results() =~= merged_by_key::<T>(old(self).config(), before, entry));
        }
    }

    /// Merges an entry with those of its key, without using it up.
    pub fn merge_ref(&mut self, entry: &T::Source) where T::Source: MergeRef
        requires
            old(self).wf(),
        ensures
            final(self).wf(),
            final(self).config() == old(self).config(),
            final(self).results() == merged_by_key::<T>(
                old(self).config(),
                old(self).results(),
                *entry,
            ),
    {
        let ghost before = self.results();
        let ghost identity = T::Key::identity_of(*entry);
        let position: usize = self.get_or_create_accum(entry);
        let ghost middle = self.results();
        T::Source::merge_ref(&mut self.storage[position].result.aggregated, entry);
        proof {
            let p = position as int;
            let merged = T::Source::merged_with(middle[p].merged, *entry);
            assert(self.results() =~= middle.update(p, Group { merged, ..middle[p] }));
            if identities(before).contains(identity) {
                assert(identities(before)[p] == identity);
            }
            assert(self.results() =~= merged_by_key::<T>(old(self).config(), before, *entry));
        }
    }
}

/// The keys and what is merged for each, closed.
pub open spec fn closed_results<K: CloseValue, M: CloseValue>(list: Seq<Group<K, M>>) -> Seq<
    AggregationResult<K::Closed, M::Closed>,
> {
    list.map_values(
        |g: Group<K, M>| AggregationResult { key: g.key.closed(), aggregated: g.merged.closed() },
    )
}

impl<T: AggregateStrategy> KeyedAggregator<T> where <T::Source as Merge>::Merged: CloseValue {
    /// Closes and hands over the keys and what was merged for each, for them to be emitted, and
    /// starts anew.
    pub fn flush(&mut self) -> (list: Vec<
        AggregationResult<
            <KeyTy<T> as CloseValue>::Closed,
            <AggregateTy<T> as CloseValue>::Closed,
        >,
    >)
        requires
            old(self).wf(),
        ensures
            final(self).wf(),
            final(self).config() == old(self).config(),
            final(self).results().len() == 0,
            list@ == closed_results(old(self).results()),
    {
        let mut rest: Vec<Stored<KeyTy<T>, AggregateTy<T>>> = Vec::new();
        std::mem::swap(&mut rest, &mut self.storage);
        self.index = new_key_index();
        let ghost stored = rest@;
        let ghost goal = closed_results(old(self).results());
        let mut list: Vec<
            AggregationResult<
                <KeyTy<T> as CloseValue>::Closed,
                <AggregateTy<T> as CloseValue>::Closed,
            >,
        > = Vec::new();
        let ghost mut k: int = 0;
        assert(rest@ =~= stored.skip(0));
        while rest.len() > 0
            invariant
                goal == closed_results(old(self).results()),
                old(self).results() == stored.map_values(
                    |s: Stored<KeyTy<T>, AggregateTy<T>>| s.group(),
                ),
                0 <= k <= stored.len(),
                rest@ == stored.skip(k),
                list@ == goal.take(k),
            decreases rest.len(),
        {
            let Stored { identity: _, result } = rest.remove(0);
            assert(result == stored[k].result);
            list.push(result.close());
            proof {
                assert(list@ =~= goal.take(k + 1));
                assert(rest@ =~= stored.skip(k + 1));
                k = k + 1;
            }
        }
        assert(goal.take(k) =~= goal);
        list
    }
}

impl<T: AggregateStrategy> KeyedAggregator<T> where <T::Source as Merge>::MergeConfig: Default {
    /// Merges entries by key, in the way that is the default.
    pub fn new() -> (a: Self)
        ensures
            a.wf(),
            a.results().len() == 0,
            call_ensures(<<T::Source as Merge>::MergeConfig as Default>::default, (), a.config()),
    {
        Self::new_with_config(Default::default())
    }
}

/// Those of the entries that have a key, in order.
pub open spec fn entries_of<T: AggregateStrategy>(
    entries: Seq<T::Source>,
    identity: Seq<(Seq<char>, Seq<char>)>,
) -> Seq<T::Source>
    decreases entries.len(),
{
    if entries.len() == 0 {
        Seq::empty()
    } else {
        let init = entries_of::<T>(entries.drop_last(), identity);
        if T::Key::identity_of(entries.last()) == identity {
            init.push(entries.last())
        } else {
            init
        }
    }
}

/// Merging entries by key gives each key once, for the entries that have it and no others: the key of
/// the first of them, with what merging these alone, in their order, gives.
pub proof fn each_key_is_aggregated<T: AggregateStrategy>(
    config: <T::Source as Merge>::MergeConfig,
    entries: Seq<T::Source>,
    identity: Seq<(Seq<char>, Seq<char>)>,
)
    ensures
        ({
            let list = all_merged_by_key::<T>(config, entries);
            let known = identities(list);
            let own = entries_of::<T>(entries, identity);
            &&& known.no_duplicates()
            &&& known.contains(identity) <==> own.len() > 0
            &&& known.contains(identity) ==> {
                let group = list[known.index_of(identity)];
                &&& group.key == T::Key::key_of(own[0])
                &&& group.merged == merged_with_all::<T::Source>(
                    T::Source::nothing_merged(config),
                    own,
                )
            }
        }),
    decreases entries.len(),
{
    if entries.len() > 0 {
        let rest = entries.drop_last();
        let entry = entries.last();
        let before = all_merged_by_key::<T>(config, rest);
        let after = all_merged_by_key::<T>(config, entries);
        let old_known = identities(before);
        let new_known = identities(after);
        let own = T::Key::identity_of(entry);
        each_key_is_aggregated::<T>(config, rest, identity);
        each_key_is_aggregated::<T>(config, rest, own);
        assert(entries_of::<T>(rest, identity).push(entry).drop_last() =~= entries_of::<T>(
            rest,
            identity,
        ));
        if old_known.contains(own) {
            let i = old_known.index_of(own);
            assert(old_known[i] == own);
            assert(new_known =~= old_known);
            if old_known.contains(identity) {
                let k = old_known.index_of(identity);
                assert(old_known[k] == identity);
                if identity == own {
                    assert(after[k].merged == T::Source::merged_with(before[k].merged, entry));
                } else {
                    assert(k != i);
                    assert(after[k] == before[k]);
                }
            }
        } else {
            assert(new_known =~= old_known.push(own));
            let n = old_known.len() as int;
            assert(new_known[n] == own);
            assert forall|i: int, j: int| 0 <= i < new_known.len() && 0 <= j < new_known.len() && i
                != j implies new_known[i] != new_known[j] by {
                if i < n {
                    assert(old_known.contains(old_known[i]));
                }
                if j < n {
                    assert(old_known.contains(old_known[j]));
                }
            }
            if identity == own {
                assert(new_known.contains(identity));
                assert(new_known[new_known.index_of(identity)] == identity);
                assert(new_known.index_of(identity) == n);
                assert(entries_of::<T>(rest, identity) =~= Seq::empty());
                reveal_with_fuel(merged_with_all, 2);
            } else {
                if old_known.contains(identity) {
                    let k = old_known.index_of(identity);
                    assert(new_known[k] == identity);
                    assert(new_known.contains(identity));
                    assert(new_known[new_known.index_of(identity)] == identity);
                    assert(new_known.index_of(identity) == k);
                    assert(after[k] == before[k]);
                } else if new_known.contains(identity) {
                    let k = new_known.index_of(identity);
                    assert(new_known[k] == identity);
                    assert(old_known[k] == identity);
                }
            }
        }
    }
}

/// Flushing what was merged by key gives each key once, closed, for the entries that have it and no
/// others, with what merging these alone, in their order, is closed to.
pub proof fn each_key_is_flushed<T: AggregateStrategy>(
    config: <T::Source as Merge>::MergeConfig,
    entries: Seq<T::Source>,
    identity: Seq<(Seq<char>, Seq<char>)>,
) where <T::Source as Merge>::Merged: CloseValue
    ensures
        ({
            let groups = all_merged_by_key::<T>(config, entries);
            let known = identities(groups);
            let list = closed_results(groups);
            let own = entries_of::<T>(entries, identity);
            &&& list.len() == known.len()
            &&& known.no_duplicates()
            &&& known.contains(identity) <==> own.len() > 0
            &&& known.contains(identity) ==> list[known.index_of(identity)] == AggregationResult {
                key: T::Key::key_of(own[0]).closed(),
                aggregated: merged_with_all::<T::Source>(
                    T::Source::nothing_merged(config),
                    own,
                ).closed(),
            }
        }),
{
    let groups = all_merged_by_key::<T>(config, entries);
    each_key_is_aggregated::<T>(config, entries, identity);
    if identities(groups).contains(identity) {
        let i = identities(groups).index_of(identity);
        assert(identities(groups)[i] == identity);
    }
}

/// What is emitted for a key starts with what the key hands over, and goes on with what was merged
/// for it.
pub proof fn results_are_keys_and_aggregates<K: Entry, M: Entry>(result: AggregationResult<K, M>)
    ensures
        result.items().len() == result.key.items().len() + result.aggregated.items().len(),
        result.items().take(result.key.items().len() as int) == result.key.items(),
        result.items().skip(result.key.items().len() as int) == result.aggregated.items(),
{
    let items = result.items();
    let n = result.key.items().len() as int;
    assert(items.take(n) =~= result.key.items());
    assert(items.skip(n) =~= result.aggregated.items());
}

/// The entries of a key are those of the entries that are compared alike, in order.
pub proof fn entries_of_a_key<T: AggregateStrategy>(
    entries: Seq<T::Source>,
    identity: Seq<(Seq<char>, Seq<char>)>,
) -> (at: Seq<int>)
    ensures
        selects(at, entries.len(), |i: int| T::Key::identity_of(entries[i]) == identity),
        entries_of::<T>(entries, identity).len() == at.len(),
        forall|k: int|
            0 <= k < at.len() ==> #[trigger] entries_of::<T>(entries, identity)[k]
                == entries[at[k]],
    decreases entries.len(),
{
    if entries.len() == 0 {
        selects_none(|i: int| T::Key::identity_of(entries[i]) == identity);
        Seq::empty()
    } else {
        let init = entries.drop_last();
        let n = init.len();
        let before = entries_of_a_key::<T>(init, identity);
        let f = |i: int| T::Key::identity_of(init[i]) == identity;
        let g = |i: int| T::Key::identity_of(entries[i]) == identity;
        assert forall|i: int| 0 <= i < n implies #[trigger] f(i) == g(i) by {
            assert(init[i] == entries[i]);
        }
        selects_more(before, n, f, g);
        let at = if g(n as int) {
            before.push(n as int)
        } else {
            before
        };
        assert forall|k: int| 0 <= k < at.len() implies #[trigger] entries_of::<T>(
            entries,
            identity,
        )[k] == entries[at[k]] by {
            if k < before.len() {
                assert(at[k] == before[k]);
                assert(entries_of::<T>(init, identity)[k] == init[before[k]]);
            }
        }
        at
    }
}

/// Entries are merged one after the other.
pub proof fn entries_are_merged_in_order<S: Merge>(merged: S::Merged, entries: Seq<S>, entry: S)
    ensures
        merged_with_all(merged, entries.push(entry)) == S::merged_with(
            merged_with_all(merged, entries),
            entry,
        ),
        merged_with_all(merged, seq![entry]) == S::merged_with(merged, entry),
{
    assert(entries.push(entry).drop_last() =~= entries);
    assert(seq![entry].drop_last() =~= Seq::empty());
    assert(merged_with_all(merged, Seq::<S>::empty()) == merged);
}

/// Closing what was aggregated closes what was merged, and with a key the key as well. Entries without
/// keys are all compared alike, and hand over nothing for them.
pub proof fn aggregates_are_closed<T: AggregateStrategy, K: CloseValue, M: CloseValue, S>(
    a: Aggregate<T>,
    result: AggregationResult<K, M>,
    x: S,
    y: S,
) where <T::Source as Merge>::Merged: CloseValue
    ensures
        a.closed() == a.merged().closed(),
        result.closed().key == result.key.closed(),
        result.closed().aggregated == result.aggregated.closed(),
        <NoKey as Key<S>>::identity_of(x) == <NoKey as Key<S>>::identity_of(y),
        NoKey.items().len() == 0,
{
}

} // verus!
