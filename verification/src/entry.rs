//! Entries: what is written together as one record.

use vstd::prelude::*;
use vstd::string::*;

use crate::text::texts;
use crate::value::{ValueModel, WrittenValue};

verus! {

/// A point in time, in nanoseconds since the Unix epoch.
#[derive(Clone, Copy, Debug, PartialEq, Eq, Structural)]
pub struct Timestamp {
    pub nanos: i128,
}

/// The whole milliseconds from the epoch to a point in time; zero before the epoch.
pub open spec fn epoch_millis(nanos: i128) -> u128 {
    if nanos < 0 {
        0
    } else {
        (nanos / 1_000_000) as u128
    }
}

impl Timestamp {
    /// The whole milliseconds since the epoch; zero before it.
    pub fn epoch_millis(self) -> (millis: u128)
        ensures
            millis == epoch_millis(self.nanos),
    {
        if self.nanos < 0 {
            0
        } else {
            (self.nanos as u128) / 1_000_000
        }
    }
}

/// A setting for a whole entry.
#[derive(Debug)]
pub enum EntryConfig {
    /// Sets of dimension names that the metrics of the entry are published under,
    /// each added to the sets that the format publishes under.
    EntryDimensions(Vec<Vec<String>>),
    /// The entry may be split by the dimensions of its metrics.
    AllowSplitEntries,
    /// The entry may lack dimensions.
    AllowUnroutableEntries,
    /// A setting that no format here reads, told apart by a number.
    Other(u64),
}

/// What a setting for an entry says.
pub ghost enum ConfigModel {
    EntryDimensions(Seq<Seq<Seq<char>>>),
    AllowSplitEntries,
    AllowUnroutableEntries,
    Other(u64),
}

/// The texts that a list of lists of strings holds.
pub open spec fn text_lists(lists: Seq<Vec<String>>) -> Seq<Seq<Seq<char>>> {
    lists.map_values(|list: Vec<String>| texts(list@))
}

impl View for EntryConfig {
    type V = ConfigModel;

    open spec fn view(&self) -> ConfigModel {
        match *self {
            EntryConfig::EntryDimensions(sets) => ConfigModel::EntryDimensions(text_lists(sets@)),
            EntryConfig::AllowSplitEntries => ConfigModel::AllowSplitEntries,
            EntryConfig::AllowUnroutableEntries => ConfigModel::AllowUnroutableEntries,
            EntryConfig::Other(n) => ConfigModel::Other(n),
        }
    }
}

/// One thing that an entry hands to its writer.
#[derive(Debug)]
pub enum EntryItem {
    /// The point in time that the entry is about.
    Timestamp(Timestamp),
    /// A value under a name.
    Value(String, WrittenValue),
    /// A setting.
    Config(EntryConfig),
}

/// What an item of an entry says.
pub ghost enum ItemModel {
    Timestamp(i128),
    Value(Seq<char>, ValueModel),
    Config(ConfigModel),
}

impl View for EntryItem {
    type V = ItemModel;

    open spec fn view(&self) -> ItemModel {
        match *self {
            EntryItem::Timestamp(t) => ItemModel::Timestamp(t.nanos),
            EntryItem::Value(name, value) => ItemModel::Value(name@, value@),
            EntryItem::Config(config) => ItemModel::Config(config@),
        }
    }
}

/// What the items of an entry say.
pub open spec fn item_models(items: Seq<EntryItem>) -> Seq<ItemModel> {
    items.map_values(|i: EntryItem| i@)
}

/// Something that is written as one record.
pub trait Entry {
    /// What the entry hands to its writer, in order.
    open spec fn items(&self) -> Seq<ItemModel> {
        arbitrary()
    }

    /// Hands over what the entry consists of, in order.
    fn write(&self) -> (items: Vec<EntryItem>)
        ensures
            item_models(items@) == self.items(),
    ;
}

} // verus!
