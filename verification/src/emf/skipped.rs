//! Observations that are left out.

use vstd::prelude::*;
use vstd::string::*;

use crate::emf::format::Emf;
use crate::emf::model::{name_error, Settings};
use crate::entry::{item_models, Entry, EntryItem, ItemModel};
use crate::nested::{emf_number, emf_number_text};
use crate::text::texts;
use crate::value::{observations, Observation, ObservationModel, ValueModel, WrittenValue};

verus! {

/// Whether one of the observations has no number, so that it is left out.
pub open spec fn leaves_out(list: Seq<ObservationModel>) -> bool {
    exists|i: int| 0 <= i < list.len() && emf_number(#[trigger] list[i]) is None
}

/// The names of the metrics that are written without some of their observations, in order.
pub open spec fn skipped_names(s: Settings, items: Seq<ItemModel>) -> Seq<Seq<char>>
    decreases items.len(),
{
    if items.len() == 0 {
        Seq::empty()
    } else {
        let init = skipped_names(s, items.drop_last());
        match items.last() {
            ItemModel::Value(name, ValueModel::Metric(m)) => if name_error(s, name) is None
                && leaves_out(m.distribution) {
                init.push(name)
            } else {
                init
            },
            _ => init,
        }
    }
}

/// Whether one of the observations has no number.
fn any_left_out(distribution: &Vec<Observation>) -> (res: bool)
    ensures
        res == leaves_out(observations(distribution@)),
{
    let ghost list = observations(distribution@);
    for i in 0..distribution.len()
        invariant
            list == observations(distribution@),
            forall|j: int| 0 <= j < i ==> emf_number(#[trigger] list[j]) is Some,
    {
        if emf_number_text(&distribution[i]).is_none() {
            assert(emf_number(list[i as int]) is None);
            return true;
        }
        assert(emf_number(list[i as int]) is Some);
    }
    false
}

impl Emf {
    /// The names of the metrics of an entry that are written without some of their observations,
    /// since these are not numbers. It is worth telling someone of them.
    pub fn skipped_metrics<E: Entry>(&self, entry: &E) -> (names: Vec<String>)
        ensures
            texts(names@) == skipped_names(self@, entry.items()),
    {
        let items = entry.write();
        let ghost all = item_models(items@);
        let mut names: Vec<String> = Vec::new();
        assert(texts(names@) =~= skipped_names(self@, all.take(0)));
        for i in 0..items.len()
            invariant
                all == item_models(items@),
                texts(names@) == skipped_names(self@, all.take(i as int)),
        {
            proof {
                assert(all.take(i + 1).drop_last() =~= all.take(i as int));
                assert(all.take(i + 1).last() == items@[i as int]@);
            }
            if let EntryItem::Value(name, WrittenValue::Metric(m)) = &items[i] {
                if self.accepts_name(name.as_str()) && any_left_out(&m.distribution) {
                    let ghost before = names@;
                    names.push(name.clone());
                    assert(texts(names@) =~= texts(before).push(name@));
                }
            }
        }
        assert(all.take(all.len() as int) =~= all);
        names
    }
}

} // verus!
