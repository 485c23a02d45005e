//! What all formats that write one text per entry have in common.

use vstd::prelude::*;
use vstd::string::*;

use crate::emf::format::Emf;
use crate::emf::model;
use crate::entry::{Entry, ItemModel, Timestamp};
use crate::json::Json;
use crate::sampling::{SampledEmf, SampledJson};
use crate::validate::{error_models, ErrorModel, ValidationError};

verus! {

/// Writes entries as text.
pub trait Format {
    /// Whether the format can be used.
    open spec fn ready(&self) -> bool {
        arbitrary()
    }

    /// What an entry with these items is written as: its text, or its errors. An entry without a
    /// timestamp is written as of `now`.
    open spec fn rendered(&self, items: Seq<ItemModel>, now: i128) -> Result<
        Seq<char>,
        Seq<ErrorModel>,
    > {
        arbitrary()
    }

    /// Writes an entry. What was written before makes no difference to what is written after.
    fn format<E: Entry>(&mut self, entry: &E, now: Timestamp) -> (res: Result<
        String,
        Vec<ValidationError>,
    >)
        requires
            old(self).ready(),
        ensures
            final(self).ready(),
            forall|items: Seq<ItemModel>, t: i128|
                final(self).rendered(items, t) == #[trigger] old(self).rendered(items, t),
            res is Ok <==> old(self).rendered(entry.items(), now.nanos) is Ok,
            res matches Ok(text) ==> old(self).rendered(entry.items(), now.nanos) == Ok::<
                Seq<char>,
                Seq<ErrorModel>,
            >(text@),
            res matches Err(errors) ==> old(self).rendered(entry.items(), now.nanos) == Err::<
                Seq<char>,
                Seq<ErrorModel>,
            >(error_models(errors@)),
    ;
}

impl Format for Emf {
    open spec fn ready(&self) -> bool {
        self.wf()
    }

    open spec fn rendered(&self, items: Seq<ItemModel>, now: i128) -> Result<
        Seq<char>,
        Seq<ErrorModel>,
    > {
        model::formatted(self@, items, None, now)
    }

    fn format<E: Entry>(&mut self, entry: &E, now: Timestamp) -> (res: Result<
        String,
        Vec<ValidationError>,
    >) {
        self.format_with_multiplicity(entry, now, None)
    }
}

impl Format for Json {
    open spec fn ready(&self) -> bool {
        true
    }

    open spec fn rendered(&self, items: Seq<ItemModel>, now: i128) -> Result<
        Seq<char>,
        Seq<ErrorModel>,
    > {
        crate::json::formatted(items, now)
    }

    fn format<E: Entry>(&mut self, entry: &E, now: Timestamp) -> (res: Result<
        String,
        Vec<ValidationError>,
    >) {
        Json::format(self, entry, now)
    }
}

impl<R> Format for SampledEmf<R> {
    open spec fn ready(&self) -> bool {
        self.emf.wf()
    }

    /// Entries that are not sampled stand for themselves alone.
    open spec fn rendered(&self, items: Seq<ItemModel>, now: i128) -> Result<
        Seq<char>,
        Seq<ErrorModel>,
    > {
        model::formatted(self.emf@, items, None, now)
    }

    fn format<E: Entry>(&mut self, entry: &E, now: Timestamp) -> (res: Result<
        String,
        Vec<ValidationError>,
    >) {
        self.emf.format_with_multiplicity(entry, now, None)
    }
}

impl<R> Format for SampledJson<R> {
    open spec fn ready(&self) -> bool {
        true
    }

    /// Entries that are not sampled stand for themselves alone.
    open spec fn rendered(&self, items: Seq<ItemModel>, now: i128) -> Result<
        Seq<char>,
        Seq<ErrorModel>,
    > {
        crate::json::formatted(items, now)
    }

    fn format<E: Entry>(&mut self, entry: &E, now: Timestamp) -> (res: Result<
        String,
        Vec<ValidationError>,
    >) {
        Json::format(&mut self.json, entry, now)
    }
}

/// Each format writes an entry as its format asks for, standing for itself alone, and so does a format
/// that can have entries stand for others.
pub proof fn formats_write_their_formats<R>(
    emf: Emf,
    json: Json,
    sampled_emf: SampledEmf<R>,
    sampled_json: SampledJson<R>,
    items: Seq<ItemModel>,
    now: i128,
)
    ensures
        emf.rendered(items, now) == model::formatted(emf@, items, None, now),
        json.rendered(items, now) == crate::json::formatted(items, now),
        sampled_emf.rendered(items, now) == sampled_emf.emf.rendered(items, now),
        sampled_json.rendered(items, now) == sampled_json.json.rendered(items, now),
{
}

} // verus!
