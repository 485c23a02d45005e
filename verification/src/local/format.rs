//! The format itself.

use vstd::prelude::*;
use vstd::string::*;

use crate::entry::Entry;
use crate::local::collect::{weights_fit, Collector, LocalOps};
use crate::local::output::{
    entry_json, pretty_text, table_rows, table_text, write_json, write_markdown_table, write_pretty,
};
use crate::local::percentile::{default_percentiles, is_default, Percentile};
use crate::local::tree::{compact_text, indented_text};
use crate::unit::Unit;

verus! {

/// How entries are shown.
#[derive(Debug, Clone, Copy, PartialEq, Eq, Structural)]
#[non_exhaustive]
pub enum OutputStyle {
    /// Indented lines.
    Pretty,
    /// JSON objects.
    #[non_exhaustive]
    Json {
        /// Whether an object is in one line.
        compact: bool,
    },
    /// Tables in Markdown.
    MarkdownTable,
}

impl Default for OutputStyle {
    fn default() -> (style: OutputStyle)
        ensures
            style == OutputStyle::Pretty,
    {
        OutputStyle::Pretty
    }
}

impl OutputStyle {
    /// Indented lines.
    pub fn pretty() -> (style: OutputStyle)
        ensures
            style == OutputStyle::Pretty,
    {
        OutputStyle::Pretty
    }

    /// JSON objects with line breaks and indentation.
    pub fn json() -> (style: OutputStyle)
        ensures
            style == (OutputStyle::Json { compact: false }),
    {
        OutputStyle::Json { compact: false }
    }

    /// JSON objects in one line each.
    pub fn compact_json() -> (style: OutputStyle)
        ensures
            style == (OutputStyle::Json { compact: true }),
    {
        OutputStyle::Json { compact: true }
    }

    /// Tables in Markdown.
    pub fn markdown_table() -> (style: OutputStyle)
        ensures
            style == OutputStyle::MarkdownTable,
    {
        OutputStyle::MarkdownTable
    }
}

/// Shows entries to people.
#[derive(Debug)]
pub struct LocalFormat {
    pub style: OutputStyle,
    pub percentiles: Vec<Percentile>,
}

/// An entry in a style.
pub open spec fn shown(style: OutputStyle, c: Collector, percentiles: Seq<Percentile>) -> Seq<char> {
    match style {
        OutputStyle::Pretty => pretty_text(c, percentiles),
        OutputStyle::Json { compact } => if compact {
            compact_text(entry_json(c, percentiles)) + "\n"@
        } else {
            indented_text(entry_json(c, percentiles)) + "\n"@
        },
        OutputStyle::MarkdownTable => table_text(table_rows(c, percentiles, c.fields@.len())),
    }
}

impl LocalFormat {
    /// Shows entries in a style, metrics by the default percentiles.
    pub fn new(style: OutputStyle) -> (format: LocalFormat)
        ensures
            format.style == style,
            is_default(format.percentiles@),
    {
        LocalFormat { style, percentiles: default_percentiles() }
    }

    /// Shows entries as JSON objects with line breaks and indentation.
    pub fn json() -> (format: LocalFormat)
        ensures
            format.style == (OutputStyle::Json { compact: false }),
            is_default(format.percentiles@),
    {
        LocalFormat::new(OutputStyle::json())
    }

    /// Shows entries as JSON objects in one line each.
    pub fn compact_json() -> (format: LocalFormat)
        ensures
            format.style == (OutputStyle::Json { compact: true }),
            is_default(format.percentiles@),
    {
        LocalFormat::new(OutputStyle::compact_json())
    }

    /// Chooses the percentiles that metrics are shown by.
    pub fn percentiles(self, percentiles: Vec<Percentile>) -> (format: LocalFormat)
        ensures
            format.style == self.style,
            format.percentiles == percentiles,
    {
        LocalFormat { style: self.style, percentiles }
    }

    /// Shows what was collected of an entry.
    pub fn show(&self, collector: &Collector) -> (text: String)
        requires
            collector.wf(self.percentiles@.len()),
        ensures
            text@ == shown(self.style, *collector, self.percentiles@),
    {
        match self.style {
            OutputStyle::Pretty => write_pretty(collector, &self.percentiles),
            OutputStyle::Json { compact } => write_json(collector, &self.percentiles, compact),
            OutputStyle::MarkdownTable => write_markdown_table(collector, &self.percentiles),
        }
    }

    /// Shows an entry. The number of observations of each metric has to fit in 64 bits.
    pub fn format<
        E: Entry,
        P: Fn(u64, Unit) -> String,
        R: Fn(u64, u64) -> u64,
        S: Fn(i128) -> u64,
        N: Fn(u64) -> Option<serde_json::Number>,
        T: Fn(i128) -> String,
    >(&self, entry: &E, ops: &LocalOps<P, R, S, N, T>) -> (text: String)
        requires
            ops.total(),
            weights_fit(entry.items()),
        ensures
            exists|c: Collector| #[trigger]
                ops.is_collected(self.percentiles@, entry.items(), c) && text@ == shown(
                    self.style,
                    c,
                    self.percentiles@,
                ),
    {
        let items = entry.write();
        let collector = ops.collect(&self.percentiles, &items);
        self.show(&collector)
    }
}

} // verus!
