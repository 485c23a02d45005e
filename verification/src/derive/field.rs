//! Fields and their attributes.

use vstd::prelude::*;
use vstd::string::*;

use crate::text::{decimal, itoa_u64};

verus! {

/// How the names of fields are spelled.
#[derive(Clone, Copy, Debug, PartialEq, Eq, Structural)]
pub enum NameStyle {
    /// As in the type.
    Preserve,
    PascalCase,
    SnakeCase,
    KebabCase,
    ScreamingSnakeCase,
}

/// The namespace type that stands for a spelling in generated code.
#[derive(Clone, Copy, Debug, PartialEq, Eq, Structural)]
pub enum Namespace {
    /// The namespace that the code is generic over.
    Inherited,
    PascalCase,
    SnakeCase,
    KebabCase,
}

/// The namespace for a spelling. Names in capitals are spelled out by their own
/// names, not by the namespace.
pub open spec fn namespace_of(style: NameStyle) -> Namespace {
    match style {
        NameStyle::PascalCase => Namespace::PascalCase,
        NameStyle::SnakeCase => Namespace::SnakeCase,
        NameStyle::ScreamingSnakeCase => Namespace::SnakeCase,
        NameStyle::KebabCase => Namespace::KebabCase,
        NameStyle::Preserve => Namespace::Inherited,
    }
}

/// The namespace for a spelling.
pub fn make_ns(style: NameStyle) -> (ns: Namespace)
    ensures
        ns == namespace_of(style),
{
    match style {
        NameStyle::PascalCase => Namespace::PascalCase,
        NameStyle::SnakeCase | NameStyle::ScreamingSnakeCase => Namespace::SnakeCase,
        NameStyle::KebabCase => Namespace::KebabCase,
        NameStyle::Preserve => Namespace::Inherited,
    }
}

/// A flag that an attribute names: its path, and whether it is to be left out.
#[derive(Debug)]
pub struct FieldTagAttr {
    pub path: String,
    pub skip: bool,
}

/// What the attributes of a field make of it.
#[derive(Debug)]
pub enum MetricsFieldKind {
    /// The timestamp of the entry.
    Timestamp,
    /// An entry that is written as it is.
    FlattenEntry,
    /// An entry whose names are spelled like those of this one.
    Flatten {
        /// Whether a prefix is put before the names.
        prefix: bool,
        /// Flags for all of its fields.
        default_flags: Vec<FieldTagAttr>,
    },
    /// A field that is not written.
    Ignore,
    /// A value of its own.
    Field {
        /// Whether it tells which sample group the entry belongs to.
        sample_group: bool,
        /// Whether it has a name other than that of the field.
        name: bool,
        /// Whether it is written through a formatter.
        format: bool,
    },
}

/// A field of a type.
#[derive(Debug)]
pub struct MetricsField {
    pub kind: MetricsFieldKind,
    /// The flags of the field itself.
    pub flags: Vec<FieldTagAttr>,
    /// Whether there are conditions under which the field is compiled.
    pub gated: bool,
    /// Whether the field has a name, as opposed to a position.
    pub named: bool,
}

/// A text with a number at its end.
pub open spec fn numbered(head: Seq<char>, n: nat) -> Seq<char> {
    head + decimal(n)
}

/// A text with a number at its end.
pub fn numbered_text(head: &str, n: usize) -> (text: String)
    ensures
        text@ == numbered(head@, n as nat),
{
    let mut text = head.to_owned();
    text.append(itoa_u64(n as u64).as_str());
    text
}

} // verus!
