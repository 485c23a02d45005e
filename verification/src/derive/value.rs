//! Types that are written as a single value.

use vstd::prelude::*;
use vstd::string::*;

use crate::derive::field::{FieldTagAttr, MetricsField, MetricsFieldKind, NameStyle};

verus! {

/// What the attribute makes of a type.
#[derive(Clone, Copy, Debug, PartialEq, Eq, Structural)]
pub enum MetricMode {
    /// An entry that is emitted on its own.
    RootEntry,
    /// An entry that is part of another one.
    Subfield,
    /// An entry that is part of another one and is closed by value.
    SubfieldOwned,
    /// A value.
    Value,
    /// A value that is written as a string.
    ValueString,
}

/// The attributes of a type.
#[derive(Debug)]
pub struct RootAttributes {
    pub mode: MetricMode,
    /// Whether the value tells which sample group an entry belongs to.
    pub sample_group: bool,
    /// Whether dimensions are given.
    pub emf_dimensions: bool,
    /// Whether a prefix is given.
    pub prefix: bool,
    pub rename_all: NameStyle,
    /// The flags that all fields have by default.
    pub default_flags: Vec<FieldTagAttr>,
}

/// Why a type can't be a value. The numbers are positions of fields.
#[derive(Clone, Copy, Debug, PartialEq, Eq, Structural)]
pub enum ValueError {
    /// There is a second field that is not ignored.
    MultipleFields(usize),
    /// The field has an attribute that the type should have.
    FieldSampleGroup(usize),
    /// The field has a name of its own.
    FieldName(usize),
    /// There is no field to tell the sample group.
    NoSampleGroupField,
    /// Values have no dimensions.
    EmfDimensions,
    /// Values have no names to put a prefix to.
    Prefix,
    /// Values have no names to spell.
    NameStyle,
    /// The field is not a plain one.
    NotPlain(usize),
}

/// What is said of the error.
pub open spec fn value_error_text(e: ValueError) -> Seq<char> {
    match e {
        ValueError::MultipleFields(_) => "multiple non-ignored fields for #[metrics(value)]"@,
        ValueError::FieldSampleGroup(_) =>
        "`sample_group` in value structs is used as a struct attribute, not a field attribute: `#[metrics(value, sample_group)]`"@,
        ValueError::FieldName(_) => "`name` does not make sense with #[metrics(value)]"@,
        ValueError::NoSampleGroupField => "`sample_group` requires a non-ignore field"@,
        ValueError::EmfDimensions => "emf_dimensions is not supported for #[metrics(value)]"@,
        ValueError::Prefix => "prefix is not supported for #[metrics(value)]"@,
        ValueError::NameStyle => "NameStyle is not supported for #[metrics(value)]"@,
        ValueError::NotPlain(_) => "only plain fields are supported in #[metrics(value)]"@,
    }
}

/// The field that the error is about; the type itself if there is none.
pub open spec fn value_error_field(e: ValueError) -> Option<usize> {
    match e {
        ValueError::MultipleFields(i) => Some(i),
        ValueError::FieldSampleGroup(i) => Some(i),
        ValueError::FieldName(i) => Some(i),
        ValueError::NotPlain(i) => Some(i),
        _ => None,
    }
}

impl ValueError {
    /// What is said of the error.
    pub fn message(self) -> (text: &'static str)
        ensures
            text@ == value_error_text(self),
    {
        match self {
            ValueError::MultipleFields(_) => "multiple non-ignored fields for #[metrics(value)]",
            ValueError::FieldSampleGroup(_) =>
            "`sample_group` in value structs is used as a struct attribute, not a field attribute: `#[metrics(value, sample_group)]`",
            ValueError::FieldName(_) => "`name` does not make sense with #[metrics(value)]",
            ValueError::NoSampleGroupField => "`sample_group` requires a non-ignore field",
            ValueError::EmfDimensions => "emf_dimensions is not supported for #[metrics(value)]",
            ValueError::Prefix => "prefix is not supported for #[metrics(value)]",
            ValueError::NameStyle => "NameStyle is not supported for #[metrics(value)]",
            ValueError::NotPlain(_) => "only plain fields are supported in #[metrics(value)]",
        }
    }

    /// The field that the error is about; the type itself if there is none.
    pub fn field(self) -> (field: Option<usize>)
        ensures
            field == value_error_field(self),
    {
        match self {
            ValueError::MultipleFields(i) => Some(i),
            ValueError::FieldSampleGroup(i) => Some(i),
            ValueError::FieldName(i) => Some(i),
            ValueError::NotPlain(i) => Some(i),
            _ => None,
        }
    }
}

/// The positions of the fields that are not ignored, among the first `n`.
pub open spec fn kept_fields(fields: Seq<MetricsField>, n: nat) -> Seq<usize>
    decreases n,
{
    if n == 0 {
        Seq::empty()
    } else {
        let init = kept_fields(fields, (n - 1) as nat);
        if fields[n - 1].kind is Ignore {
            init
        } else {
            init.push((n - 1) as usize)
        }
    }
}

/// The positions of the fields that are not ignored.
pub open spec fn kept(fields: Seq<MetricsField>) -> Seq<usize> {
    kept_fields(fields, fields.len())
}

/// Why the type can't be a value, as far as its attributes and those of its fields
/// tell; the first reason counts.
pub open spec fn value_struct_error(root: RootAttributes, fields: Seq<MetricsField>) -> Option<
    ValueError,
> {
    let kept = kept(fields);
    if kept.len() > 1 {
        Some(ValueError::MultipleFields(kept[1]))
    } else if kept.len() == 1 && (fields[kept[0] as int].kind matches MetricsFieldKind::Field {
        sample_group,
        ..
    } && sample_group) {
        Some(ValueError::FieldSampleGroup(kept[0]))
    } else if kept.len() == 1 && (fields[kept[0] as int].kind matches MetricsFieldKind::Field {
        name,
        ..
    } && name) {
        Some(ValueError::FieldName(kept[0]))
    } else if root.sample_group && kept.len() == 0 {
        Some(ValueError::NoSampleGroupField)
    } else if root.emf_dimensions {
        Some(ValueError::EmfDimensions)
    } else if root.prefix {
        Some(ValueError::Prefix)
    } else if root.rename_all != NameStyle::Preserve {
        Some(ValueError::NameStyle)
    } else {
        None
    }
}

/// How a type is written as a value: through the field at a position, through its
/// formatter if it has one, or not at all.
#[derive(Clone, Copy, Debug, PartialEq, Eq, Structural)]
pub struct ValuePlan {
    /// The field that is written; nothing is written without one.
    pub field: Option<usize>,
    /// Whether the field is written through a formatter.
    pub formatted: bool,
    /// Whether the field tells the sample group.
    pub sample_group: bool,
}

/// How a type with at most one field that is not ignored is written as a value.
pub open spec fn value_plan(root: RootAttributes, fields: Seq<MetricsField>) -> Result<
    ValuePlan,
    ValueError,
> {
    let kept = kept(fields);
    if kept.len() == 0 {
        Ok(ValuePlan { field: None, formatted: false, sample_group: false })
    } else {
        match fields[kept[0] as int].kind {
            MetricsFieldKind::Field { format, .. } => Ok(
                ValuePlan {
                    field: Some(kept[0]),
                    formatted: format,
                    sample_group: root.sample_group,
                },
            ),
            _ => Err(ValueError::NotPlain(kept[0])),
        }
    }
}

/// The positions of the fields that are not ignored.
pub fn non_ignored(fields: &Vec<MetricsField>) -> (res: Vec<usize>)
    ensures
        res@ == kept(fields@),
        forall|k: int|
            0 <= k < res@.len() ==> (#[trigger] res@[k]) < fields@.len()
                && !(fields@[res@[k] as int].kind is Ignore),
{
    let mut res: Vec<usize> = Vec::new();
    for i in 0..fields.len()
        invariant
            res@ == kept_fields(fields@, i as nat),
            forall|k: int|
                0 <= k < res@.len() ==> (#[trigger] res@[k]) < i && !(
                fields@[res@[k] as int].kind is Ignore),
    {
        if !matches!(fields[i].kind, MetricsFieldKind::Ignore) {
            res.push(i);
        }
    }
    res
}

/// Tells whether the type can be a value, as far as its attributes and those of its
/// fields tell.
pub fn validate_value_impl_for_struct(root: &RootAttributes, fields: &Vec<MetricsField>) -> (res:
    Result<(), ValueError>)
    ensures
        res == match value_struct_error(*root, fields@) {
            Some(e) => Err(e),
            None => Ok(()),
        },
{
    let kept = non_ignored(fields);
    if kept.len() > 1 {
        return Err(ValueError::MultipleFields(kept[1]));
    }
    if kept.len() == 1 {
        if let MetricsFieldKind::Field { sample_group, name, .. } = &fields[kept[0]].kind {
            if *sample_group {
                return Err(ValueError::FieldSampleGroup(kept[0]));
            }
            if *name {
                return Err(ValueError::FieldName(kept[0]));
            }
        }
    }
    if root.sample_group && kept.len() == 0 {
        return Err(ValueError::NoSampleGroupField);
    }
    if root.emf_dimensions {
        return Err(ValueError::EmfDimensions);
    }
    if root.prefix {
        return Err(ValueError::Prefix);
    }
    if root.rename_all != NameStyle::Preserve {
        return Err(ValueError::NameStyle);
    }
    Ok(())
}

/// Plans how a type with at most one field that is not ignored is written as a value.
pub fn generate_value_impl_for_struct(root: &RootAttributes, fields: &Vec<MetricsField>) -> (res:
    Result<ValuePlan, ValueError>)
    requires
        kept(fields@).len() <= 1,
    ensures
        res == value_plan(*root, fields@),
{
    let kept = non_ignored(fields);
    if kept.len() == 0 {
        return Ok(ValuePlan { field: None, formatted: false, sample_group: false });
    }
    match &fields[kept[0]].kind {
        MetricsFieldKind::Field { format, .. } => Ok(
            ValuePlan { field: Some(kept[0]), formatted: *format, sample_group: root.sample_group },
        ),
        _ => Err(ValueError::NotPlain(kept[0])),
    }
}

/// Tells whether a type with `parameters` generic parameters can be a value with
/// variants: only without any.
pub fn generate_value_impl_for_enum(parameters: usize) -> (res: Result<(), &'static str>)
    ensures
        res is Ok <==> parameters == 0,
        res matches Err(text) ==> text@
            == "generics and lifetimes are not supported for #[metrics(value)] enums"@,
{
    if parameters > 0 {
        Err("generics and lifetimes are not supported for #[metrics(value)] enums")
    } else {
        Ok(())
    }
}

} // verus!
