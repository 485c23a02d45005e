//! The parts that are generated for a struct.

use vstd::prelude::*;
use vstd::string::*;

use crate::derive::field::MetricsField;
use crate::derive::value::{
    generate_value_impl_for_struct, kept, non_ignored, validate_value_impl_for_struct, value_plan,
    value_struct_error, MetricMode, RootAttributes, ValueError, ValuePlan,
};

verus! {

/// The trait that is implemented for the generated entry.
#[derive(Clone, Copy, Debug, PartialEq, Eq, Structural)]
pub enum InnerImpl {
    /// The entry is a value.
    Value(ValuePlan),
    /// The entry is an entry.
    Entry,
}

/// What is generated for a struct.
#[derive(Debug)]
pub struct StructPlan {
    /// The name of the generated entry.
    pub entry_name: String,
    /// The name of the guard that emits the entry when it is dropped.
    pub guard_name: String,
    /// The name of the handle to the guard.
    pub handle_name: String,
    /// Whether the fields have names.
    pub named: bool,
    pub inner: InnerImpl,
    /// Whether the entry can stand for a nested object.
    pub object_value: bool,
    /// The positions of the fields that are closed into the entry.
    pub closed: Vec<usize>,
    /// Whether the guard and its handle are generated.
    pub on_drop_wrapper: bool,
}

/// The name of the entry that is generated for a struct.
pub open spec fn entry_name(struct_name: Seq<char>, mode: MetricMode) -> Seq<char> {
    struct_name + if mode == MetricMode::Value {
        "Value"@
    } else {
        "Entry"@
    }
}

/// Whether any field has a name.
pub open spec fn has_named_fields(fields: Seq<MetricsField>) -> bool {
    exists|i: int| 0 <= i < fields.len() && (#[trigger] fields[i]).named
}

/// Why nothing can be generated, if so.
pub open spec fn struct_error(root: RootAttributes, fields: Seq<MetricsField>) -> Option<
    ValueError,
> {
    if root.mode != MetricMode::Value {
        None
    } else {
        match value_struct_error(root, fields) {
            Some(e) => Some(e),
            None => match value_plan(root, fields) {
                Err(e) => Some(e),
                Ok(_) => None,
            },
        }
    }
}

/// Whether the mode is one of those that make an entry.
pub open spec fn makes_entry(mode: MetricMode) -> bool {
    mode == MetricMode::RootEntry || mode == MetricMode::Subfield || mode
        == MetricMode::SubfieldOwned
}

/// The name of the entry that is generated for a struct.
pub fn entry_struct_ident(struct_name: &str, mode: MetricMode) -> (name: String)
    ensures
        name@ == entry_name(struct_name@, mode),
{
    let mut name = struct_name.to_owned();
    if mode == MetricMode::Value {
        name.append("Value");
    } else {
        name.append("Entry");
    }
    name
}

/// Whether the struct can be closed by reference as well as by value: only where it is part of
/// another entry that need not own it.
pub fn closes_by_reference(mode: MetricMode) -> (res: bool)
    ensures
        res == (mode == MetricMode::Subfield),
{
    match mode {
        MetricMode::Subfield => true,
        MetricMode::RootEntry
        | MetricMode::SubfieldOwned
        | MetricMode::Value
        | MetricMode::ValueString => false,
    }
}

/// Whether any field has a name.
fn any_named(fields: &Vec<MetricsField>) -> (res: bool)
    ensures
        res == has_named_fields(fields@),
{
    for i in 0..fields.len()
        invariant
            forall|j: int| 0 <= j < i ==> !(#[trigger] fields@[j]).named,
    {
        if fields[i].named {
            return true;
        }
    }
    false
}

/// Plans what is generated for a struct.
pub fn generate_metrics_for_struct(
    root: &RootAttributes,
    struct_name: &str,
    fields: &Vec<MetricsField>,
) -> (res: Result<StructPlan, ValueError>)
    ensures
        res is Ok <==> struct_error(*root, fields@) is None,
        res matches Err(e) ==> struct_error(*root, fields@) == Some(e),
        res matches Ok(plan) ==> {
            &&& plan.entry_name@ == entry_name(struct_name@, root.mode)
            &&& plan.guard_name@ == struct_name@ + "Guard"@
            &&& plan.handle_name@ == struct_name@ + "Handle"@
            &&& plan.named == has_named_fields(fields@)
            &&& plan.inner == if root.mode == MetricMode::Value {
                InnerImpl::Value(value_plan(*root, fields@)->Ok_0)
            } else {
                InnerImpl::Entry
            }
            &&& plan.object_value == makes_entry(root.mode)
            &&& plan.closed@ == kept(fields@)
            &&& plan.on_drop_wrapper == (root.mode == MetricMode::RootEntry)
        },
{
    let entry_name = entry_struct_ident(struct_name, root.mode);
    let mut guard_name = struct_name.to_owned();
    guard_name.append("Guard");
    let mut handle_name = struct_name.to_owned();
    handle_name.append("Handle");
    let inner = match root.mode {
        MetricMode::Value => {
            match validate_value_impl_for_struct(root, fields) {
                Err(e) => {
                    return Err(e);
                },
                Ok(_) => {},
            }
            match generate_value_impl_for_struct(root, fields) {
                Err(e) => {
                    return Err(e);
                },
                Ok(plan) => InnerImpl::Value(plan),
            }
        },
        _ => InnerImpl::Entry,
    };
    let object_value = match root.mode {
        MetricMode::RootEntry | MetricMode::Subfield | MetricMode::SubfieldOwned => true,
        MetricMode::Value | MetricMode::ValueString => false,
    };
    let on_drop_wrapper = match root.mode {
        MetricMode::RootEntry => true,
        MetricMode::Subfield
        | MetricMode::SubfieldOwned
        | MetricMode::ValueString
        | MetricMode::Value => false,
    };
    Ok(
        StructPlan {
            entry_name,
            guard_name,
            handle_name,
            named: any_named(fields),
            inner,
            object_value,
            closed: non_ignored(fields),
            on_drop_wrapper,
        },
    )
}

} // verus!
