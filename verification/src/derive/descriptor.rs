//! The code that describes the fields of an entry.

use vstd::prelude::*;
use vstd::string::*;

use crate::derive::field::{numbered, numbered_text, MetricsFieldKind};

verus! {

/// A formatter type: the last part of its path, where it is a path, and its first type
/// argument, where it has one.
#[derive(Debug)]
pub struct FormatType {
    pub segment: Option<String>,
    pub argument: Option<Box<FormatType>>,
}

/// The shape that a formatter gives a field.
#[derive(Debug)]
pub enum FormatShape {
    /// A nested object.
    Object,
    /// A string.
    Text,
    /// A list.
    List(Box<FormatShape>),
    /// A shape that is not known.
    Opaque,
}

/// The shape that a formatter gives a field. Only the formatters of this library are known.
pub open spec fn format_shape(format: FormatType) -> FormatShape
    decreases format,
{
    match format.segment {
        None => FormatShape::Opaque,
        Some(name) => if name@ == "AsObject"@ {
            FormatShape::Object
        } else if name@ == "ToString"@ {
            FormatShape::Text
        } else if name@ == "Each"@ {
            match format.argument {
                Some(inner) => FormatShape::List(Box::new(format_shape(*inner))),
                None => FormatShape::Opaque,
            }
        } else {
            FormatShape::Opaque
        },
    }
}

proof fn formatter_names_differ()
    ensures
        "AsObject"@ != "ToString"@,
        "AsObject"@ != "Each"@,
        "ToString"@ != "Each"@,
{
    reveal_strlit("AsObject");
    reveal_strlit("ToString");
    reveal_strlit("Each");
    assert("AsObject"@[0] != "ToString"@[0]);
    assert("AsObject"@.len() != "Each"@.len());
    assert("ToString"@.len() != "Each"@.len());
}

/// The shape that a formatter gives a field.
pub fn format_shape_expr(format: &FormatType) -> (shape: FormatShape)
    ensures
        shape == format_shape(*format),
    decreases format,
{
    proof {
        formatter_names_differ();
    }
    match &format.segment {
        None => FormatShape::Opaque,
        Some(name) => {
            if *name == "AsObject".to_owned() {
                FormatShape::Object
            } else if *name == "ToString".to_owned() {
                FormatShape::Text
            } else if *name == "Each".to_owned() {
                match &format.argument {
                    Some(inner) => FormatShape::List(Box::new(format_shape_expr(inner))),
                    None => FormatShape::Opaque,
                }
            } else {
                FormatShape::Opaque
            }
        },
    }
}

/// Where the shape of a field comes from.
#[derive(Debug)]
pub enum ShapeSource {
    /// The formatter.
    Format(FormatShape),
    /// The type that the field is closed to.
    Closed,
    /// The type of the field.
    Direct,
}

/// Where the unit of a field comes from.
#[derive(Clone, Copy, Debug, PartialEq, Eq, Structural)]
pub enum UnitSource {
    /// The attribute.
    Explicit,
    /// It is not known.
    Unknown,
    /// The type that the field is closed to.
    Closed,
    /// The type of the field.
    Direct,
}

/// What is known of a field when its description is generated.
#[derive(Debug)]
pub struct DescriptorFieldMeta {
    /// The name in each style, in the order of the styles.
    pub names: Vec<String>,
    /// The number of flags.
    pub flags: usize,
    /// The number of flags that are left out.
    pub skipped_flags: usize,
    /// Whether the unit is given.
    pub explicit_unit: bool,
    /// Whether the field is closed before it is written.
    pub close: bool,
    /// The formatter, if there is one.
    pub format: Option<FormatType>,
}

/// Where the shape of a field comes from: the formatter if there is one, else the type.
pub open spec fn shape_source(meta: DescriptorFieldMeta) -> ShapeSource {
    match meta.format {
        Some(format) => ShapeSource::Format(format_shape(format)),
        None => if meta.close {
            ShapeSource::Closed
        } else {
            ShapeSource::Direct
        },
    }
}

/// Where the unit of a field comes from: the attribute, else the type, unless there is a
/// formatter.
pub open spec fn unit_source(meta: DescriptorFieldMeta) -> UnitSource {
    if meta.explicit_unit {
        UnitSource::Explicit
    } else if meta.format is Some {
        UnitSource::Unknown
    } else if meta.close {
        UnitSource::Closed
    } else {
        UnitSource::Direct
    }
}

/// Where the shape of a field comes from.
pub fn shape_expr(meta: &DescriptorFieldMeta) -> (source: ShapeSource)
    ensures
        source == shape_source(*meta),
{
    match &meta.format {
        Some(format) => ShapeSource::Format(format_shape_expr(format)),
        None => if meta.close {
            ShapeSource::Closed
        } else {
            ShapeSource::Direct
        },
    }
}

/// Where the unit of a field comes from.
pub fn unit_expr(meta: &DescriptorFieldMeta) -> (source: UnitSource)
    ensures
        source == unit_source(*meta),
{
    if meta.explicit_unit {
        UnitSource::Explicit
    } else if meta.format.is_some() {
        UnitSource::Unknown
    } else if meta.close {
        UnitSource::Closed
    } else {
        UnitSource::Direct
    }
}

/// The description of a field.
#[derive(Debug)]
pub struct FieldPlan {
    /// The names of the lists of flags, and their lengths.
    pub flags_ident: String,
    pub num_flags: usize,
    pub skipped_ident: String,
    pub num_skipped: usize,
    /// The name in each style.
    pub preserve: String,
    pub pascal: String,
    pub snake: String,
    pub kebab: String,
    pub screaming_snake: String,
    pub unit: UnitSource,
    pub shape: ShapeSource,
}

/// The description of an entry.
#[derive(Debug)]
pub struct DescriptorPlan {
    /// The name of the list of fields.
    pub fields_ident: String,
    /// The name of the description.
    pub desc_ident: String,
    pub fields: Vec<FieldPlan>,
}

/// A name made of a fixed start, what tells the entry apart, and an end.
pub open spec fn static_name(ident_prefix: Seq<char>, end: Seq<char>) -> Seq<char> {
    "__METRIQUE_"@ + ident_prefix + end
}

/// Whether the plan is that of the field at position `i`: its lists of flags are named after
/// the position, and its names are those for the styles.
pub open spec fn is_field_plan(
    plan: FieldPlan,
    meta: DescriptorFieldMeta,
    ident_prefix: Seq<char>,
    i: nat,
) -> bool {
    &&& plan.flags_ident@ == numbered(static_name(ident_prefix, "_FLAGS_"@), i)
    &&& plan.num_flags == meta.flags
    &&& plan.skipped_ident@ == numbered(static_name(ident_prefix, "_SKIPPED_"@), i)
    &&& plan.num_skipped == meta.skipped_flags
    &&& plan.preserve@ == meta.names@[0]@
    &&& plan.pascal@ == meta.names@[1]@
    &&& plan.snake@ == meta.names@[2]@
    &&& plan.kebab@ == meta.names@[3]@
    &&& plan.screaming_snake@ == meta.names@[4]@
    &&& plan.unit == unit_source(meta)
    &&& plan.shape == shape_source(meta)
}

/// A name made of a fixed start, what tells the entry apart, and an end.
fn static_name_text(ident_prefix: &str, end: &str) -> (name: String)
    ensures
        name@ == static_name(ident_prefix@, end@),
{
    let mut name = "__METRIQUE_".to_owned();
    name.append(ident_prefix);
    name.append(end);
    name
}

/// Plans the description of an entry with the given fields, each with a name in each style.
pub fn generate_style_matched_descriptor(fields: &Vec<DescriptorFieldMeta>, ident_prefix: &str)
    -> (plan: DescriptorPlan)
    requires
        forall|i: int| 0 <= i < fields@.len() ==> (#[trigger] fields@[i]).names@.len() == 5,
    ensures
        plan.fields_ident@ == static_name(ident_prefix@, "_FIELDS"@),
        plan.desc_ident@ == static_name(ident_prefix@, "_DESC"@),
        plan.fields@.len() == fields@.len(),
        forall|i: int|
            0 <= i < fields@.len() ==> is_field_plan(
                #[trigger] plan.fields@[i],
                fields@[i],
                ident_prefix@,
                i as nat,
            ),
{
    let flags_head = static_name_text(ident_prefix, "_FLAGS_");
    let skipped_head = static_name_text(ident_prefix, "_SKIPPED_");
    let mut plans: Vec<FieldPlan> = Vec::new();
    for i in 0..fields.len()
        invariant
            forall|i: int| 0 <= i < fields@.len() ==> (#[trigger] fields@[i]).names@.len() == 5,
            flags_head@ == static_name(ident_prefix@, "_FLAGS_"@),
            skipped_head@ == static_name(ident_prefix@, "_SKIPPED_"@),
            plans@.len() == i,
            forall|j: int|
                0 <= j < i ==> is_field_plan(
                    #[trigger] plans@[j],
                    fields@[j],
                    ident_prefix@,
                    j as nat,
                ),
    {
        let meta = &fields[i];
        plans.push(
            FieldPlan {
                flags_ident: numbered_text(flags_head.as_str(), i),
                num_flags: meta.flags,
                skipped_ident: numbered_text(skipped_head.as_str(), i),
                num_skipped: meta.skipped_flags,
                preserve: meta.names[0].clone(),
                pascal: meta.names[1].clone(),
                snake: meta.names[2].clone(),
                kebab: meta.names[3].clone(),
                screaming_snake: meta.names[4].clone(),
                unit: unit_expr(meta),
                shape: shape_expr(meta),
            },
        );
    }
    DescriptorPlan {
        fields_ident: static_name_text(ident_prefix, "_FIELDS"),
        desc_ident: static_name_text(ident_prefix, "_DESC"),
        fields: plans,
    }
}

/// The method that describes a run of fields of the entry itself.
#[derive(Debug)]
pub struct RunPlan {
    /// The number of the run.
    pub run: usize,
    pub method_ident: String,
    /// Whether the description has the timestamp of the entry.
    pub timestamp: bool,
}

/// The numbers of the runs that are described, among the first `n`: the first one, and the
/// others unless they are empty.
pub open spec fn described_runs(field_counts: Seq<usize>, n: nat) -> Seq<usize>
    decreases n,
{
    if n == 0 {
        Seq::empty()
    } else {
        let init = described_runs(field_counts, (n - 1) as nat);
        if n == 1 || field_counts[n - 1] > 0 {
            init.push((n - 1) as usize)
        } else {
            init
        }
    }
}

/// The name of the method that describes a run.
pub fn descriptor_method_ident(run: usize) -> (name: String)
    ensures
        name@ == numbered("__metrique_descriptor_run_"@, run as nat),
{
    numbered_text("__metrique_descriptor_run_", run)
}

/// Plans the methods that describe runs of fields, given how many fields each run has. Only
/// the first has the timestamp.
pub fn generate_descriptor_impl(field_counts: &Vec<usize>) -> (plans: Vec<RunPlan>)
    ensures
        plans@.map_values(|p: RunPlan| p.run) == described_runs(field_counts@, field_counts@.len()),
        forall|i: int|
            0 <= i < plans@.len() ==> {
                let p = #[trigger] plans@[i];
                &&& p.method_ident@ == numbered("__metrique_descriptor_run_"@, p.run as nat)
                &&& p.timestamp == (p.run == 0)
            },
{
    let mut plans: Vec<RunPlan> = Vec::new();
    assert(plans@.map_values(|p: RunPlan| p.run) =~= described_runs(field_counts@, 0));
    for i in 0..field_counts.len()
        invariant
            plans@.map_values(|p: RunPlan| p.run) == described_runs(field_counts@, i as nat),
            forall|i: int|
                0 <= i < plans@.len() ==> {
                    let p = #[trigger] plans@[i];
                    &&& p.method_ident@ == numbered("__metrique_descriptor_run_"@, p.run as nat)
                    &&& p.timestamp == (p.run == 0)
                },
    {
        if i == 0 || field_counts[i] > 0 {
            let ghost before = plans@;
            plans.push(
                RunPlan { run: i, method_ident: descriptor_method_ident(i), timestamp: i == 0 },
            );
            assert(plans@.map_values(|p: RunPlan| p.run) =~= before.map_values(
                |p: RunPlan| p.run,
            ).push(i));
        }
    }
    plans
}

/// Where the descriptions of a flattened entry come from.
#[derive(Clone, Copy, Debug, PartialEq, Eq, Structural)]
pub enum FlattenPlan {
    /// The entry itself.
    Entry,
    /// The entry in a namespace, each description with a prefix and with flags added.
    Inflected { prefix: bool, flags: usize },
}

impl FlattenPlan {
    /// Whether the descriptions are changed at all.
    pub open spec fn changes(self) -> bool {
        self matches FlattenPlan::Inflected { prefix, flags } && (prefix || flags > 0)
    }

    /// Whether the descriptions are changed at all.
    pub fn is_mapped(&self) -> (res: bool)
        ensures
            res == self.changes(),
    {
        match self {
            FlattenPlan::Entry => false,
            FlattenPlan::Inflected { prefix, flags } => *prefix || *flags > 0,
        }
    }
}

/// Plans where the descriptions of a flattened entry come from.
pub fn flatten_descriptors_expr(kind: &MetricsFieldKind) -> (plan: FlattenPlan)
    requires
        kind is Flatten || kind is FlattenEntry,
    ensures
        plan == match *kind {
            MetricsFieldKind::Flatten { prefix, default_flags } => FlattenPlan::Inflected {
                prefix,
                flags: default_flags@.len() as usize,
            },
            _ => FlattenPlan::Entry,
        },
{
    match kind {
        MetricsFieldKind::Flatten { prefix, default_flags } => FlattenPlan::Inflected {
            prefix: *prefix,
            flags: default_flags.len(),
        },
        _ => FlattenPlan::Entry,
    }
}

/// How the descriptions of an entry are chained.
#[derive(Debug)]
pub enum ChainPlan {
    /// The base alone.
    Base,
    /// The base, then that many children in one expression.
    Linear(usize),
    /// The base, then the children one statement after the other; some of the statements are
    /// compiled under conditions.
    Rebinding(Vec<bool>),
}

/// Plans how the descriptions of an entry are chained to those of its children, given which
/// of them have conditions. The children always come in their order.
pub fn build_descriptors_chain(gated: &Vec<bool>) -> (plan: ChainPlan)
    ensures
        gated@.len() == 0 ==> plan is Base,
        gated@.len() > 0 && (forall|i: int| 0 <= i < gated@.len() ==> !gated@[i])
            ==> plan == ChainPlan::Linear(gated@.len() as usize),
        (exists|i: int| 0 <= i < gated@.len() && gated@[i]) ==> (plan matches ChainPlan::Rebinding(
            steps,
        ) && steps@ == gated@),
{
    if gated.len() == 0 {
        return ChainPlan::Base;
    }
    let mut has_cfg = false;
    let mut steps: Vec<bool> = Vec::new();
    for i in 0..gated.len()
        invariant
            steps@ == gated@.take(i as int),
            has_cfg == (exists|j: int| 0 <= j < i && gated@[j]),
    {
        if gated[i] {
            has_cfg = true;
        }
        steps.push(gated[i]);
        assert(steps@ =~= gated@.take(i + 1));
    }
    assert(steps@ =~= gated@);
    if has_cfg {
        ChainPlan::Rebinding(steps)
    } else {
        ChainPlan::Linear(gated.len())
    }
}

proof fn runs_are_numbered(field_counts: Seq<usize>, n: nat, k: int)
    requires
        n <= field_counts.len() <= usize::MAX,
        0 <= k < described_runs(field_counts, n).len(),
    ensures
        described_runs(field_counts, n)[k] < n,
        k > 0 ==> described_runs(field_counts, n)[k] > 0,
        k == 0 ==> described_runs(field_counts, n)[k] == 0,
    decreases n,
{
    reveal_with_fuel(described_runs, 2);
    if n > 1 {
        let init = described_runs(field_counts, (n - 1) as nat);
        first_run_is_described(field_counts, (n - 1) as nat);
        if k < init.len() {
            runs_are_numbered(field_counts, (n - 1) as nat, k);
        }
    }
}

proof fn first_run_is_described(field_counts: Seq<usize>, n: nat)
    requires
        0 < n <= field_counts.len(),
    ensures
        described_runs(field_counts, n).len() > 0,
        described_runs(field_counts, n)[0] == 0,
    decreases n,
{
    reveal_with_fuel(described_runs, 2);
    if n > 1 {
        first_run_is_described(field_counts, (n - 1) as nat);
    }
}

/// The first run is described whatever it holds, and comes first; so exactly one of the
/// descriptions has the timestamp.
pub proof fn first_run_carries_the_timestamp(field_counts: Seq<usize>, k: int)
    requires
        0 < field_counts.len() <= usize::MAX,
        0 <= k < described_runs(field_counts, field_counts.len()).len(),
    ensures
        described_runs(field_counts, field_counts.len())[0] == 0,
        described_runs(field_counts, field_counts.len())[k] == 0 <==> k == 0,
{
    first_run_is_described(field_counts, field_counts.len());
    runs_are_numbered(field_counts, field_counts.len(), k);
}

} // verus!
