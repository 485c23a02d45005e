//! What holds of all plans for generated code.

use vstd::arithmetic::power2::{lemma2_to64, lemma_pow2_unfold, pow2};
use vstd::prelude::*;
use vstd::string::*;

use crate::derive::descriptor::{
    build_descriptors_chain, described_runs, format_shape, is_field_plan, shape_source, unit_source,
    ChainPlan, DescriptorFieldMeta, FieldPlan, FormatShape, FormatType, ShapeSource, UnitSource,
};
use crate::derive::field::{
    namespace_of, FieldTagAttr, MetricsField, MetricsFieldKind, NameStyle, Namespace,
};
use crate::derive::flags::{
    field_flags_resolved, inherited_flags, left_out, own_flags, specified, FlagSource,
};
use crate::derive::names::{alphanumeric, constant_name, letters_and_digits};
use crate::derive::sample::{halvings, numbers_from, sample_group_source, SampleGroupSource};
use crate::derive::structs::{closes_by_reference, entry_name, makes_entry, struct_error};
use crate::derive::value::{
    generate_value_impl_for_enum, kept, kept_fields, value_error_field, value_error_text,
    value_plan, MetricMode, RootAttributes, ValueError, ValuePlan,
};
use crate::derive::writes::{
    field_write, field_writes, nested_wrappers, writer_below, FieldWriteModel, WriterRef,
};
use crate::listing::{selects, selects_more, selects_none};
use crate::text::decimal;

verus! {

// ---------------------------------------------------------------------------
// Names
// ---------------------------------------------------------------------------

/// The namespace for a spelling: that of the spelling itself, or the inherited one where names stay
/// as they are. Capitals with underscores are spelled out, on top of lower case with underscores.
pub proof fn namespaces_follow_spellings()
    ensures
        namespace_of(NameStyle::Preserve) == Namespace::Inherited,
        namespace_of(NameStyle::PascalCase) == Namespace::PascalCase,
        namespace_of(NameStyle::KebabCase) == Namespace::KebabCase,
        namespace_of(NameStyle::SnakeCase) == Namespace::SnakeCase,
        namespace_of(NameStyle::ScreamingSnakeCase) == Namespace::SnakeCase,
{
}

/// The letters and digits of a text are those of its characters, in order and nothing else.
pub proof fn letters_and_digits_are_kept(s: Seq<char>) -> (at: Seq<int>)
    ensures
        selects(at, s.len(), |i: int| alphanumeric(s[i])),
        letters_and_digits(s).len() == at.len(),
        forall|k: int| 0 <= k < at.len() ==> #[trigger] letters_and_digits(s)[k] == s[at[k]],
    decreases s.len(),
{
    if s.len() == 0 {
        selects_none(|i: int| alphanumeric(s[i]));
        Seq::empty()
    } else {
        let init = s.drop_last();
        let n = init.len();
        let before = letters_and_digits_are_kept(init);
        let f = |i: int| alphanumeric(init[i]);
        let g = |i: int| alphanumeric(s[i]);
        assert forall|i: int| 0 <= i < n implies #[trigger] f(i) == g(i) by {
            assert(init[i] == s[i]);
        }
        selects_more(before, n, f, g);
        let at = if g(n as int) {
            before.push(n as int)
        } else {
            before
        };
        let kept = letters_and_digits(s);
        assert forall|k: int| 0 <= k < at.len() implies #[trigger] letters_and_digits(s)[k]
            == s[at[k]] by {
            if k < before.len() {
                assert(kept[k] == letters_and_digits(init)[k]);
                assert(at[k] == before[k]);
                assert(init[before[k]] == s[before[k]]);
            }
        }
        at
    }
}

// ---------------------------------------------------------------------------
// Fields
// ---------------------------------------------------------------------------

proof fn kept_so_far(fields: Seq<MetricsField>, n: nat)
    requires
        n <= fields.len() <= usize::MAX,
    ensures
        forall|i: usize| #[trigger]
            kept_fields(fields, n).contains(i) <==> i < n && !(fields[i as int].kind is Ignore),
        forall|j: int, k: int|
            0 <= j < k < kept_fields(fields, n).len() ==> #[trigger] kept_fields(fields, n)[j]
                < #[trigger] kept_fields(fields, n)[k],
    decreases n,
{
    if n > 0 {
        let m = (n - 1) as nat;
        kept_so_far(fields, m);
        let before = kept_fields(fields, m);
        let after = kept_fields(fields, n);
        assert forall|i: usize| #[trigger] after.contains(i) <==> i < n && !(
        fields[i as int].kind is Ignore) by {
            if before.contains(i) {
                let k = choose|k: int| 0 <= k < before.len() && before[k] == i;
                assert(after[k] == i);
            }
            if after.contains(i) {
                let k = choose|k: int| 0 <= k < after.len() && after[k] == i;
                if k < before.len() {
                    assert(before[k] == i);
                    assert(before.contains(i));
                }
            }
            if i == n - 1 && !(fields[i as int].kind is Ignore) {
                assert(after[before.len() as int] == i);
            }
        }
        assert forall|j: int, k: int| 0 <= j < k < after.len() implies #[trigger] after[j]
            < #[trigger] after[k] by {
            assert(after[j] == before[j]);
            if k < before.len() {
                assert(after[k] == before[k]);
            } else {
                assert(before.contains(before[j]));
            }
        }
    }
}

/// The fields that are closed into an entry are all that are not ignored, in order.
pub proof fn fields_are_kept(fields: Seq<MetricsField>)
    requires
        fields.len() <= usize::MAX,
    ensures
        forall|i: usize| #[trigger]
            kept(fields).contains(i) <==> i < fields.len() && !(fields[i as int].kind is Ignore),
        forall|j: int, k: int|
            0 <= j < k < kept(fields).len() ==> #[trigger] kept(fields)[j] < #[trigger] kept(
                fields,
            )[k],
{
    kept_so_far(fields, fields.len());
}

/// Each wrapper adds the flag at its position, round the wrapper before it, and the first one round
/// the writer itself; what is written goes to the last one.
pub proof fn wrappers_are_nested(n: nat)
    requires
        n <= usize::MAX,
    ensures
        nested_wrappers(n).len() == n,
        forall|i: int|
            0 <= i < n ==> (#[trigger] nested_wrappers(n)[i]).flag == i && nested_wrappers(
                n,
            )[i].inner == (if i == 0 {
                WriterRef::Writer
            } else {
                WriterRef::Wrapper((i - 1) as usize)
            }),
        n == 0 ==> writer_below(n as int) == WriterRef::Writer,
        n > 0 ==> writer_below(n as int) == WriterRef::Wrapper((n - 1) as usize),
{
}

/// How a field is written: a timestamp as such, a flattened entry by itself or in the namespace of the
/// spelling, with the prefix and the flags that it is given, and anything else as a value, through
/// its formatter if it has one and with its flags. A field that is ignored is not written.
pub proof fn fields_are_written_by_kind(
    field: MetricsField,
    style: NameStyle,
    default_flags: Seq<FieldTagAttr>,
)
    ensures
        field_write(field, style, default_flags) is None <==> field.kind is Ignore,
        field.kind is Timestamp ==> field_write(field, style, default_flags) == Some(
            FieldWriteModel::Timestamp,
        ),
        field.kind is FlattenEntry ==> field_write(field, style, default_flags) == Some(
            FieldWriteModel::Entry,
        ),
        field.kind matches MetricsFieldKind::Flatten { prefix, default_flags: own } ==> (
        field_write(field, style, default_flags) matches Some(
            FieldWriteModel::Inflected { namespace, prefixed, wrappers, target },
        ) && namespace == namespace_of(style) && prefixed == prefix && wrappers == nested_wrappers(
            own@.len(),
        ) && target == writer_below(own@.len() as int)),
        field.kind matches MetricsFieldKind::Field { format, .. } ==> (field_write(
            field,
            style,
            default_flags,
        ) matches Some(FieldWriteModel::Value { namespace, formatted, flags }) && namespace
            == namespace_of(style) && formatted == format && flags == field_flags_resolved(
            field.flags@,
            default_flags,
        )),
{
}

proof fn writes_so_far(
    fields: Seq<MetricsField>,
    n: nat,
    style: NameStyle,
    default_flags: Seq<FieldTagAttr>,
    k: int,
)
    requires
        n <= fields.len(),
        0 <= k < field_writes(fields, n, style, default_flags).len(),
    ensures
        ({
            let w = field_writes(fields, n, style, default_flags)[k];
            &&& 0 <= w.field < n
            &&& w.gated == fields[w.field].gated
            &&& field_write(fields[w.field], style, default_flags) == Some(w.write)
        }),
    decreases n,
{
    if k < field_writes(fields, (n - 1) as nat, style, default_flags).len() {
        writes_so_far(fields, (n - 1) as nat, style, default_flags, k);
    }
}

/// Each piece of code writes the field that it is for, as its kind asks for, and under the conditions
/// of that field.
pub proof fn pieces_write_their_fields(
    fields: Seq<MetricsField>,
    style: NameStyle,
    default_flags: Seq<FieldTagAttr>,
    k: int,
)
    requires
        0 <= k < field_writes(fields, fields.len(), style, default_flags).len(),
    ensures
        ({
            let w = field_writes(fields, fields.len(), style, default_flags)[k];
            &&& 0 <= w.field < fields.len()
            &&& w.gated == fields[w.field].gated
            &&& field_write(fields[w.field], style, default_flags) == Some(w.write)
        }),
{
    writes_so_far(fields, fields.len(), style, default_flags, k);
}

/// What a field adds to the sample group: a flattened entry its own group, in the namespace of the
/// spelling unless it is written as it is; a value its name and itself if it is asked to; anything
/// else nothing.
pub proof fn sample_groups_follow_fields(kind: MetricsFieldKind, style: NameStyle)
    ensures
        sample_group_source(kind, style) == match kind {
            MetricsFieldKind::Flatten { .. } => Some(
                SampleGroupSource::Inflected(namespace_of(style)),
            ),
            MetricsFieldKind::FlattenEntry => Some(SampleGroupSource::Entry),
            MetricsFieldKind::Field { sample_group: true, .. } => Some(
                SampleGroupSource::Value(namespace_of(style)),
            ),
            MetricsFieldKind::Field { sample_group: false, .. } => None,
            MetricsFieldKind::Timestamp => None,
            MetricsFieldKind::Ignore => None,
        },
{
}

// ---------------------------------------------------------------------------
// Flags
// ---------------------------------------------------------------------------

proof fn inherited_so_far(
    field_flags: Seq<FieldTagAttr>,
    default_flags: Seq<FieldTagAttr>,
    n: nat,
    i: usize,
)
    requires
        i < n <= default_flags.len() <= usize::MAX,
        !specified(field_flags, default_flags[i as int].path@),
    ensures
        inherited_flags(field_flags, default_flags, n).contains(FlagSource::Default(i)),
    decreases n,
{
    let before = inherited_flags(field_flags, default_flags, (n - 1) as nat);
    let after = inherited_flags(field_flags, default_flags, n);
    if i < n - 1 {
        inherited_so_far(field_flags, default_flags, (n - 1) as nat, i);
        let k = choose|k: int| 0 <= k < before.len() && before[k] == FlagSource::Default(i);
        assert(after[k] == FlagSource::Default(i));
    } else {
        assert(after[before.len() as int] == FlagSource::Default(i));
    }
}

/// A field has each default flag that it says nothing of, after its own flags.
pub proof fn default_flags_are_inherited(
    field_flags: Seq<FieldTagAttr>,
    default_flags: Seq<FieldTagAttr>,
    i: usize,
)
    requires
        i < default_flags.len() <= usize::MAX,
        forall|j: int|
            0 <= j < field_flags.len() ==> (#[trigger] field_flags[j]).path@
                != default_flags[i as int].path@,
    ensures
        field_flags_resolved(field_flags, default_flags).contains(FlagSource::Default(i)),
{
    inherited_so_far(field_flags, default_flags, default_flags.len(), i);
    let own = own_flags(field_flags, field_flags.len());
    let more = inherited_flags(field_flags, default_flags, default_flags.len());
    let k = choose|k: int| 0 <= k < more.len() && more[k] == FlagSource::Default(i);
    assert(field_flags_resolved(field_flags, default_flags)[own.len() + k] == FlagSource::Default(
        i,
    ));
}

/// The flags that a field does without are those that it names to be left out, in order.
pub proof fn skipped_flags_are_left_out(field_flags: Seq<FieldTagAttr>, n: nat)
    requires
        n <= field_flags.len() <= usize::MAX,
    ensures
        forall|i: usize| #[trigger]
            left_out(field_flags, n).contains(i) <==> i < n && field_flags[i as int].skip,
    decreases n,
{
    if n > 0 {
        let m = (n - 1) as nat;
        skipped_flags_are_left_out(field_flags, m);
        let before = left_out(field_flags, m);
        let after = left_out(field_flags, n);
        assert forall|i: usize| #[trigger] after.contains(i) <==> i < n
            && field_flags[i as int].skip by {
            if before.contains(i) {
                let k = choose|k: int| 0 <= k < before.len() && before[k] == i;
                assert(after[k] == i);
            }
            if after.contains(i) {
                let k = choose|k: int| 0 <= k < after.len() && after[k] == i;
                if k < before.len() {
                    assert(before[k] == i);
                    assert(before.contains(i));
                }
            }
            if i == n - 1 && field_flags[i as int].skip {
                assert(after[before.len() as int] == i);
            }
        }
    }
}

// ---------------------------------------------------------------------------
// Values
// ---------------------------------------------------------------------------

/// A struct can be a value if and only if it has at most one field that is not ignored, and that
/// one is plain, without a name of its own and without a mark for the sample group; the struct has
/// such a field if it tells the sample group, and neither dimensions nor a prefix nor a spelling.
pub proof fn structs_that_can_be_values(root: RootAttributes, fields: Seq<MetricsField>)
    requires
        fields.len() <= usize::MAX,
        root.mode == MetricMode::Value,
    ensures
        struct_error(root, fields) is None <==> {
            &&& forall|i: int, j: int|
                0 <= i < j < fields.len() ==> (#[trigger] fields[i]).kind is Ignore || (
                #[trigger] fields[j]).kind is Ignore
            &&& forall|i: int|
                0 <= i < fields.len() ==> (#[trigger] fields[i]).kind is Ignore || (fields[i].kind
                    matches MetricsFieldKind::Field { sample_group, name, .. } && !sample_group
                    && !name)
            &&& root.sample_group ==> exists|i: int|
                0 <= i < fields.len() && !((#[trigger] fields[i]).kind is Ignore)
            &&& !root.emf_dimensions
            &&& !root.prefix
            &&& root.rename_all == NameStyle::Preserve
        },
{
    fields_are_kept(fields);
    let kept = kept(fields);
    if kept.len() > 1 {
        let a = kept[0] as int;
        let b = kept[1] as int;
        assert(kept.contains(kept[0]));
        assert(kept.contains(kept[1]));
        assert(a < b);
        assert(!(fields[a].kind is Ignore) && !(fields[b].kind is Ignore));
    } else {
        assert forall|i: int, j: int| 0 <= i < j < fields.len() implies (
        #[trigger] fields[i]).kind is Ignore || (#[trigger] fields[j]).kind is Ignore by {
            if !(fields[i].kind is Ignore) && !(fields[j].kind is Ignore) {
                assert(kept.contains(i as usize));
                assert(kept.contains(j as usize));
            }
        }
        if kept.len() == 1 {
            let a = kept[0] as int;
            assert(kept.contains(kept[0]));
            assert(!(fields[a].kind is Ignore));
            assert forall|i: int| 0 <= i < fields.len() && i != a implies (
            #[trigger] fields[i]).kind is Ignore by {
                if !(fields[i].kind is Ignore) {
                    assert(kept.contains(i as usize));
                }
            }
        } else {
            assert forall|i: int| 0 <= i < fields.len() implies (#[trigger] fields[i]).kind
                is Ignore by {
                if !(fields[i].kind is Ignore) {
                    assert(kept.contains(i as usize));
                }
            }
        }
    }
}

/// A value is written through the one field that is not ignored, through the formatter of that field
/// if it has one, and it tells the sample group if the struct says so. Without such a field nothing
/// is written.
pub proof fn values_are_written_through_their_field(
    root: RootAttributes,
    fields: Seq<MetricsField>,
    i: usize,
)
    requires
        i < fields.len() <= usize::MAX,
        forall|j: int| 0 <= j < fields.len() && j != i ==> (#[trigger] fields[j]).kind is Ignore,
    ensures
        fields[i as int].kind is Ignore ==> value_plan(root, fields) == Ok::<
            ValuePlan,
            ValueError,
        >(ValuePlan { field: None, formatted: false, sample_group: false }),
        fields[i as int].kind matches MetricsFieldKind::Field { format, .. } ==> (value_plan(
            root,
            fields,
        ) matches Ok(plan) && plan.field == Some(i) && plan.formatted == format
            && plan.sample_group == root.sample_group),
        !(fields[i as int].kind is Ignore) && !(fields[i as int].kind is Field) ==> value_plan(
            root,
            fields,
        ) == Err::<ValuePlan, ValueError>(ValueError::NotPlain(i)),
{
    fields_are_kept(fields);
    let kept = kept(fields);
    if kept.len() > 0 {
        assert(kept.contains(kept[0]));
        assert(kept[0] == i);
    }
    if !(fields[i as int].kind is Ignore) {
        assert(kept.contains(i));
    }
}

/// The entry for a struct is named after it, and what is generated besides depends on whether it is
/// an entry or a value.
pub proof fn entries_are_named_after_structs(name: Seq<char>, mode: MetricMode)
    ensures
        mode == MetricMode::Value ==> entry_name(name, mode) == name + "Value"@,
        mode != MetricMode::Value ==> entry_name(name, mode) == name + "Entry"@,
        makes_entry(mode) <==> mode != MetricMode::Value && mode != MetricMode::ValueString,
{
}

// ---------------------------------------------------------------------------
// Descriptions
// ---------------------------------------------------------------------------

/// The shape of a field: as its formatter says if it has one, else as its type says, once it is
/// closed where it is. The unit is the one that is given, else that of the type, and not known
/// behind a formatter.
pub proof fn shapes_and_units_of_fields(meta: DescriptorFieldMeta)
    ensures
        meta.format matches Some(format) ==> shape_source(meta) == ShapeSource::Format(
            format_shape(format),
        ),
        meta.format is None && meta.close ==> shape_source(meta) == ShapeSource::Closed,
        meta.format is None && !meta.close ==> shape_source(meta) == ShapeSource::Direct,
        meta.explicit_unit ==> unit_source(meta) == UnitSource::Explicit,
        !meta.explicit_unit && meta.format is Some ==> unit_source(meta) == UnitSource::Unknown,
        !meta.explicit_unit && meta.format is None && meta.close ==> unit_source(meta)
            == UnitSource::Closed,
        !meta.explicit_unit && meta.format is None && !meta.close ==> unit_source(meta)
            == UnitSource::Direct,
{
}

/// The formatters of this library give the shapes that they are for: one makes objects, one strings,
/// and one lists of what another makes. Nothing is known of any other.
pub proof fn shapes_of_formatters(format: FormatType)
    ensures
        format.segment is None ==> format_shape(format) == FormatShape::Opaque,
        format.segment matches Some(name) ==> {
            &&& name@ == "AsObject"@ ==> format_shape(format) == FormatShape::Object
            &&& name@ == "ToString"@ ==> format_shape(format) == FormatShape::Text
            &&& name@ == "Each"@ ==> format_shape(format) == match format.argument {
                Some(inner) => FormatShape::List(Box::new(format_shape(*inner))),
                None => FormatShape::Opaque,
            }
            &&& name@ != "AsObject"@ && name@ != "ToString"@ && name@ != "Each"@
                ==> format_shape(format) == FormatShape::Opaque
        },
{
    reveal_strlit("AsObject");
    reveal_strlit("ToString");
    reveal_strlit("Each");
    assert("AsObject"@[0] != "ToString"@[0]);
    assert("AsObject"@.len() != "Each"@.len());
}

/// The runs of fields that are described are the first, and all others that have fields.
pub proof fn runs_with_fields_are_described(field_counts: Seq<usize>, n: nat)
    requires
        n <= field_counts.len() <= usize::MAX,
    ensures
        forall|i: usize| #[trigger]
            described_runs(field_counts, n).contains(i) <==> i < n && (i == 0
                || field_counts[i as int] > 0),
    decreases n,
{
    if n > 0 {
        let m = (n - 1) as nat;
        runs_with_fields_are_described(field_counts, m);
        let before = described_runs(field_counts, m);
        let after = described_runs(field_counts, n);
        assert forall|i: usize| #[trigger] after.contains(i) <==> i < n && (i == 0
            || field_counts[i as int] > 0) by {
            if before.contains(i) {
                let k = choose|k: int| 0 <= k < before.len() && before[k] == i;
                assert(after[k] == i);
            }
            if after.contains(i) {
                let k = choose|k: int| 0 <= k < after.len() && after[k] == i;
                if k < before.len() {
                    assert(before[k] == i);
                    assert(before.contains(i));
                }
            }
            if i == n - 1 && (i == 0 || field_counts[i as int] > 0) {
                assert(after[before.len() as int] == i);
            }
        }
    }
}

// ---------------------------------------------------------------------------
// Errors
// ---------------------------------------------------------------------------

/// Whether a field is plain and marked for the sample group.
pub open spec fn is_marked(field: MetricsField) -> bool {
    field.kind matches MetricsFieldKind::Field { sample_group: true, .. }
}

/// Whether a field is plain and has a name of its own.
pub open spec fn is_renamed(field: MetricsField) -> bool {
    field.kind matches MetricsFieldKind::Field { name: true, .. }
}

/// Why a struct that is a value is refused. With two fields that are not ignored, the second one is
/// the reason; else what is asked of the one field is, then what is asked of the struct, then that
/// the field is not plain.
pub proof fn structs_are_refused_for_the_first_reason(
    root: RootAttributes,
    fields: Seq<MetricsField>,
    i: usize,
    j: usize,
)
    requires
        fields.len() <= usize::MAX,
        root.mode == MetricMode::Value,
    ensures
        i < j < fields.len() && !(fields[i as int].kind is Ignore) && !(fields[j as int].kind
            is Ignore) && (forall|k: int|
            0 <= k < j && k != i ==> (#[trigger] fields[k]).kind is Ignore) ==> struct_error(
            root,
            fields,
        ) == Some(ValueError::MultipleFields(j)),
        i < fields.len() && !(fields[i as int].kind is Ignore) && (forall|k: int|
            0 <= k < fields.len() && k != i ==> (#[trigger] fields[k]).kind is Ignore) ==> {
            let field = fields[i as int];
            let error = struct_error(root, fields);
            &&& is_marked(field) ==> error == Some(ValueError::FieldSampleGroup(i))
            &&& is_renamed(field) && !is_marked(field) ==> error == Some(ValueError::FieldName(i))
            &&& !is_renamed(field) && !is_marked(field) ==> {
                &&& root.emf_dimensions ==> error == Some(ValueError::EmfDimensions)
                &&& root.prefix && !root.emf_dimensions ==> error == Some(ValueError::Prefix)
                &&& root.rename_all != NameStyle::Preserve && !root.prefix && !root.emf_dimensions
                    ==> error == Some(ValueError::NameStyle)
                &&& root.rename_all == NameStyle::Preserve && !root.prefix && !root.emf_dimensions
                    && !(field.kind is Field) ==> error == Some(ValueError::NotPlain(i))
            }
        },
        (forall|k: int| 0 <= k < fields.len() ==> (#[trigger] fields[k]).kind is Ignore) ==> {
            let error = struct_error(root, fields);
            &&& root.sample_group ==> error == Some(ValueError::NoSampleGroupField)
            &&& root.emf_dimensions && !root.sample_group ==> error == Some(
                ValueError::EmfDimensions,
            )
            &&& root.prefix && !root.emf_dimensions && !root.sample_group ==> error == Some(
                ValueError::Prefix,
            )
            &&& root.rename_all != NameStyle::Preserve && !root.prefix && !root.emf_dimensions
                && !root.sample_group ==> error == Some(ValueError::NameStyle)
        },
{
    fields_are_kept(fields);
    let kept = kept(fields);
    if kept.len() > 0 {
        assert(kept.contains(kept[0]));
    }
    if kept.len() > 1 {
        assert(kept.contains(kept[1]));
        assert(kept[0] < kept[1]);
    }
    if i < j < fields.len() && !(fields[i as int].kind is Ignore) && !(fields[j as int].kind
        is Ignore) && (forall|k: int|
        0 <= k < j && k != i ==> (#[trigger] fields[k]).kind is Ignore) {
        assert(kept.contains(i));
        assert(kept.contains(j));
        let a = kept.index_of(i);
        let b = kept.index_of(j);
        assert(kept[a] == i && kept[b] == j);
        assert(kept.len() > 1);
        if kept[1] != j {
            assert(b >= 1);
            assert(b == 1 || kept[1] < kept[b]);
            assert(fields[kept[1] as int].kind is Ignore || kept[1] == i);
            assert(fields[kept[0] as int].kind is Ignore || kept[0] == i);
        }
    }
    if i < fields.len() && !(fields[i as int].kind is Ignore) && (forall|k: int|
        0 <= k < fields.len() && k != i ==> (#[trigger] fields[k]).kind is Ignore) {
        assert(kept.contains(i));
        assert(kept.len() == 1 && kept[0] == i);
    }
}

/// Errors of fields are told of those fields and the others of the struct, and each says what is
/// wrong.
pub proof fn errors_say_what_is_wrong(i: usize)
    ensures
        value_error_field(ValueError::MultipleFields(i)) == Some(i),
        value_error_field(ValueError::FieldSampleGroup(i)) == Some(i),
        value_error_field(ValueError::FieldName(i)) == Some(i),
        value_error_field(ValueError::NotPlain(i)) == Some(i),
        value_error_field(ValueError::NoSampleGroupField) is None,
        value_error_field(ValueError::EmfDimensions) is None,
        value_error_field(ValueError::Prefix) is None,
        value_error_field(ValueError::NameStyle) is None,
        value_error_text(ValueError::MultipleFields(i))
            == "multiple non-ignored fields for #[metrics(value)]"@,
        value_error_text(ValueError::FieldSampleGroup(i))
            == "`sample_group` in value structs is used as a struct attribute, not a field attribute: `#[metrics(value, sample_group)]`"@,
        value_error_text(ValueError::FieldName(i))
            == "`name` does not make sense with #[metrics(value)]"@,
        value_error_text(ValueError::NotPlain(i))
            == "only plain fields are supported in #[metrics(value)]"@,
        value_error_text(ValueError::NoSampleGroupField)
            == "`sample_group` requires a non-ignore field"@,
        value_error_text(ValueError::EmfDimensions)
            == "emf_dimensions is not supported for #[metrics(value)]"@,
        value_error_text(ValueError::Prefix) == "prefix is not supported for #[metrics(value)]"@,
        value_error_text(ValueError::NameStyle)
            == "NameStyle is not supported for #[metrics(value)]"@,
{
}

// ---------------------------------------------------------------------------
// Names in generated code
// ---------------------------------------------------------------------------

/// The name of a constant is made of the letters and digits of the text and of a word for the
/// style.
pub proof fn constants_are_named_after_styles(base: Seq<char>)
    ensures
        constant_name(base, NameStyle::Preserve) == letters_and_digits(base) + "Preserve"@,
        constant_name(base, NameStyle::PascalCase) == letters_and_digits(base) + "Pascal"@,
        constant_name(base, NameStyle::SnakeCase) == letters_and_digits(base) + "Snake"@,
        constant_name(base, NameStyle::KebabCase) == letters_and_digits(base) + "Kebab"@,
        constant_name(base, NameStyle::ScreamingSnakeCase) == letters_and_digits(base)
            + "ScreamingSnake"@,
{
}

/// The description of a field has the names, the numbers of flags, the unit and the shape of that
/// field, and lists that are named after the entry and the position of the field.
pub proof fn descriptions_are_of_their_fields(
    plan: FieldPlan,
    meta: DescriptorFieldMeta,
    entry: Seq<char>,
    i: nat,
)
    requires
        is_field_plan(plan, meta, entry, i),
    ensures
        plan.flags_ident@ == "__METRIQUE_"@ + entry + "_FLAGS_"@ + decimal(i),
        plan.skipped_ident@ == "__METRIQUE_"@ + entry + "_SKIPPED_"@ + decimal(i),
        plan.num_flags == meta.flags,
        plan.num_skipped == meta.skipped_flags,
        plan.preserve@ == meta.names@[0]@,
        plan.pascal@ == meta.names@[1]@,
        plan.snake@ == meta.names@[2]@,
        plan.kebab@ == meta.names@[3]@,
        plan.screaming_snake@ == meta.names@[4]@,
        plan.unit == unit_source(meta),
        plan.shape == shape_source(meta),
{
}

// ---------------------------------------------------------------------------
// Chains
// ---------------------------------------------------------------------------

/// The numbers from one on are in a row.
pub proof fn numbers_are_in_a_row(first: usize, n: nat)
    requires
        first + n <= usize::MAX,
    ensures
        numbers_from(first, n).len() == n,
        forall|i: int| 0 <= i < n ==> #[trigger] numbers_from(first, n)[i] == first + i,
{
}

/// The halvings that it takes are no more than needed: with so many, `n` iterators have room in a
/// tree, and with one less they would not.
pub proof fn chains_are_balanced(n: nat)
    ensures
        n <= pow2(halvings(n)),
        n > 1 ==> halvings(n) > 0 && pow2((halvings(n) - 1) as nat) < n,
        n <= 1 ==> halvings(n) == 0,
    decreases n,
{
    if n <= 1 {
        lemma2_to64();
    } else {
        let m = (n - n / 2) as nat;
        chains_are_balanced(m);
        lemma_pow2_unfold(halvings(n));
        if m > 1 {
            lemma_pow2_unfold(halvings(m));
        } else {
            lemma2_to64();
        }
    }
}

proof fn own_flags_so_far(field_flags: Seq<FieldTagAttr>, n: nat)
    requires
        n <= field_flags.len() <= usize::MAX,
    ensures
        forall|k: int|
            0 <= k < own_flags(field_flags, n).len() ==> (#[trigger] own_flags(field_flags, n)[k]
                matches FlagSource::Field(i) && i < n),
        forall|j: int, k: int|
            0 <= j < k < own_flags(field_flags, n).len() ==> (#[trigger] own_flags(
                field_flags,
                n,
            )[j])->Field_0 < (#[trigger] own_flags(field_flags, n)[k])->Field_0,
    decreases n,
{
    if n > 0 {
        own_flags_so_far(field_flags, (n - 1) as nat);
    }
}

proof fn inherited_flags_so_far(
    field_flags: Seq<FieldTagAttr>,
    default_flags: Seq<FieldTagAttr>,
    n: nat,
)
    requires
        n <= default_flags.len() <= usize::MAX,
    ensures
        forall|k: int|
            0 <= k < inherited_flags(field_flags, default_flags, n).len() ==> (
            #[trigger] inherited_flags(field_flags, default_flags, n)[k] matches FlagSource::Default(
                i,
            ) && i < n),
        forall|j: int, k: int|
            0 <= j < k < inherited_flags(field_flags, default_flags, n).len() ==> (
            #[trigger] inherited_flags(field_flags, default_flags, n)[j])->Default_0 < (
            #[trigger] inherited_flags(field_flags, default_flags, n)[k])->Default_0,
    decreases n,
{
    if n > 0 {
        inherited_flags_so_far(field_flags, default_flags, (n - 1) as nat);
    }
}

/// The flags of a field are in order: first those that it names, as it names them, then the default
/// ones, as they are given. None comes twice.
pub proof fn flags_are_in_order(
    field_flags: Seq<FieldTagAttr>,
    default_flags: Seq<FieldTagAttr>,
    j: int,
    k: int,
)
    requires
        field_flags.len() <= usize::MAX,
        default_flags.len() <= usize::MAX,
        0 <= j < k < field_flags_resolved(field_flags, default_flags).len(),
    ensures
        match (
            field_flags_resolved(field_flags, default_flags)[j],
            field_flags_resolved(field_flags, default_flags)[k],
        ) {
            (FlagSource::Field(a), FlagSource::Field(b)) => a < b,
            (FlagSource::Default(a), FlagSource::Default(b)) => a < b,
            (FlagSource::Field(_), FlagSource::Default(_)) => true,
            (FlagSource::Default(_), FlagSource::Field(_)) => false,
        },
{
    let own = own_flags(field_flags, field_flags.len());
    let more = inherited_flags(field_flags, default_flags, default_flags.len());
    own_flags_so_far(field_flags, field_flags.len());
    inherited_flags_so_far(field_flags, default_flags, default_flags.len());
    let all = field_flags_resolved(field_flags, default_flags);
    if j < own.len() {
        assert(all[j] == own[j]);
    } else {
        assert(all[j] == more[j - own.len()]);
    }
    if k < own.len() {
        assert(all[k] == own[k]);
    } else {
        assert(all[k] == more[k - own.len()]);
    }
}

/// Only an entry that is part of another one, and need not be owned by it, can be closed by reference.
/// An enum can be a value only without generic parameters.
pub proof fn closing_and_generics(
    mode: MetricMode,
    by_reference: bool,
    parameters: usize,
    res: Result<(), &'static str>,
)
    ensures
        call_ensures(closes_by_reference, (mode,), by_reference) ==> (by_reference <==> mode
            == MetricMode::Subfield),
        call_ensures(generate_value_impl_for_enum, (parameters,), res) ==> (res is Ok <==> parameters
            == 0),
{
}

/// The descriptions of an entry and of its children are chained in one expression, or one after the
/// other if any of the children has conditions.
pub proof fn descriptions_are_chained(gated: &Vec<bool>, plan: ChainPlan)
    requires
        call_ensures(build_descriptors_chain, (gated,), plan),
    ensures
        plan is Base <==> gated@.len() == 0,
        plan is Rebinding <==> exists|i: int| 0 <= i < gated@.len() && gated@[i],
        plan matches ChainPlan::Linear(n) ==> n == gated@.len(),
        plan matches ChainPlan::Rebinding(steps) ==> steps@ == gated@,
{
    if !(exists|i: int| 0 <= i < gated@.len() && gated@[i]) {
        assert forall|i: int| 0 <= i < gated@.len() implies !gated@[i] by {}
    }
    assert(gated@.len() == gated.len());
}

} // verus!
