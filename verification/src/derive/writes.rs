//! The code that writes the fields of an entry.

use vstd::prelude::*;
use vstd::string::*;

use crate::derive::field::{
    make_ns, namespace_of, numbered, numbered_text, FieldTagAttr, MetricsField, MetricsFieldKind,
    NameStyle, Namespace,
};
use crate::derive::flags::{field_flags_resolved, none_skipped, resolve_field_flags, FlagSource};

verus! {

/// The writer that a piece of generated code writes to.
#[derive(Clone, Copy, Debug, PartialEq, Eq, Structural)]
pub enum WriterRef {
    /// The writer that was handed in.
    Writer,
    /// The wrapper with that number.
    Wrapper(usize),
}

/// A wrapper that adds a flag to everything that is written through it: the position
/// of the flag, and the writer inside.
#[derive(Clone, Copy, Debug, PartialEq, Eq, Structural)]
pub struct WrapperBinding {
    pub flag: usize,
    pub inner: WriterRef,
}

/// The code that writes a field.
#[derive(Debug)]
pub enum FieldWrite {
    /// Hands over the timestamp.
    Timestamp,
    /// Has the entry write itself.
    Entry,
    /// Has the entry write itself in a namespace, to the last of the wrappers.
    Inflected {
        namespace: Namespace,
        prefixed: bool,
        wrappers: Vec<WrapperBinding>,
        target: WriterRef,
    },
    /// Hands over a value under its name, with flags put round it one after the other.
    Value { namespace: Namespace, formatted: bool, flags: Vec<FlagSource> },
}

/// The code that writes a field.
pub ghost enum FieldWriteModel {
    Timestamp,
    Entry,
    Inflected {
        namespace: Namespace,
        prefixed: bool,
        wrappers: Seq<WrapperBinding>,
        target: WriterRef,
    },
    Value { namespace: Namespace, formatted: bool, flags: Seq<FlagSource> },
}

impl View for FieldWrite {
    type V = FieldWriteModel;

    open spec fn view(&self) -> FieldWriteModel {
        match *self {
            FieldWrite::Timestamp => FieldWriteModel::Timestamp,
            FieldWrite::Entry => FieldWriteModel::Entry,
            FieldWrite::Inflected {
                namespace,
                prefixed,
                wrappers,
                target,
            } => FieldWriteModel::Inflected { namespace, prefixed, wrappers: wrappers@, target },
            FieldWrite::Value { namespace, formatted, flags } => FieldWriteModel::Value {
                namespace,
                formatted,
                flags: flags@,
            },
        }
    }
}

/// The code that writes the field at a position, and whether it is compiled under the
/// conditions of the field.
#[derive(Debug)]
pub struct PlannedWrite {
    pub field: usize,
    pub gated: bool,
    pub write: FieldWrite,
}

/// A planned write.
pub ghost struct PlannedWriteModel {
    pub field: int,
    pub gated: bool,
    pub write: FieldWriteModel,
}

impl View for PlannedWrite {
    type V = PlannedWriteModel;

    open spec fn view(&self) -> PlannedWriteModel {
        PlannedWriteModel { field: self.field as int, gated: self.gated, write: self.write@ }
    }
}

/// Planned writes.
pub open spec fn planned_writes(list: Seq<PlannedWrite>) -> Seq<PlannedWriteModel> {
    list.map_values(|w: PlannedWrite| w@)
}

/// The writer below the wrapper with that number: the writer itself below the first.
pub open spec fn writer_below(i: int) -> WriterRef {
    if i == 0 {
        WriterRef::Writer
    } else {
        WriterRef::Wrapper((i - 1) as usize)
    }
}

/// One wrapper per flag, each round the one before it.
pub open spec fn nested_wrappers(n: nat) -> Seq<WrapperBinding> {
    Seq::new(n, |i: int| WrapperBinding { flag: i as usize, inner: writer_below(i) })
}

/// The code that writes a field, if it is written at all.
pub open spec fn field_write(
    field: MetricsField,
    style: NameStyle,
    default_flags: Seq<FieldTagAttr>,
) -> Option<FieldWriteModel> {
    match field.kind {
        MetricsFieldKind::Timestamp => Some(FieldWriteModel::Timestamp),
        MetricsFieldKind::FlattenEntry => Some(FieldWriteModel::Entry),
        MetricsFieldKind::Flatten { prefix, default_flags: flatten_flags } => Some(
            FieldWriteModel::Inflected {
                namespace: namespace_of(style),
                prefixed: prefix,
                wrappers: nested_wrappers(flatten_flags@.len()),
                target: writer_below(flatten_flags@.len() as int),
            },
        ),
        MetricsFieldKind::Ignore => None,
        MetricsFieldKind::Field { format, .. } => Some(
            FieldWriteModel::Value {
                namespace: namespace_of(style),
                formatted: format,
                flags: field_flags_resolved(field.flags@, default_flags),
            },
        ),
    }
}

/// The code that writes the first `n` fields: one piece for each field that is
/// written, in their order.
pub open spec fn field_writes(
    fields: Seq<MetricsField>,
    n: nat,
    style: NameStyle,
    default_flags: Seq<FieldTagAttr>,
) -> Seq<PlannedWriteModel>
    decreases n,
{
    if n == 0 {
        Seq::empty()
    } else {
        let init = field_writes(fields, (n - 1) as nat, style, default_flags);
        let field = fields[n - 1];
        match field_write(field, style, default_flags) {
            Some(write) => init.push(PlannedWriteModel { field: n - 1, gated: field.gated, write }),
            None => init,
        }
    }
}

/// The name of the wrapper with that number.
pub fn wrapper_ident(i: usize) -> (name: String)
    ensures
        name@ == numbered("__metrique_fw_"@, i as nat),
{
    numbered_text("__metrique_fw_", i)
}

/// Wraps the writer once for each of `n` flags.
fn wrap_writer(n: usize) -> (res: (Vec<WrapperBinding>, WriterRef))
    ensures
        res.0@ == nested_wrappers(n as nat),
        res.1 == writer_below(n as int),
{
    let mut wrappers: Vec<WrapperBinding> = Vec::new();
    let mut target = WriterRef::Writer;
    for i in 0..n
        invariant
            wrappers@ == nested_wrappers(i as nat),
            target == writer_below(i as int),
    {
        wrappers.push(WrapperBinding { flag: i, inner: target });
        target = WriterRef::Wrapper(i);
        assert(wrappers@ =~= nested_wrappers((i + 1) as nat));
    }
    (wrappers, target)
}

/// Plans the code that writes the fields of an entry. Fields that are ignored have no
/// code; a field with conditions has its code under the same conditions.
pub fn generate_field_writes(
    fields: &Vec<MetricsField>,
    rename_all: NameStyle,
    default_flags: &Vec<FieldTagAttr>,
) -> (writes: Vec<PlannedWrite>)
    requires
        none_skipped(default_flags@),
    ensures
        planned_writes(writes@) == field_writes(
            fields@,
            fields@.len(),
            rename_all,
            default_flags@,
        ),
{
    let mut writes: Vec<PlannedWrite> = Vec::new();
    assert(planned_writes(writes@) =~= Seq::empty());
    for i in 0..fields.len()
        invariant
            none_skipped(default_flags@),
            planned_writes(writes@) == field_writes(
                fields@,
                i as nat,
                rename_all,
                default_flags@,
            ),
    {
        let ghost before = writes@;
        let field = &fields[i];
        let namespace = make_ns(rename_all);
        let write = match &field.kind {
            MetricsFieldKind::Timestamp => Some(FieldWrite::Timestamp),
            MetricsFieldKind::FlattenEntry => Some(FieldWrite::Entry),
            MetricsFieldKind::Flatten { prefix, default_flags: flatten_flags } => {
                let (wrappers, target) = wrap_writer(flatten_flags.len());
                Some(FieldWrite::Inflected { namespace, prefixed: *prefix, wrappers, target })
            },
            MetricsFieldKind::Ignore => None,
            MetricsFieldKind::Field { format, .. } => {
                let resolved = resolve_field_flags(&field.flags, default_flags);
                Some(
                    FieldWrite::Value { namespace, formatted: *format, flags: resolved.flags },
                )
            },
        };
        if let Some(write) = write {
            let planned = PlannedWrite { field: i, gated: field.gated, write };
            writes.push(planned);
            assert(planned_writes(writes@) =~= planned_writes(before).push(planned@));
        }
    }
    writes
}

proof fn writes_come_from_fields(
    fields: Seq<MetricsField>,
    n: nat,
    style: NameStyle,
    default_flags: Seq<FieldTagAttr>,
    k: int,
)
    requires
        n <= fields.len(),
        0 <= k < field_writes(fields, n, style, default_flags).len(),
    ensures
        ({
            let w = field_writes(fields, n, style, default_flags)[k];
            &&& 0 <= w.field < n
            &&& w.gated == fields[w.field].gated
            &&& field_write(fields[w.field], style, default_flags) == Some(w.write)
        }),
    decreases n,
{
    if k < field_writes(fields, (n - 1) as nat, style, default_flags).len() {
        writes_come_from_fields(fields, (n - 1) as nat, style, default_flags, k);
    }
}

/// Fields are written in the order in which they are declared, each at most once, and
/// under the conditions that it has.
pub proof fn fields_are_written_in_order(
    fields: Seq<MetricsField>,
    style: NameStyle,
    default_flags: Seq<FieldTagAttr>,
    j: int,
    k: int,
)
    requires
        0 <= j < k < field_writes(fields, fields.len(), style, default_flags).len(),
    ensures
        ({
            let writes = field_writes(fields, fields.len(), style, default_flags);
            &&& writes[j].field < writes[k].field
            &&& 0 <= writes[j].field < fields.len()
            &&& writes[j].gated == fields[writes[j].field].gated
        }),
{
    writes_increase(fields, fields.len(), style, default_flags, j, k);
    writes_come_from_fields(fields, fields.len(), style, default_flags, j);
}

proof fn writes_increase(
    fields: Seq<MetricsField>,
    n: nat,
    style: NameStyle,
    default_flags: Seq<FieldTagAttr>,
    j: int,
    k: int,
)
    requires
        n <= fields.len(),
        0 <= j < k < field_writes(fields, n, style, default_flags).len(),
    ensures
        field_writes(fields, n, style, default_flags)[j].field < field_writes(
            fields,
            n,
            style,
            default_flags,
        )[k].field,
    decreases n,
{
    let init = field_writes(fields, (n - 1) as nat, style, default_flags);
    if k < init.len() {
        writes_increase(fields, (n - 1) as nat, style, default_flags, j, k);
    } else {
        writes_come_from_fields(fields, (n - 1) as nat, style, default_flags, j);
    }
}

/// Each field that is not ignored is written.
pub proof fn fields_are_written(
    fields: Seq<MetricsField>,
    style: NameStyle,
    default_flags: Seq<FieldTagAttr>,
    i: int,
)
    requires
        0 <= i < fields.len(),
        !(fields[i].kind is Ignore),
    ensures
        exists|k: int|
            0 <= k < field_writes(fields, fields.len(), style, default_flags).len()
                && (#[trigger] field_writes(fields, fields.len(), style, default_flags)[k]).field
                == i,
{
    field_is_written(fields, fields.len(), style, default_flags, i);
}

proof fn field_is_written(
    fields: Seq<MetricsField>,
    n: nat,
    style: NameStyle,
    default_flags: Seq<FieldTagAttr>,
    i: int,
)
    requires
        0 <= i < n <= fields.len(),
        !(fields[i].kind is Ignore),
    ensures
        exists|k: int|
            0 <= k < field_writes(fields, n, style, default_flags).len() && (
            #[trigger] field_writes(fields, n, style, default_flags)[k]).field == i,
    decreases n,
{
    let init = field_writes(fields, (n - 1) as nat, style, default_flags);
    let all = field_writes(fields, n, style, default_flags);
    if i == n - 1 {
        assert(all[init.len() as int].field == i);
    } else {
        field_is_written(fields, (n - 1) as nat, style, default_flags, i);
        let k = choose|k: int| 0 <= k < init.len() && (#[trigger] init[k]).field == i;
        assert(all[k].field == i);
    }
}

} // verus!
