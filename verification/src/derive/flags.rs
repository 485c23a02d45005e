//! Which flags a field ends up with.

use vstd::prelude::*;
use vstd::string::*;

use crate::derive::field::FieldTagAttr;

verus! {

/// Where a flag comes from: the position in the flags of the field, or in the flags
/// that all fields have by default.
#[derive(Clone, Copy, Debug, PartialEq, Eq, Structural)]
pub enum FlagSource {
    Field(usize),
    Default(usize),
}

/// The flags of a field, and those that it does without even where the type that it
/// is flattened into has them by default.
#[derive(Debug)]
pub struct ResolvedFlags {
    pub flags: Vec<FlagSource>,
    pub skipped_flags: Vec<usize>,
}

/// Whether the flag of that path is among the flags of the field, there or left out.
pub open spec fn specified(field_flags: Seq<FieldTagAttr>, path: Seq<char>) -> bool {
    exists|i: int| 0 <= i < field_flags.len() && (#[trigger] field_flags[i]).path@ == path
}

/// The flags of the field itself that are there, among the first `n`.
pub open spec fn own_flags(field_flags: Seq<FieldTagAttr>, n: nat) -> Seq<FlagSource>
    decreases n,
{
    if n == 0 {
        Seq::empty()
    } else {
        let init = own_flags(field_flags, (n - 1) as nat);
        if field_flags[n - 1].skip {
            init
        } else {
            init.push(FlagSource::Field((n - 1) as usize))
        }
    }
}

/// The flags of the field itself that are left out, among the first `n`.
pub open spec fn left_out(field_flags: Seq<FieldTagAttr>, n: nat) -> Seq<usize>
    decreases n,
{
    if n == 0 {
        Seq::empty()
    } else {
        let init = left_out(field_flags, (n - 1) as nat);
        if field_flags[n - 1].skip {
            init.push((n - 1) as usize)
        } else {
            init
        }
    }
}

/// The default flags that the field says nothing of, among the first `n`.
pub open spec fn inherited_flags(
    field_flags: Seq<FieldTagAttr>,
    default_flags: Seq<FieldTagAttr>,
    n: nat,
) -> Seq<FlagSource>
    decreases n,
{
    if n == 0 {
        Seq::empty()
    } else {
        let init = inherited_flags(field_flags, default_flags, (n - 1) as nat);
        if specified(field_flags, default_flags[n - 1].path@) {
            init
        } else {
            init.push(FlagSource::Default((n - 1) as usize))
        }
    }
}

/// The flags of a field: its own, then the default ones that it says nothing of.
pub open spec fn field_flags_resolved(
    field_flags: Seq<FieldTagAttr>,
    default_flags: Seq<FieldTagAttr>,
) -> Seq<FlagSource> {
    own_flags(field_flags, field_flags.len()) + inherited_flags(
        field_flags,
        default_flags,
        default_flags.len(),
    )
}

/// Whether no default flag is left out; there would be nothing to leave it out of.
pub open spec fn none_skipped(default_flags: Seq<FieldTagAttr>) -> bool {
    forall|i: int| 0 <= i < default_flags.len() ==> !(#[trigger] default_flags[i]).skip
}

/// Whether the flag of that path is among the flags of the field.
fn is_specified(field_flags: &Vec<FieldTagAttr>, path: &String) -> (res: bool)
    ensures
        res == specified(field_flags@, path@),
{
    for i in 0..field_flags.len()
        invariant
            forall|j: int| 0 <= j < i ==> (#[trigger] field_flags@[j]).path@ != path@,
    {
        if field_flags[i].path == *path {
            return true;
        }
    }
    false
}

/// Resolves the flags of a field against the default flags.
pub fn resolve_field_flags(
    field_flags: &Vec<FieldTagAttr>,
    default_flags: &Vec<FieldTagAttr>,
) -> (res: ResolvedFlags)
    requires
        none_skipped(default_flags@),
    ensures
        res.flags@ == field_flags_resolved(field_flags@, default_flags@),
        res.skipped_flags@ == left_out(field_flags@, field_flags@.len()),
{
    let mut flags: Vec<FlagSource> = Vec::new();
    let mut skipped_flags: Vec<usize> = Vec::new();
    for i in 0..field_flags.len()
        invariant
            flags@ == own_flags(field_flags@, i as nat),
            skipped_flags@ == left_out(field_flags@, i as nat),
    {
        if field_flags[i].skip {
            skipped_flags.push(i);
        } else {
            flags.push(FlagSource::Field(i));
        }
    }
    let ghost own = flags@;
    for i in 0..default_flags.len()
        invariant
            flags@ == own + inherited_flags(field_flags@, default_flags@, i as nat),
    {
        if !is_specified(field_flags, &default_flags[i].path) {
            flags.push(FlagSource::Default(i));
        }
        assert(flags@ =~= own + inherited_flags(field_flags@, default_flags@, (i + 1) as nat));
    }
    ResolvedFlags { flags, skipped_flags }
}

proof fn own_flags_are_own(field_flags: Seq<FieldTagAttr>, n: nat, k: int)
    requires
        n <= field_flags.len(),
        field_flags.len() <= usize::MAX,
        0 <= k < own_flags(field_flags, n).len(),
    ensures
        own_flags(field_flags, n)[k] matches FlagSource::Field(i) && i < n
            && !field_flags[i as int].skip,
    decreases n,
{
    if k < own_flags(field_flags, (n - 1) as nat).len() {
        own_flags_are_own(field_flags, (n - 1) as nat, k);
    }
}

proof fn inherited_flags_are_unspecified(
    field_flags: Seq<FieldTagAttr>,
    default_flags: Seq<FieldTagAttr>,
    n: nat,
    k: int,
)
    requires
        n <= default_flags.len(),
        default_flags.len() <= usize::MAX,
        0 <= k < inherited_flags(field_flags, default_flags, n).len(),
    ensures
        inherited_flags(field_flags, default_flags, n)[k] matches FlagSource::Default(i) && i < n
            && !specified(field_flags, default_flags[i as int].path@),
    decreases n,
{
    if k < inherited_flags(field_flags, default_flags, (n - 1) as nat).len() {
        inherited_flags_are_unspecified(field_flags, default_flags, (n - 1) as nat, k);
    }
}

/// A flag that the field leaves out is not among its flags, unless the field names it
/// a second time without leaving it out: a default flag never overrides the field.
pub proof fn default_flags_do_not_override(
    field_flags: Seq<FieldTagAttr>,
    default_flags: Seq<FieldTagAttr>,
    k: int,
)
    requires
        field_flags.len() <= usize::MAX,
        default_flags.len() <= usize::MAX,
        0 <= k < field_flags_resolved(field_flags, default_flags).len(),
    ensures
        ({
            let source = field_flags_resolved(field_flags, default_flags)[k];
            match source {
                FlagSource::Field(i) => i < field_flags.len() && !field_flags[i as int].skip,
                FlagSource::Default(i) => i < default_flags.len() && !specified(
                    field_flags,
                    default_flags[i as int].path@,
                ),
            }
        }),
{
    let own = own_flags(field_flags, field_flags.len());
    if k < own.len() {
        own_flags_are_own(field_flags, field_flags.len(), k);
    } else {
        inherited_flags_are_unspecified(
            field_flags,
            default_flags,
            default_flags.len(),
            k - own.len(),
        );
    }
}

proof fn own_flag_is_there(field_flags: Seq<FieldTagAttr>, n: nat, i: int)
    requires
        0 <= i < n <= field_flags.len(),
        field_flags.len() <= usize::MAX,
        !field_flags[i].skip,
    ensures
        own_flags(field_flags, n).contains(FlagSource::Field(i as usize)),
    decreases n,
{
    let init = own_flags(field_flags, (n - 1) as nat);
    if i == n - 1 {
        assert(own_flags(field_flags, n)[init.len() as int] == FlagSource::Field(i as usize));
    } else {
        own_flag_is_there(field_flags, (n - 1) as nat, i);
        let k = init.index_of(FlagSource::Field(i as usize));
        assert(own_flags(field_flags, n)[k] == FlagSource::Field(i as usize));
    }
}

/// Each flag that the field names and does not leave out is among its flags.
pub proof fn own_flags_are_kept(
    field_flags: Seq<FieldTagAttr>,
    default_flags: Seq<FieldTagAttr>,
    i: int,
)
    requires
        field_flags.len() <= usize::MAX,
        0 <= i < field_flags.len(),
        !field_flags[i].skip,
    ensures
        field_flags_resolved(field_flags, default_flags).contains(FlagSource::Field(i as usize)),
{
    own_flag_is_there(field_flags, field_flags.len(), i);
    let own = own_flags(field_flags, field_flags.len());
    let k = own.index_of(FlagSource::Field(i as usize));
    assert(field_flags_resolved(field_flags, default_flags)[k] == FlagSource::Field(i as usize));
}

} // verus!
