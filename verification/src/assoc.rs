//! Lists of names with something under each, no name twice.

use vstd::prelude::*;
use vstd::string::*;

verus! {

/// Whether no name occurs twice.
pub open spec fn names_differ<M>(members: Seq<(Seq<char>, M)>) -> bool {
    forall|i: int, j: int|
        0 <= i < j < members.len() ==> (#[trigger] members[i]).0 != (#[trigger] members[j]).0
}

/// Whether there is a member of that name.
pub open spec fn has_member<M>(members: Seq<(Seq<char>, M)>, name: Seq<char>) -> bool {
    exists|i: int| 0 <= i < members.len() && (#[trigger] members[i]).0 == name
}

/// The first position of a member of that name; the length of the list if there is none.
pub open spec fn member_position<M>(members: Seq<(Seq<char>, M)>, name: Seq<char>) -> int
    decreases members.len(),
{
    if members.len() == 0 || members[0].0 == name {
        0
    } else {
        1 + member_position(members.drop_first(), name)
    }
}

/// The position is that of the first member of the name, if there is one.
pub proof fn member_position_is_first<M>(members: Seq<(Seq<char>, M)>, name: Seq<char>)
    ensures
        0 <= member_position(members, name) <= members.len(),
        has_member(members, name) <==> member_position(members, name) < members.len(),
        has_member(members, name) ==> members[member_position(members, name)].0 == name,
        forall|j: int|
            0 <= j < member_position(members, name) ==> (#[trigger] members[j]).0 != name,
    decreases members.len(),
{
    if members.len() > 0 && members[0].0 != name {
        let rest = members.drop_first();
        member_position_is_first(rest, name);
        assert forall|j: int| 0 <= j < member_position(members, name) implies (
        #[trigger] members[j]).0 != name by {
            if j > 0 {
                assert(rest[j - 1] == members[j]);
            }
        }
        if has_member(members, name) {
            let i = choose|i: int| 0 <= i < members.len() && (#[trigger] members[i]).0 == name;
            assert(rest[i - 1].0 == name);
        }
        if has_member(rest, name) {
            let i = member_position(rest, name);
            assert(members[i + 1].0 == name);
        }
    } else if members.len() > 0 {
        assert(has_member(members, name));
    }
}

/// The members with `name` set to `value`: in place of what it was, or as the last one.
pub open spec fn put<M>(members: Seq<(Seq<char>, M)>, name: Seq<char>, value: M) -> Seq<
    (Seq<char>, M),
> {
    if has_member(members, name) {
        members.update(member_position(members, name), (name, value))
    } else {
        members.push((name, value))
    }
}

/// What a list of names says.
pub open spec fn assoc<T: View>(members: Seq<(String, T)>) -> Seq<(Seq<char>, T::V)> {
    members.map_values(|m: (String, T)| (m.0@, m.1@))
}

/// Sets what stands under a name.
pub fn put_member<T: View>(members: &mut Vec<(String, T)>, name: String, value: T)
    ensures
        assoc(final(members)@) == put(assoc(old(members)@), name@, value@),
        names_differ(assoc(old(members)@)) ==> names_differ(assoc(final(members)@)),
{
    let ghost before = assoc(members@);
    proof {
        member_position_is_first(before, name@);
    }
    let n: usize = members.len();
    for i in 0..n
        invariant
            n == members@.len(),
            members@ == old(members)@,
            before == assoc(members@),
            has_member(before, name@) ==> before[member_position(before, name@)].0 == name@,
            0 <= member_position(before, name@) <= before.len(),
            forall|j: int|
                0 <= j < member_position(before, name@) ==> (#[trigger] before[j]).0 != name@,
            forall|j: int| 0 <= j < i ==> (#[trigger] before[j]).0 != name@,
    {
        if members[i].0 == name {
            proof {
                assert(before[i as int].0 == name@);
                assert(has_member(before, name@));
                assert(member_position(before, name@) == i);
            }
            members.set(i, (name, value));
            assert(assoc(members@) =~= before.update(i as int, (name@, value@)));
            return;
        }
    }
    members.push((name, value));
    assert(assoc(members@) =~= before.push((name@, value@)));
}

/// The position of a name.
pub fn find_member<T: View>(members: &Vec<(String, T)>, name: &str) -> (res: Option<usize>)
    ensures
        res is Some <==> has_member(assoc(members@), name@),
        res matches Some(i) ==> i < members@.len() && i == member_position(assoc(members@), name@)
            && members@[i as int].0@ == name@,
{
    let wanted = name.to_owned();
    proof {
        member_position_is_first(assoc(members@), name@);
    }
    for i in 0..members.len()
        invariant
            wanted@ == name@,
            has_member(assoc(members@), name@) ==> assoc(
                members@,
            )[member_position(assoc(members@), name@)].0 == name@,
            0 <= member_position(assoc(members@), name@) <= members@.len(),
            forall|j: int|
                0 <= j < member_position(assoc(members@), name@) ==> (
                #[trigger] assoc(members@)[j]).0 != name@,
            forall|j: int| 0 <= j < i ==> (#[trigger] assoc(members@)[j]).0 != name@,
    {
        if members[i].0 == wanted {
            assert(assoc(members@)[i as int].0 == name@);
            return Some(i);
        }
    }
    None
}

/// What was put under a name is found there, and what stands under other names stays; names that
/// differed still do.
pub proof fn put_is_found<M>(
    members: Seq<(Seq<char>, M)>,
    name: Seq<char>,
    value: M,
    other: Seq<char>,
)
    requires
        names_differ(members),
    ensures
        ({
            let after = put(members, name, value);
            &&& names_differ(after)
            &&& has_member(after, name)
            &&& after[member_position(after, name)].1 == value
            &&& other != name ==> (has_member(after, other) <==> has_member(members, other))
            &&& other != name && has_member(members, other) ==> after[member_position(
                after,
                other,
            )].1 == members[member_position(members, other)].1
        }),
{
    let after = put(members, name, value);
    member_position_is_first(members, name);
    member_position_is_first(members, other);
    member_position_is_first(after, name);
    member_position_is_first(after, other);
    let i = member_position(members, name);
    assert(after[i] == (name, value));
    assert(has_member(after, name));
    assert forall|a: int, b: int| 0 <= a < b < after.len() implies (#[trigger] after[a]).0 != (
    #[trigger] after[b]).0 by {
        if a < members.len() && b < members.len() {
            assert(members[a].0 != members[b].0);
        }
        if !has_member(members, name) && b == members.len() {
            assert(members[a].0 != name);
        }
    }
    let p = member_position(after, name);
    if p != i {
        assert(after[p].0 == after[i].0);
    }
    if other != name {
        if has_member(members, other) {
            let k = member_position(members, other);
            assert(after[k] == members[k]);
            assert(has_member(after, other));
            let q = member_position(after, other);
            if q != k {
                assert(after[q].0 == after[k].0);
            }
        }
        if has_member(after, other) {
            let q = member_position(after, other);
            assert(q != i);
            assert(members[q] == after[q]);
        }
    }
}

} // verus!
