//! JSON values, with the members of objects in the order of their names.

use vstd::prelude::*;
use vstd::string::*;

use crate::assoc::{assoc, names_differ};
use crate::order::{text_le, text_leq, text_leq_total, text_leq_transitive};

verus! {

/// A JSON value of the `serde_json` crate.
#[verifier::external_body]
pub struct JsonValue {
    value: serde_json::Value,
}

/// The numbers of the `serde_json` crate.
#[verifier::external_type_specification]
#[verifier::external_body]
pub struct ExJsonNumber(serde_json::Number);

/// A number in JSON: an integer, or a double by its bits.
pub ghost enum NumberModel {
    Integer(int),
    Double(u64),
}

/// What a JSON value holds. The members of an object are in the order of their names.
pub ghost enum JsonModel {
    Null,
    Bool(bool),
    Number(NumberModel),
    Text(Seq<char>),
    List(Seq<JsonModel>),
    Object(Seq<(Seq<char>, JsonModel)>),
}

/// What a value of `serde_json` holds.
pub uninterp spec fn json_view(value: JsonValue) -> JsonModel;

/// What a number of `serde_json` is.
pub uninterp spec fn number_view(number: serde_json::Number) -> NumberModel;

/// The text that `serde_json` writes a value as, without spaces.
pub uninterp spec fn compact_text(value: JsonModel) -> Seq<char>;

/// The text that `serde_json` writes a value as, with line breaks and indentation.
pub uninterp spec fn indented_text(value: JsonModel) -> Seq<char>;

/// `serde_json::Value::from` an `i64` is that number.
#[verifier::external_body]
fn json_int(n: i64) -> (res: JsonValue)
    ensures
        json_view(res) == JsonModel::Number(NumberModel::Integer(n as int)),
{
    JsonValue { value: serde_json::Value::from(n) }
}

/// `serde_json::Value::from` a `u64` is that number.
#[verifier::external_body]
fn json_count(n: u64) -> (res: JsonValue)
    ensures
        json_view(res) == JsonModel::Number(NumberModel::Integer(n as int)),
{
    JsonValue { value: serde_json::Value::from(n) }
}

/// `serde_json::Value::Number` makes a value of a number.
#[verifier::external_body]
fn json_number(number: serde_json::Number) -> (res: JsonValue)
    ensures
        json_view(res) == JsonModel::Number(number_view(number)),
{
    JsonValue { value: serde_json::Value::Number(number) }
}

/// `serde_json::Value::default` is `null`.
#[verifier::external_body]
fn json_null() -> (res: JsonValue)
    ensures
        json_view(res) == JsonModel::Null,
{
    JsonValue { value: serde_json::Value::default() }
}

/// `serde_json::Value::from` a string is that string.
#[verifier::external_body]
fn json_text(s: String) -> (res: JsonValue)
    ensures
        json_view(res) == JsonModel::Text(s@),
{
    JsonValue { value: serde_json::Value::from(s) }
}

/// `serde_json::Value::from_iter` makes an object of names and values. It keeps them in the
/// order of the names, each name once; so nothing moves where they come in that order.
#[verifier::external_body]
fn json_object(members: Vec<(String, JsonValue)>) -> (res: JsonValue)
    requires
        names_increase(value_members(members@)),
    ensures
        json_view(res) == JsonModel::Object(value_members(members@)),
{
    JsonValue { value: members.into_iter().map(|m| (m.0, m.1.value)).collect() }
}

/// `serde_json::Number::clone` makes the same number.
#[verifier::external_body]
fn copy_json_number(number: &serde_json::Number) -> (res: serde_json::Number)
    ensures
        number_view(res) == number_view(*number),
{
    number.clone()
}

/// `serde_json::to_string` writes a value without spaces. Names are strings, so it does not
/// fail.
#[verifier::external_body]
fn json_to_string(value: &JsonValue) -> (res: String)
    ensures
        res@ == compact_text(json_view(*value)),
{
    serde_json::to_string(&value.value).expect("names are strings")
}

/// `serde_json::to_string_pretty` writes a value with line breaks and indentation. Names are
/// strings, so it does not fail.
#[verifier::external_body]
fn json_to_string_pretty(value: &JsonValue) -> (res: String)
    ensures
        res@ == indented_text(json_view(*value)),
{
    serde_json::to_string_pretty(&value.value).expect("names are strings")
}

/// The names and contents of members.
pub open spec fn value_members(members: Seq<(String, JsonValue)>) -> Seq<
    (Seq<char>, JsonModel),
> {
    members.map_values(|m: (String, JsonValue)| (m.0@, json_view(m.1)))
}

/// Whether each name comes before the next and differs from it.
pub open spec fn names_increase(members: Seq<(Seq<char>, JsonModel)>) -> bool {
    forall|i: int, j: int|
        0 <= i < j < members.len() ==> text_leq((#[trigger] members[i]).0, (
        #[trigger] members[j]).0) && members[i].0 != members[j].0
}

/// A JSON value that is being put together.
#[derive(Debug)]
pub enum JsonTree {
    /// An integer.
    Int(i64),
    /// A number of things.
    Count(u64),
    /// Any other number.
    Number(serde_json::Number),
    /// No number.
    Null,
    /// A string.
    Text(String),
    /// An object.
    Object(Vec<(String, JsonTree)>),
}

/// What a JSON value holds.
pub open spec fn tree_model(tree: JsonTree) -> JsonModel
    decreases tree,
{
    match tree {
        JsonTree::Int(n) => JsonModel::Number(NumberModel::Integer(n as int)),
        JsonTree::Count(n) => JsonModel::Number(NumberModel::Integer(n as int)),
        JsonTree::Number(n) => JsonModel::Number(number_view(n)),
        JsonTree::Null => JsonModel::Null,
        JsonTree::Text(s) => JsonModel::Text(s@),
        JsonTree::Object(members) => JsonModel::Object(
            Seq::new(
                members@.len(),
                |i: int|
                    if 0 <= i < members@.len() {
                        (members@[i].0@, tree_model(members@[i].1))
                    } else {
                        (Seq::empty(), JsonModel::Null)
                    },
            ),
        ),
    }
}

impl View for JsonTree {
    type V = JsonModel;

    open spec fn view(&self) -> JsonModel {
        tree_model(*self)
    }
}

/// The names and contents of members.
pub open spec fn tree_members(members: Seq<(String, JsonTree)>) -> Seq<(Seq<char>, JsonModel)> {
    assoc(members)
}

/// What an object holds is what its members hold.
pub broadcast proof fn object_model(tree: JsonTree)
    ensures
        #[trigger] tree_model(tree) == match tree {
            JsonTree::Object(members) => JsonModel::Object(tree_members(members@)),
            _ => tree_model(tree),
        },
{
    if let JsonTree::Object(members) = tree {
        assert(tree_model(tree)->Object_0 =~= tree_members(members@));
    }
}

/// The first place in ordered members that is not before `name`.
pub open spec fn place_of(sorted: Seq<(Seq<char>, JsonModel)>, name: Seq<char>) -> int
    decreases sorted.len(),
{
    if sorted.len() == 0 || text_leq(sorted.last().0, name) {
        sorted.len() as int
    } else {
        place_of(sorted.drop_last(), name)
    }
}

/// The value with the members of all objects in it ordered by name.
pub open spec fn sorted_tree(value: JsonModel) -> JsonModel
    decreases value,
{
    match value {
        JsonModel::Object(members) => JsonModel::Object(sorted_members(members)),
        _ => value,
    }
}

/// The members ordered by name, each with the members of its objects ordered.
pub open spec fn sorted_members(members: Seq<(Seq<char>, JsonModel)>) -> Seq<
    (Seq<char>, JsonModel),
>
    decreases members,
{
    if members.len() == 0 {
        Seq::empty()
    } else {
        let init = sorted_members(members.drop_last());
        let name = members.last().0;
        init.insert(place_of(init, name), (name, sorted_tree(members.last().1)))
    }
}

/// Whether no name occurs twice in any object of the value.
pub open spec fn proper(value: JsonModel) -> bool
    decreases value,
{
    match value {
        JsonModel::Object(members) => names_differ(members) && proper_members(members),
        _ => true,
    }
}

/// Whether no name occurs twice in any object of the members.
pub open spec fn proper_members(members: Seq<(Seq<char>, JsonModel)>) -> bool
    decreases members,
{
    members.len() == 0 || (proper_members(members.drop_last()) && proper(members.last().1))
}

/// Whether the members of each object in the value are ordered by name.
pub open spec fn ordered(value: JsonModel) -> bool
    decreases value,
{
    match value {
        JsonModel::Object(members) => names_increase(members) && ordered_members(members),
        _ => true,
    }
}

/// Whether the members of each object in the members are ordered by name.
pub open spec fn ordered_members(members: Seq<(Seq<char>, JsonModel)>) -> bool
    decreases members,
{
    members.len() == 0 || (ordered_members(members.drop_last()) && ordered(members.last().1))
}

/// Puts the members in the order of their names, and those of all objects in them.
pub fn sort_json_keys(members: Vec<(String, JsonTree)>) -> (res: Vec<(String, JsonTree)>)
    ensures
        tree_members(res@) == sorted_members(tree_members(members@)),
    decreases members,
{
    broadcast use object_model;

    let ghost all = tree_members(members@);
    let ghost items = members@;
    let mut rest = members;
    let mut res: Vec<(String, JsonTree)> = Vec::new();
    let ghost mut k: int = 0;
    assert(rest@ =~= items.skip(0));
    assert(tree_members(res@) =~= sorted_members(all.take(0)));
    while rest.len() > 0
        invariant
            items == members@,
            all == tree_members(items),
            0 <= k <= items.len(),
            rest@ == items.skip(k),
            tree_members(res@) == sorted_members(all.take(k)),
        decreases rest.len(),
    {
        let ghost before = tree_members(res@);
        let (name, value) = rest.remove(0);
        proof {
            assert((name, value) == items[k]);
            assert(decreases_to!(members => members@));
            assert(decreases_to!(members@ => members@[k]));
            assert(all.take(k + 1).drop_last() =~= all.take(k));
            assert(all.take(k + 1).last() == (name@, value@));
        }
        let ghost old_value = value@;
        let value = match value {
            JsonTree::Object(inner) => {
                proof {
                    object_model(value);
                }
                let sorted = sort_json_keys(inner);
                proof {
                    object_model(JsonTree::Object(sorted));
                }
                JsonTree::Object(sorted)
            },
            other => other,
        };
        assert(value@ == sorted_tree(old_value));
        let mut place: usize = res.len();
        assert(before.take(place as int) =~= before);
        while place > 0 && !text_le(res[place - 1].0.as_str(), name.as_str())
            invariant
                before == tree_members(res@),
                0 <= place <= res@.len(),
                place_of(before, name@) == place_of(before.take(place as int), name@),
            decreases place,
        {
            assert(before.take(place as int).drop_last() =~= before.take(place - 1));
            assert(before.take(place as int).last() == (
                res@[place - 1].0@,
                res@[place - 1].1@,
            ));
            place = place - 1;
        }
        proof {
            if place > 0 {
                assert(before.take(place as int).last() == (
                    res@[place - 1].0@,
                    res@[place - 1].1@,
                ));
            }
        }
        let ghost entry = (name@, value@);
        res.insert(place, (name, value));
        proof {
            assert(tree_members(res@) =~= before.insert(place as int, entry));
            assert(rest@ =~= items.skip(k + 1));
            k = k + 1;
        }
    }
    assert(all.take(k) =~= all);
    res
}

/// The value in the form that `serde_json` writes.
fn to_value(tree: JsonTree) -> (value: JsonValue)
    requires
        ordered(tree@),
    ensures
        json_view(value) == tree@,
    decreases tree,
{
    broadcast use object_model;

    match tree {
        JsonTree::Int(n) => json_int(n),
        JsonTree::Count(n) => json_count(n),
        JsonTree::Number(n) => json_number(n),
        JsonTree::Null => json_null(),
        JsonTree::Text(s) => json_text(s),
        JsonTree::Object(members) => {
            let ghost all = tree_members(members@);
            let ghost items = members@;
            let mut rest = members;
            let mut list: Vec<(String, JsonValue)> = Vec::new();
            let ghost mut k: int = 0;
            assert(rest@ =~= items.skip(0));
            assert(value_members(list@) =~= all.take(0));
            while rest.len() > 0
                invariant
                    tree == JsonTree::Object(members),
                    items == members@,
                    all == tree_members(items),
                    ordered_members(all),
                    0 <= k <= items.len(),
                    rest@ == items.skip(k),
                    value_members(list@) == all.take(k),
                decreases rest.len(),
            {
                let ghost before = list@;
                let (name, inner) = rest.remove(0);
                proof {
                    assert((name, inner) == items[k]);
                    assert(decreases_to!(tree => tree->Object_0));
                    assert(decreases_to!(members => members@));
                    assert(decreases_to!(members@ => members@[k]));
                    ordered_member(all, k);
                    assert(all[k] == (name@, inner@));
                }
                let ghost entry = (name@, inner@);
                let value = to_value(inner);
                list.push((name, value));
                proof {
                    assert(value_members(list@) =~= value_members(before).push(entry));
                    assert(all.take(k + 1) =~= all.take(k).push(all[k]));
                    assert(rest@ =~= items.skip(k + 1));
                    k = k + 1;
                }
            }
            assert(all.take(k) =~= all);
            json_object(list)
        },
    }
}

proof fn ordered_member(members: Seq<(Seq<char>, JsonModel)>, k: int)
    requires
        ordered_members(members),
        0 <= k < members.len(),
    ensures
        ordered(members[k].1),
    decreases members.len(),
{
    if k < members.len() - 1 {
        ordered_member(members.drop_last(), k);
    }
}

/// The object with these members as text, in one line or indented, with the members of all
/// objects ordered by name.
pub fn object_to_text(members: Vec<(String, JsonTree)>, compact: bool) -> (text: String)
    requires
        proper(JsonModel::Object(tree_members(members@))),
    ensures
        text@ == if compact {
            compact_text(sorted_tree(JsonModel::Object(tree_members(members@))))
        } else {
            indented_text(sorted_tree(JsonModel::Object(tree_members(members@))))
        },
{
    broadcast use object_model;

    let ghost all = tree_members(members@);
    proof {
        sorting_orders(JsonModel::Object(all));
    }
    let tree = JsonTree::Object(sort_json_keys(members));
    let value = to_value(tree);
    if compact {
        json_to_string(&value)
    } else {
        json_to_string_pretty(&value)
    }
}

/// A copy of a number.
pub fn copy_number(tree: &JsonTree) -> (copy: JsonTree)
    requires
        !(tree is Object),
    ensures
        copy@ == tree@,
        !(copy is Object),
{
    match tree {
        JsonTree::Int(n) => JsonTree::Int(*n),
        JsonTree::Count(n) => JsonTree::Count(*n),
        JsonTree::Number(n) => JsonTree::Number(copy_json_number(n)),
        JsonTree::Null => JsonTree::Null,
        JsonTree::Text(s) => JsonTree::Text(s.clone()),
        JsonTree::Object(_) => JsonTree::Int(0),
    }
}

proof fn place_is_there(sorted: Seq<(Seq<char>, JsonModel)>, name: Seq<char>)
    ensures
        0 <= place_of(sorted, name) <= sorted.len(),
    decreases sorted.len(),
{
    if sorted.len() > 0 {
        place_is_there(sorted.drop_last(), name);
    }
}

/// What stands before the place comes before the name, what stands after it does not.
proof fn place_splits(sorted: Seq<(Seq<char>, JsonModel)>, name: Seq<char>)
    requires
        names_increase(sorted),
    ensures
        forall|k: int|
            0 <= k < place_of(sorted, name) ==> text_leq((#[trigger] sorted[k]).0, name),
        forall|k: int|
            place_of(sorted, name) <= k < sorted.len() ==> !text_leq(
                (#[trigger] sorted[k]).0,
                name,
            ),
    decreases sorted.len(),
{
    place_is_there(sorted, name);
    if sorted.len() > 0 {
        let init = sorted.drop_last();
        if text_leq(sorted.last().0, name) {
            assert forall|k: int| 0 <= k < sorted.len() implies text_leq(
                (#[trigger] sorted[k]).0,
                name,
            ) by {
                if k < sorted.len() - 1 {
                    assert(text_leq(sorted[k].0, sorted[sorted.len() - 1].0));
                    text_leq_transitive(sorted[k].0, sorted.last().0, name);
                }
            }
        } else {
            assert(names_increase(init)) by {
                assert forall|i: int, j: int| 0 <= i < j < init.len() implies text_leq(
                    (#[trigger] init[i]).0,
                    (#[trigger] init[j]).0,
                ) && init[i].0 != init[j].0 by {
                    assert(sorted[i] == init[i] && sorted[j] == init[j]);
                }
            }
            place_splits(init, name);
            place_is_there(init, name);
            assert forall|k: int| 0 <= k < place_of(sorted, name) implies text_leq(
                (#[trigger] sorted[k]).0,
                name,
            ) by {
                assert(init[k] == sorted[k]);
            }
            assert forall|k: int| place_of(sorted, name) <= k < sorted.len() implies !text_leq(
                (#[trigger] sorted[k]).0,
                name,
            ) by {
                if k < init.len() {
                    assert(init[k] == sorted[k]);
                }
            }
        }
    }
}

/// Each name of the sorted members is one of the names of the members.
proof fn sorting_keeps_names(members: Seq<(Seq<char>, JsonModel)>, k: int)
    requires
        0 <= k < sorted_members(members).len(),
    ensures
        exists|i: int|
            0 <= i < members.len() && (#[trigger] members[i]).0 == sorted_members(members)[k].0,
    decreases members.len(),
{
    let init = sorted_members(members.drop_last());
    let name = members.last().0;
    let place = place_of(init, name);
    place_is_there(init, name);
    if k == place {
        assert(members[members.len() - 1].0 == sorted_members(members)[k].0);
    } else {
        let j = if k < place {
            k
        } else {
            k - 1
        };
        sorting_keeps_names(members.drop_last(), j);
        let i = choose|i: int|
            0 <= i < members.drop_last().len() && (#[trigger] members.drop_last()[i]).0
                == init[j].0;
        assert(members[i].0 == sorted_members(members)[k].0);
    }
}

/// Sorting a value in which no name occurs twice orders the members of all of its objects.
pub proof fn sorting_orders(value: JsonModel)
    requires
        proper(value),
    ensures
        ordered(sorted_tree(value)),
    decreases value, 1nat,
{
    if let JsonModel::Object(members) = value {
        sorting_orders_members(members);
    }
}

proof fn sorting_orders_members(members: Seq<(Seq<char>, JsonModel)>)
    requires
        names_differ(members),
        proper_members(members),
    ensures
        names_increase(sorted_members(members)),
        ordered_members(sorted_members(members)),
    decreases members, 0nat,
{
    if members.len() > 0 {
        let rest = members.drop_last();
        let init = sorted_members(rest);
        let name = members.last().0;
        let place = place_of(init, name);
        let all = sorted_members(members);
        let entry = (name, sorted_tree(members.last().1));
        assert(names_differ(rest)) by {
            assert forall|i: int, j: int| 0 <= i < j < rest.len() implies (#[trigger] rest[i]).0 != (
            #[trigger] rest[j]).0 by {
                assert(members[i] == rest[i] && members[j] == rest[j]);
            }
        }
        sorting_orders_members(rest);
        sorting_orders(members.last().1);
        place_is_there(init, name);
        place_splits(init, name);
        assert forall|k: int| 0 <= k < init.len() implies (#[trigger] init[k]).0 != name by {
            sorting_keeps_names(rest, k);
            let i = choose|i: int| 0 <= i < rest.len() && (#[trigger] rest[i]).0 == init[k].0;
            assert(members[i].0 != members[members.len() - 1].0);
        }
        assert forall|i: int, j: int| 0 <= i < j < all.len() implies text_leq(
            (#[trigger] all[i]).0,
            (#[trigger] all[j]).0,
        ) && all[i].0 != all[j].0 by {
            let a = if i < place {
                i
            } else {
                i - 1
            };
            let b = if j < place {
                j
            } else {
                j - 1
            };
            if i == place {
                assert(all[j] == init[b]);
                text_leq_total(init[b].0, name);
            } else if j == place {
                assert(all[i] == init[a]);
            } else {
                assert(all[i] == init[a] && all[j] == init[b]);
            }
        }
        ordered_insert(init, place, entry);
    }
}

proof fn ordered_insert(
    members: Seq<(Seq<char>, JsonModel)>,
    place: int,
    entry: (Seq<char>, JsonModel),
)
    requires
        0 <= place <= members.len(),
        ordered_members(members),
        ordered(entry.1),
    ensures
        ordered_members(members.insert(place, entry)),
    decreases members.len(),
{
    let all = members.insert(place, entry);
    if place == members.len() {
        assert(all.drop_last() =~= members);
    } else {
        ordered_insert(members.drop_last(), place, entry);
        assert(all.drop_last() =~= members.drop_last().insert(place, entry));
        assert(all.last() == members.last());
    }
}

/// Sorting members neither adds nor loses any; only the members of the objects in them are sorted as
/// well.
pub proof fn sorting_keeps_members(members: Seq<(Seq<char>, JsonModel)>)
    ensures
        sorted_members(members).to_multiset() == members.map_values(
            |m: (Seq<char>, JsonModel)| (m.0, sorted_tree(m.1)),
        ).to_multiset(),
    decreases members.len(),
{
    broadcast use vstd::seq_lib::group_to_multiset_ensures;

    let f = |m: (Seq<char>, JsonModel)| (m.0, sorted_tree(m.1));
    if members.len() == 0 {
        assert(members.map_values(f) =~= sorted_members(members));
    } else {
        let rest = members.drop_last();
        let init = sorted_members(rest);
        let name = members.last().0;
        let place = place_of(init, name);
        let entry = f(members.last());
        let all = sorted_members(members);
        sorting_keeps_members(rest);
        place_is_there(init, name);
        assert(all.remove(place) =~= init);
        assert(all[place] == entry);
        assert(all.contains(entry));
        assert(all.to_multiset() =~= init.to_multiset().insert(entry));
        assert(members.map_values(f) =~= rest.map_values(f).push(entry));
    }
}

} // verus!
