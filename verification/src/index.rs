//! Indexes from names, and from lists of pairs, to positions in a list. Both are
//! hash maps of the `hashbrown` crate.

use vstd::prelude::*;
use vstd::string::*;

use crate::value::pairs;

verus! {

/// Positions by name.
#[verifier::external_body]
pub struct NameIndex {
    map: hashbrown::HashMap<String, usize>,
}

/// The positions that a [`NameIndex`] holds.
pub uninterp spec fn name_positions(index: NameIndex) -> Map<Seq<char>, usize>;

/// No positions by name.
pub open spec fn no_names() -> Map<Seq<char>, usize> {
    Map::empty()
}

/// `hashbrown::HashMap::new` makes a map without entries.
#[verifier::external_body]
pub(crate) fn new_name_index() -> (res: NameIndex)
    ensures
        name_positions(res) == no_names(),
{
    NameIndex { map: hashbrown::HashMap::new() }
}

/// `hashbrown::HashMap::get` gives the value of a key, if the key is there.
#[verifier::external_body]
pub(crate) fn name_position(index: &NameIndex, name: &str) -> (res: Option<usize>)
    ensures
        res == if name_positions(*index).contains_key(name@) {
            Some(name_positions(*index)[name@])
        } else {
            None
        },
{
    index.map.get(name).copied()
}

/// `hashbrown::HashMap::insert` sets the value of a key and leaves the others.
#[verifier::external_body]
pub(crate) fn set_name_position(index: &mut NameIndex, name: String, position: usize)
    ensures
        name_positions(*final(index)) == name_positions(*old(index)).insert(name@, position),
{
    index.map.insert(name, position);
}

/// `hashbrown::HashMap::clone` makes a map with the same entries.
#[verifier::external_body]
pub(crate) fn copy_name_index(index: &NameIndex) -> (res: NameIndex)
    ensures
        name_positions(res) == name_positions(*index),
{
    NameIndex { map: index.map.clone() }
}

/// Positions by a list of pairs.
#[verifier::external_body]
pub struct KeyIndex {
    map: hashbrown::HashMap<Vec<(String, String)>, usize>,
}

/// The positions that a [`KeyIndex`] holds.
pub uninterp spec fn key_positions(index: KeyIndex) -> Map<Seq<(Seq<char>, Seq<char>)>, usize>;

/// No positions by key.
pub open spec fn no_keys() -> Map<Seq<(Seq<char>, Seq<char>)>, usize> {
    Map::empty()
}

/// `hashbrown::HashMap::new` makes a map without entries.
#[verifier::external_body]
pub(crate) fn new_key_index() -> (res: KeyIndex)
    ensures
        key_positions(res) == no_keys(),
{
    KeyIndex { map: hashbrown::HashMap::new() }
}

/// `hashbrown::HashMap::get` gives the value of a key, if the key is there.
#[verifier::external_body]
pub(crate) fn key_position(index: &KeyIndex, key: &Vec<(String, String)>) -> (res: Option<usize>)
    ensures
        res == if key_positions(*index).contains_key(pairs(key@)) {
            Some(key_positions(*index)[pairs(key@)])
        } else {
            None
        },
{
    index.map.get(key).copied()
}

/// `hashbrown::HashMap::insert` sets the value of a key and leaves the others.
#[verifier::external_body]
pub(crate) fn set_key_position(index: &mut KeyIndex, key: Vec<(String, String)>, position: usize)
    ensures
        key_positions(*final(index)) == key_positions(*old(index)).insert(pairs(key@), position),
{
    index.map.insert(key, position);
}

} // verus!
