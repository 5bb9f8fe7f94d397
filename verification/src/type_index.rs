//! An insertion-ordered index of type names.
//!
//! Merging type definitions keeps each name at the position where it first
//! appeared and the definition that came last. An [`IndexMap`] from a type
//! name (its name and namespace) to the position of a definition does
//! exactly that: inserting a known key replaces its value in place, a new
//! key goes last.
use vstd::prelude::*;
use indexmap::IndexMap;

verus! {

/// `indexmap::IndexMap`, whose contents Verus does not see.
#[verifier::external_type_specification]
#[verifier::external_body]
#[verifier::reject_recursive_types(K)]
#[verifier::reject_recursive_types(V)]
#[verifier::reject_recursive_types(S)]
pub struct ExIndexMap<K, V, S>(IndexMap<K, V, S>);

/// The entries of a name index, in the map's order: each key (a name and
/// an optional namespace) with its value.
pub uninterp spec fn type_index_entries(m: IndexMap<(String, Option<String>), usize>) -> Seq<((Seq<char>, Option<Seq<char>>), usize)>;

/// The abstract value of a key: the name and the namespace, as text.
pub open spec fn key_view(k: (String, Option<String>)) -> (Seq<char>, Option<Seq<char>>) {
    (k.0@, match k.1 {
        Some(ns) => Some(ns@),
        None => None,
    })
}

/// The position of the first entry whose key is `k`.
pub open spec fn key_position(c: Seq<((Seq<char>, Option<Seq<char>>), usize)>, k: (Seq<char>, Option<Seq<char>>)) -> Option<int>
    decreases c.len(),
{
    if c.len() == 0 {
        None
    } else {
        match key_position(c.drop_last(), k) {
            Some(j) => Some(j),
            None => if c.last().0 == k { Some(c.len() - 1) } else { None },
        }
    }
}

/// `IndexMap::new`: the new map has no entries.
#[verifier::external_body]
pub(crate) fn index_new() -> (r: IndexMap<(String, Option<String>), usize>)
    ensures
        type_index_entries(r) == Seq::<((Seq<char>, Option<Seq<char>>), usize)>::empty(),
{
    IndexMap::new()
}

/// `IndexMap::insert`: when an equal key is present, its entry keeps its
/// place and takes the new value, and the old value is returned; otherwise
/// the entry goes last and `None` is returned.
#[verifier::external_body]
pub(crate) fn index_insert(m: &mut IndexMap<(String, Option<String>), usize>, key: (String, Option<String>), value: usize) -> (r: Option<usize>)
    ensures
        match key_position(type_index_entries(*old(m)), key_view(key)) {
            Some(j) => {
                &&& type_index_entries(*final(m)) == type_index_entries(*old(m)).update(j, (key_view(key), value))
                &&& r == Some(type_index_entries(*old(m))[j].1)
            },
            None => {
                &&& type_index_entries(*final(m)) == type_index_entries(*old(m)).push((key_view(key), value))
                &&& r is None
            },
        },
{
    m.insert(key, value)
}

/// `IndexMap::len`: the number of entries.
#[verifier::external_body]
pub(crate) fn index_len(m: &IndexMap<(String, Option<String>), usize>) -> (r: usize)
    ensures
        r == type_index_entries(*m).len(),
{
    m.len()
}

/// `IndexMap::get_index`: the value of the entry at position `j`, if there
/// is one.
#[verifier::external_body]
pub(crate) fn index_value_at(m: &IndexMap<(String, Option<String>), usize>, j: usize) -> (r: Option<usize>)
    ensures
        j < type_index_entries(*m).len() ==> r == Some(type_index_entries(*m)[j as int].1),
        j >= type_index_entries(*m).len() ==> r is None,
{
    m.get_index(j).map(|(_, v)| *v)
}

} // verus!
