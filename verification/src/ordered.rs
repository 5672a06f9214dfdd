//! The insertion-ordered map that carries placeholder names and their values.
//!
//! The map itself is `indexmap::IndexMap<String, String>`. The functions of
//! this module are not proved: each states what the `indexmap` crate
//! documents of one method, over the sequence of entries that a map holds.

use indexmap::IndexMap;
use vstd::prelude::*;

verus! {

#[verifier::external_type_specification]
#[verifier::external_body]
#[verifier::reject_recursive_types(K)]
#[verifier::reject_recursive_types(V)]
#[verifier::reject_recursive_types(S)]
pub struct ExIndexMap<K, V, S>(IndexMap<K, V, S>);

/// The entries of a map, as (key, value) pairs in the map's own order, which
/// is the order in which the keys were first inserted.
pub uninterp spec fn entries(m: IndexMap<String, String>) -> Seq<(Seq<char>, Seq<char>)>;

/// The position of the first entry whose key is `key`, or the number of
/// entries where there is none.
pub open spec fn key_position(e: Seq<(Seq<char>, Seq<char>)>, key: Seq<char>) -> int
    decreases e.len(),
{
    if e.len() == 0 {
        0
    } else if e[0].0 == key {
        0
    } else {
        1 + key_position(e.drop_first(), key)
    }
}

/// The entries after `key` has been inserted with `value`: a key that is
/// present keeps its place and gets the new value, a new key goes last.
pub open spec fn inserted(
    e: Seq<(Seq<char>, Seq<char>)>,
    key: Seq<char>,
    value: Seq<char>,
) -> Seq<(Seq<char>, Seq<char>)> {
    let p = key_position(e, key);
    if 0 <= p < e.len() {
        e.update(p, (key, value))
    } else {
        e.push((key, value))
    }
}

/// `IndexMap::new`: a map without entries.
#[verifier::external_body]
pub(crate) fn empty_map() -> (m: IndexMap<String, String>)
    ensures
        entries(m) == Seq::<(Seq<char>, Seq<char>)>::empty(),
{
    IndexMap::new()
}

/// `IndexMap::insert`: where an equal key is present it keeps its place and
/// its value is replaced, otherwise the pair is added last. The value that
/// was replaced is dropped.
#[verifier::external_body]
pub(crate) fn insert_entry(m: &mut IndexMap<String, String>, key: String, value: String)
    ensures
        entries(*final(m)) == inserted(entries(*old(m)), key@, value@),
{
    m.insert(key, value);
}

/// `IndexMap::len`: the number of entries.
#[verifier::external_body]
pub(crate) fn entry_count(m: &IndexMap<String, String>) -> (n: usize)
    ensures
        n == entries(*m).len(),
{
    m.len()
}

/// `IndexMap::get_index`: the entry at a position below the map's length,
/// handed out as copies of its key and value.
#[verifier::external_body]
pub(crate) fn entry_at(m: &IndexMap<String, String>, index: usize) -> (kv: (String, String))
    requires
        index < entries(*m).len(),
    ensures
        (kv.0@, kv.1@) == entries(*m)[index as int],
{
    let (k, v) = m.get_index(index).unwrap();
    (k.clone(), v.clone())
}

/// `IndexMap::get_index_mut`: the value of the entry at a position below the
/// map's length is overwritten; its key and every other entry stay.
#[verifier::external_body]
pub(crate) fn set_value_at(m: &mut IndexMap<String, String>, index: usize, value: String)
    requires
        index < entries(*old(m)).len(),
    ensures
        entries(*final(m)) == entries(*old(m)).update(
            index as int,
            (entries(*old(m))[index as int].0, value@),
        ),
{
    let (_, v) = m.get_index_mut(index).unwrap();
    *v = value;
}

} // verus!
