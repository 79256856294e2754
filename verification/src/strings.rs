//! The interned-string table.
//!
//! Interning deduplicates textual identifiers: equal strings get equal ids.
//! The cache is a concurrent hash map, so several building threads may intern
//! at once; the context keeps it consistent with its id-to-string list.

use vstd::prelude::*;

verus! {

/// The concurrent hash map that backs string interning.
#[verifier::external_type_specification]
#[verifier::external_body]
#[verifier::reject_recursive_types(K)]
#[verifier::reject_recursive_types(V)]
#[verifier::reject_recursive_types(S)]
pub struct ExDashMap<K, V, S>(dashmap::DashMap<K, V, S>);

/// The interning cache: a concurrent map from a string to the id it was
/// interned under.
pub type StringTable = dashmap::DashMap<String, usize>;

/// What the cache holds: the keys present, each with its stored id.
pub uninterp spec fn table_map(t: dashmap::DashMap<String, usize>) -> Map<Seq<char>, usize>;

/// Relies on dashmap::DashMap::new: creates an empty map.
#[verifier::external_body]
pub(crate) fn table_new() -> (r: dashmap::DashMap<String, usize>)
    ensures
        forall|s: Seq<char>| !table_map(r).dom().contains(s),
{
    dashmap::DashMap::new()
}

/// Relies on dashmap::DashMap::get: returns the value stored under an equal
/// key, or nothing when the key is absent.
#[verifier::external_body]
pub(crate) fn table_get(t: &dashmap::DashMap<String, usize>, key: &str) -> (r: Option<usize>)
    ensures
        r == if table_map(*t).contains_key(key@) {
            Some(table_map(*t)[key@])
        } else {
            None::<usize>
        },
{
    match t.get(key) {
        Some(v) => Some(*v),
        None => None,
    }
}

/// Relies on dashmap::DashMap::insert: stores the value under the key,
/// replacing any previous value of that key.
#[verifier::external_body]
pub(crate) fn table_insert(t: &mut dashmap::DashMap<String, usize>, key: String, value: usize)
    ensures
        table_map(*final(t)) == table_map(*old(t)).insert(key@, value),
{
    t.insert(key, value);
}

/// A reference to an interned string: the id under which the context stores
/// its text.
#[derive(Clone, Copy, Debug, PartialEq, Eq, Structural)]
pub struct StringRef {
    pub id: usize,
}

} // verus!
