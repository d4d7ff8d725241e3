//! The concurrency-safe map the guard keeps its kick and ban records in,
//! provided by the `dashmap` crate. Its contents are named by
//! `shared_map_contents`; each wrapper states over that name what the crate's
//! own code does to the map.

use vstd::prelude::*;

verus! {

#[verifier::external_type_specification]
#[verifier::external_body]
#[verifier::reject_recursive_types(K)]
#[verifier::reject_recursive_types(V)]
#[verifier::reject_recursive_types(S)]
pub struct ExDashMap<K, V, S>(dashmap::DashMap<K, V, S>);

/// The concrete map type the guard uses: string keys, `i64` values.
pub type SharedMap = dashmap::DashMap<String, i64>;

/// What the map holds, keyed by the characters of its string keys.
pub uninterp spec fn shared_map_contents(m: SharedMap) -> Map<Seq<char>, i64>;

/// The map holds nothing.
pub open spec fn shared_map_is_empty(m: SharedMap) -> bool {
    shared_map_contents(m) == Map::<Seq<char>, i64>::empty()
}

/// Relies on dashmap's DashMap::new: the new map is empty.
#[verifier::external_body]
pub fn shared_map_new() -> (m: SharedMap)
    ensures
        shared_map_is_empty(m),
{
    dashmap::DashMap::new()
}

/// Relies on dashmap's DashMap::get: the value stored under the key, if any.
#[verifier::external_body]
pub fn shared_map_get(m: &SharedMap, k: &str) -> (r: Option<i64>)
    ensures
        match r {
            Some(v) => shared_map_contents(*m).dom().contains(k@) && shared_map_contents(*m)[k@]
                == v,
            None => !shared_map_contents(*m).dom().contains(k@),
        },
{
    m.get(k).map(|x| *x.value())
}

/// Relies on dashmap's DashMap::insert: the map now holds `v` under `k`, and
/// every other key keeps its value.
#[verifier::external_body]
pub fn shared_map_insert(m: &mut SharedMap, k: String, v: i64)
    ensures
        shared_map_contents(*final(m)) == shared_map_contents(*old(m)).insert(k@, v),
{
    m.insert(k, v);
}

} // verus!
