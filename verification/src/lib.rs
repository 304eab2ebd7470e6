//! Wait-for graphs over a snapshot of database locks.
//!
//! A snapshot says which session holds which lock and which session waits
//! for which lock.  From it the crate builds a directed graph with an edge
//! from a waiting session to every session that holds a conflicting lock on
//! the same target, and extracts the blocking chain of a single session.

use vstd::prelude::*;
use std::collections::HashMap;
use std::collections::hash_map::RandomState;
use std::hash::Hash;
use vstd::std_specs::hash::*;

pub mod text;
pub mod intern;
pub mod lock;
pub mod graph;
pub mod subgraph;
pub mod gpdbcli;

verus! {

/// Returns the slot of `k` in `map`, first filling it with `new` when the
/// key is absent.
pub fn get_or_default_ex<K: Hash + Eq, V>(map: &mut HashMap<K, V, RandomState>, k: K, new: V) -> (slot:
    &mut V)
    requires
        obeys_key_model::<K>(),
    ensures
        *slot == (if old(map)@.contains_key(k) {
            old(map)@[k]
        } else {
            new
        }),
        final(map)@ == old(map)@.insert(k, *final(slot)),
{
    broadcast use group_hash_axioms;

    map.entry(k).or_insert(new)
}

/// Returns the slot of `k` in `map`, first filling it with the default
/// value of `V` when the key is absent.
pub fn get_or_default<K: Hash + Eq, V: Default>(map: &mut HashMap<K, V, RandomState>, k: K) -> (slot:
    &mut V)
    requires
        obeys_key_model::<K>(),
    ensures
        old(map)@.contains_key(k) ==> *slot == old(map)@[k],
        !old(map)@.contains_key(k) ==> call_ensures(V::default, (), *slot),
        final(map)@ == old(map)@.insert(k, *final(slot)),
{
    let fresh = V::default();
    get_or_default_ex(map, k, fresh)
}

} // verus!
