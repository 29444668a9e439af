//! The least and the greatest key of an ordered map.

use std::collections::BTreeMap;
use vstd::prelude::*;

verus! {

/// Calls `BTreeMap::first_key_value` and keeps the key: the least key of the
/// map, or nothing where the map is empty.
#[verifier::external_body]
fn first_key<V>(btree: &BTreeMap<i32, V>) -> (r: Option<i32>)
    ensures
        match r {
            Some(min) => btree@.contains_key(min) && forall|k: i32|
                btree@.contains_key(k) ==> min <= k,
            None => forall|k: i32| !btree@.contains_key(k),
        },
{
    btree.first_key_value().map(|kv| *kv.0)
}

/// Calls `BTreeMap::last_key_value` and keeps the key: the greatest key of
/// the map, or nothing where the map is empty.
#[verifier::external_body]
fn last_key<V>(btree: &BTreeMap<i32, V>) -> (r: Option<i32>)
    ensures
        match r {
            Some(max) => btree@.contains_key(max) && forall|k: i32|
                btree@.contains_key(k) ==> k <= max,
            None => forall|k: i32| !btree@.contains_key(k),
        },
{
    btree.last_key_value().map(|kv| *kv.0)
}

/// The least and the greatest key of `btree`, or nothing where it is empty.
pub fn btree_minmax<V>(btree: &BTreeMap<i32, V>) -> (r: Option<(i32, i32)>)
    ensures
        match r {
            Some((min, max)) => {
                &&& btree@.contains_key(min)
                &&& btree@.contains_key(max)
                &&& forall|k: i32| btree@.contains_key(k) ==> min <= k <= max
            },
            None => forall|k: i32| !btree@.contains_key(k),
        },
{
    match first_key(btree) {
        None => None,
        Some(min) => {
            // a map with a least key has a greatest one: where it has a
            // single element that is both the min and the max
            let max = match last_key(btree) {
                Some(max) => max,
                None => min,
            };
            Some((min, max))
        },
    }
}

} // verus!
