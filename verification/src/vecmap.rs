//! What this library takes for granted of `vec_map::VecMap`, the map from
//! small integer keys that keeps the tasks of the store in memory.
//!
//! Nothing in this file is proved. Each function here makes one call into
//! `vec_map` and states what that call does to the pairs that the map holds.
use vec_map::VecMap;
use vstd::prelude::*;

use crate::task::BasicTask;

verus! {

/// `vec_map::VecMap`, a map keyed by `usize`. Its fields stay hidden.
#[verifier::external_type_specification]
#[verifier::external_body]
#[verifier::reject_recursive_types(V)]
pub struct ExVecMap<V>(VecMap<V>);

/// The pairs of key and task that a `VecMap` of tasks holds.
pub uninterp spec fn held(map: VecMap<BasicTask>) -> Map<usize, BasicTask>;

/// `VecMap::new`: a map that holds nothing.
#[verifier::external_body]
pub(crate) fn new_map() -> (r: VecMap<BasicTask>)
    ensures
        forall|key: usize| !held(r).contains_key(key),
{
    VecMap::new()
}

/// `VecMap::insert`: the map then holds `task` under `key`, in place of
/// what it held there, and is otherwise as before. The call returns what
/// was held under `key`. The key `usize::MAX` is left out: the map would
/// have to grow to a length that does not exist.
#[verifier::external_body]
pub(crate) fn insert(
    map: &mut VecMap<BasicTask>,
    key: usize,
    task: BasicTask,
) -> (r: Option<BasicTask>)
    requires
        key < usize::MAX,
    ensures
        held(*final(map)) == held(*old(map)).insert(key, task),
        r == (if held(*old(map)).contains_key(key) {
            Some(held(*old(map))[key])
        } else {
            None
        }),
{
    map.insert(key, task)
}

/// `VecMap::remove`: the map no longer holds anything under `key` and is
/// otherwise as before. The call returns what was held under `key`.
#[verifier::external_body]
pub(crate) fn remove(map: &mut VecMap<BasicTask>, key: usize) -> (r: Option<BasicTask>)
    ensures
        held(*final(map)) == held(*old(map)).remove(key),
        r == (if held(*old(map)).contains_key(key) {
            Some(held(*old(map))[key])
        } else {
            None
        }),
{
    map.remove(key)
}

/// `VecMap::get`: the task held under `key`, if there is one.
#[verifier::external_body]
pub(crate) fn get(map: &VecMap<BasicTask>, key: usize) -> (r: Option<&BasicTask>)
    ensures
        r == (if held(*map).contains_key(key) {
            Some(&held(*map)[key])
        } else {
            None
        }),
{
    map.get(key)
}

/// `VecMap::get_mut`: the task held under `key`, if there is one, to be
/// changed in place. Once the caller is done with it, the map holds under
/// `key` what the task has become and is otherwise as before.
#[verifier::external_body]
pub(crate) fn get_mut(map: &mut VecMap<BasicTask>, key: usize) -> (r: Option<&mut BasicTask>)
    ensures
        match r {
            Some(task) => held(*old(map)).contains_key(key) && *task == held(*old(map))[key]
                && held(*final(map)) == held(*old(map)).insert(key, *final(task)),
            None => !held(*old(map)).contains_key(key) && held(*final(map)) == held(*old(map)),
        },
{
    map.get_mut(key)
}

/// `VecMap::iter`, collected: every pair that the map holds, once, in
/// ascending order of the keys.
#[verifier::external_body]
pub(crate) fn pairs(map: &VecMap<BasicTask>) -> (r: Vec<(usize, &BasicTask)>)
    ensures
        forall|i: int, j: int| 0 <= i < j < r@.len() ==> (#[trigger] r@[i]).0 < (#[trigger] r@[j]).0,
        forall|i: int|
            0 <= i < r@.len() ==> held(*map).contains_key((#[trigger] r@[i]).0) && *r@[i].1 == held(
                *map,
            )[r@[i].0],
        forall|key: usize|
            held(*map).contains_key(key) ==> exists|i: int|
                0 <= i < r@.len() && (#[trigger] r@[i]).0 == key,
{
    map.iter().collect()
}

} // verus!
