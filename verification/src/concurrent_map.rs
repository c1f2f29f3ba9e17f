//! The sharded maps of the store: `dashmap::DashMap`s from author ids to deques
//! of posts, and from deleted post ids to a flag. Each method that the store
//! uses goes through one of the functions below, whose contract says what the
//! call does to the map's contents. The store owns its maps, so each call that
//! changes a map takes it by `&mut`.
use std::collections::VecDeque;
use dashmap::DashMap;
use vstd::prelude::*;
use crate::post::LightPost;
use crate::post_store::newest_posts;
use crate::store_spec::{at_most, newest_first};

verus! {

#[verifier::external_type_specification]
#[verifier::external_body]
#[verifier::reject_recursive_types(K)]
#[verifier::reject_recursive_types(V)]
#[verifier::reject_recursive_types(S)]
pub struct ExDashMap<K, V, S>(DashMap<K, V, S>);

/// Per-author deques of posts, keyed by author id.
pub type PostMap = DashMap<i64, VecDeque<LightPost>>;

/// Deleted post ids, each mapped to `true`.
pub type TombstoneMap = DashMap<i64, bool>;

/// What a post map holds: for each author key, that author's deque.
pub uninterp spec fn post_map_contents(m: PostMap) -> Map<i64, Seq<LightPost>>;

/// What a tombstone map holds: for each deleted post id, its flag.
pub uninterp spec fn tombstone_contents(m: TombstoneMap) -> Map<i64, bool>;

/// `DashMap::new`: a map that holds nothing.
#[verifier::external_body]
pub(crate) fn post_map_new() -> (result: PostMap)
    ensures
        post_map_contents(result).dom() == Set::<i64>::empty(),
{
    DashMap::new()
}

/// `DashMap::insert`: `key` now maps to `posts`, whatever it mapped to before;
/// the other keys keep their deques. The replaced deque is dropped.
#[verifier::external_body]
pub(crate) fn post_map_insert(map: &mut PostMap, key: i64, posts: VecDeque<LightPost>)
    ensures
        post_map_contents(*final(map)) == post_map_contents(*old(map)).insert(key, posts@),
{
    map.insert(key, posts);
}

/// `DashMap::remove`: takes the entry of `key` out of the map and hands back
/// its deque, or `None` where the map has no such key.
#[verifier::external_body]
pub(crate) fn post_map_remove(map: &mut PostMap, key: i64) -> (result: Option<VecDeque<LightPost>>)
    ensures
        post_map_contents(*final(map)) == post_map_contents(*old(map)).remove(key),
        result is Some <==> post_map_contents(*old(map)).contains_key(key),
        result matches Some(posts) ==> posts@ == post_map_contents(*old(map))[key],
{
    map.remove(&key).map(|(_, posts)| posts)
}

/// `DashMap::get`: a copy of the deque of `key`, or `None` where the map has no
/// such key.
#[verifier::external_body]
pub(crate) fn post_map_get(map: &PostMap, key: i64) -> (result: Option<VecDeque<LightPost>>)
    ensures
        result is Some <==> post_map_contents(*map).contains_key(key),
        result matches Some(posts) ==> posts@ == post_map_contents(*map)[key],
{
    map.get(&key).map(|entry| entry.value().clone())
}

/// `DashMap::view` with `newest_posts` as the closure: the newest `n` posts of
/// the deque of `key`, newest first, or `None` where the map has no such key.
#[verifier::external_body]
pub(crate) fn post_map_newest(map: &PostMap, key: i64, n: usize) -> (result: Option<Vec<LightPost>>)
    ensures
        result is Some <==> post_map_contents(*map).contains_key(key),
        result matches Some(posts) ==> posts@ == at_most(newest_first(post_map_contents(*map)[key]), n as nat),
{
    map.view(&key, |_, posts| newest_posts(posts, n))
}

/// `DashMap::iter`, keeping the keys: each key of the map once, in the order
/// in which the shards hand them out.
#[verifier::external_body]
pub(crate) fn post_map_keys(map: &PostMap) -> (result: Vec<i64>)
    ensures
        result@.to_set() == post_map_contents(*map).dom(),
        result@.no_duplicates(),
{
    map.iter().map(|entry| *entry.key()).collect()
}

/// `DashMap::clear`: the map holds nothing afterwards.
#[verifier::external_body]
pub(crate) fn post_map_clear(map: &mut PostMap)
    ensures
        post_map_contents(*final(map)).dom() == Set::<i64>::empty(),
{
    map.clear();
}

/// `DashMap::len`: the number of keys.
#[verifier::external_body]
pub(crate) fn post_map_len(map: &PostMap) -> (result: usize)
    ensures
        result == post_map_contents(*map).dom().len(),
{
    map.len()
}

/// `DashMap::new`: a tombstone map that holds nothing.
#[verifier::external_body]
pub(crate) fn tombstone_new() -> (result: TombstoneMap)
    ensures
        tombstone_contents(result).dom() == Set::<i64>::empty(),
{
    DashMap::new()
}

/// `DashMap::insert`: `post_id` now maps to `true`.
#[verifier::external_body]
pub(crate) fn tombstone_insert(map: &mut TombstoneMap, post_id: i64)
    ensures
        tombstone_contents(*final(map)) == tombstone_contents(*old(map)).insert(post_id, true),
{
    map.insert(post_id, true);
}

/// `DashMap::remove`: `post_id` no longer has an entry.
#[verifier::external_body]
pub(crate) fn tombstone_remove(map: &mut TombstoneMap, post_id: i64)
    ensures
        tombstone_contents(*final(map)) == tombstone_contents(*old(map)).remove(post_id),
{
    map.remove(&post_id);
}

/// `DashMap::contains_key`: whether `post_id` has an entry.
#[verifier::external_body]
pub(crate) fn tombstone_contains(map: &TombstoneMap, post_id: i64) -> (result: bool)
    ensures
        result == tombstone_contents(*map).contains_key(post_id),
{
    map.contains_key(&post_id)
}

/// `DashMap::iter`, keeping the keys: each tombstoned post id once.
#[verifier::external_body]
pub(crate) fn tombstone_keys(map: &TombstoneMap) -> (result: Vec<i64>)
    ensures
        result@.to_set() == tombstone_contents(*map).dom(),
        result@.no_duplicates(),
{
    map.iter().map(|entry| *entry.key()).collect()
}

/// `DashMap::clear`: the tombstone map holds nothing afterwards.
#[verifier::external_body]
pub(crate) fn tombstone_clear(map: &mut TombstoneMap)
    ensures
        tombstone_contents(*final(map)).dom() == Set::<i64>::empty(),
{
    map.clear();
}

/// `DashMap::len`: the number of tombstoned post ids.
#[verifier::external_body]
pub(crate) fn tombstone_len(map: &TombstoneMap) -> (result: usize)
    ensures
        result == tombstone_contents(*map).dom().len(),
{
    map.len()
}

} // verus!
