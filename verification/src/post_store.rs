//! The post store: recent posts of each author, split into originals, replies
//! and retweets, and videos, plus the tombstones of deleted posts.
use std::collections::{HashSet, VecDeque};
use std::time::Instant;
use vstd::prelude::*;
use crate::config::{
    DELETE_EVENT_KEY, MAX_TINY_POSTS_PER_USER_SCAN, MAX_VIDEO_POSTS_PER_AUTHOR,
    MAX_ORIGINAL_POSTS_PER_AUTHOR, MAX_REPLY_POSTS_PER_AUTHOR,
};
use crate::clock::{elapsed_since, whole_millis};
use crate::concurrent_map::{
    PostMap, TombstoneMap, post_map_contents, tombstone_contents, post_map_new, post_map_insert,
    post_map_remove, tombstone_new, tombstone_insert, tombstone_contains, tombstone_remove,
    post_map_keys, tombstone_keys, post_map_clear, tombstone_clear, post_map_get,
    post_map_len, tombstone_len, post_map_newest,
};
use crate::post::{LightPost, TweetDeleteEvent, sorted_oldest_first};
use crate::store_spec::{
    PostStoreView, deque_or_empty, insert_pos, place_post, place_in_map, lemma_insert_pos, insert_one, insert_all, delete_one, delete_all, within_retention,
    ages_fit, created_as_u64, age_known, expired, expired_prefix_len, trim_safe, trim_posts, trim_map,
    ids_of_prefix, expired_tombstones, sum_over, lemma_sum_over_remove, trimmed_count, map_trim_safe,
    trim_ready, trim_view, prefix_keys, purge_ids, purge_map, purge_view,
    lemma_purge_view_nothing, lemma_purge_view_step,
    sorted_map_of, sorted_view_of, PostKind, posts_of_kind, ServeRules, newest_first, at_most,
    gather, lemma_at_most_filter_prefix, total_posts,
    videos_served, all_posts_served,
};
use crate::sorting::sort_oldest_first;
use crate::store_spec::{store_sorted, store_kinds};
use crate::store_laws::{
    lemma_insert_all_keeps_sorted, lemma_insert_all_keeps_kinds, lemma_delete_all_keeps, lemma_trim_keeps,
    lemma_purge_keeps, lemma_sort_keeps, video_mirrors, times_not_negative, lemma_insert_all_keeps_mirror,
    lemma_delete_all_keeps_mirror, lemma_purge_keeps_mirror, lemma_sort_keeps_mirror, lemma_trim_keeps_mirror,
    lemma_sort_keeps_times, lemma_empty_store_mirrors, tombstones_recorded, lemma_no_tombstones_recorded,
    lemma_insert_all_keeps_records, lemma_delete_all_keeps_records, lemma_trim_keeps_records,
    lemma_purge_keeps_records, lemma_sort_keeps_records, delete_key_videos_outside,
    lemma_sort_keeps_delete_key_videos, lemma_trim_keeps_delete_key_videos,
};

verus! {

broadcast use vstd::std_specs::hash::group_hash_axioms;

/// Why the store refuses to trim at a given time.
#[derive(Clone, Copy, Debug, PartialEq, Eq)]
pub enum StoreError {
    /// A post that the trim would look at was created after the trim time (or
    /// before the Unix epoch), so its age cannot be computed.
    CreatedAfterNow,
    /// The number of posts the trim would pop does not fit in a `usize`.
    CountOverflow,
}

/// Sizes of a store, for monitoring.
#[derive(Clone, Copy, Debug, PartialEq, Eq)]
pub struct PostStoreStats {
    /// Authors with an original-post deque (the delete-event deque included).
    pub user_count: usize,
    pub original_count: usize,
    pub secondary_count: usize,
    pub video_count: usize,
    pub deleted_count: usize,
}

/// Recent posts of every author, split by kind, with the tombstones of deleted posts.
pub struct PostStore {
    original_posts_by_user: PostMap,
    secondary_posts_by_user: PostMap,
    video_posts_by_user: PostMap,
    deleted_posts: TombstoneMap,
    retention_seconds: u64,
    request_timeout_ms: u64,
}

impl View for PostStore {
    type V = PostStoreView;

    closed spec fn view(&self) -> PostStoreView {
        PostStoreView {
            original: post_map_contents(self.original_posts_by_user),
            secondary: post_map_contents(self.secondary_posts_by_user),
            video: post_map_contents(self.video_posts_by_user),
            deleted: tombstone_contents(self.deleted_posts).dom(),
            retention_seconds: self.retention_seconds,
            request_timeout_ms: self.request_timeout_ms,
        }
    }
}

/// Where a post created at `created_at` goes in `posts`, as `insert_pos` says:
/// found from the back, since new posts are mostly the newest.
fn place_index(posts: &VecDeque<LightPost>, created_at: i64) -> (pos: usize)
    ensures
        pos == insert_pos(posts@, created_at),
{
    let mut i = posts.len();
    assert(posts@.take(i as int) =~= posts@);
    while i > 0 && posts[i - 1].created_at > created_at
        invariant
            i <= posts@.len(),
            insert_pos(posts@, created_at) == insert_pos(posts@.take(i as int), created_at),
        decreases i,
    {
        proof {
            let t = posts@.take(i as int);
            assert(t.drop_last() =~= posts@.take(i - 1));
            assert(t.last() == posts@[i - 1]);
        }
        i = i - 1;
    }
    proof {
        let t = posts@.take(i as int);
        if i > 0 {
            assert(t.last() == posts@[i - 1]);
        }
    }
    i
}

/// Puts `p` at its place by creation time in `posts`.
fn place_in_deque(posts: &mut VecDeque<LightPost>, p: LightPost)
    ensures
        final(posts)@ == place_post(old(posts)@, p),
{
    let pos = place_index(posts, p.created_at);
    proof {
        lemma_insert_pos(posts@, p.created_at);
    }
    posts.insert(pos, p);
}

/// Places `p` in the deque of `author` in `map`, creating the deque if absent.
fn place_in_map_at(map: &mut PostMap, author: i64, p: LightPost)
    ensures
        post_map_contents(*final(map)) == place_in_map(post_map_contents(*old(map)), author, p),
{
    let mut posts = match post_map_remove(map, author) {
        Some(posts) => posts,
        None => VecDeque::new(),
    };
    place_in_deque(&mut posts, p);
    post_map_insert(map, author, posts);
    proof {
        assert(post_map_contents(*map) =~= place_in_map(post_map_contents(*old(map)), author, p));
    }
}

/// The posts of `posts` within the retention window at `now`, in their order.
fn retained_posts(posts: &Vec<LightPost>, now: i64, retention_seconds: u64) -> (kept: Vec<LightPost>)
    requires
        ages_fit(posts@, now),
    ensures
        kept@ == posts@.filter(|p: LightPost| within_retention(p, now, retention_seconds)),
{
    let mut kept: Vec<LightPost> = Vec::new();
    let n = posts.len();
    for i in 0..n
        invariant
            n == posts@.len(),
            ages_fit(posts@, now),
            kept@ == posts@.take(i as int).filter(|p: LightPost| within_retention(p, now, retention_seconds)),
    {
        let p = posts[i];
        assert(retention_seconds <= 0x7fff_ffff_ffff_ffffu64 ==> retention_seconds as i64 == retention_seconds)
            by (bit_vector);
        let keep_post = if p.created_at < now {
            let age = now - p.created_at;
            retention_seconds <= 9223372036854775807u64 && age <= retention_seconds as i64
        } else {
            false
        };
        assert(keep_post == within_retention(p, now, retention_seconds));
        if keep_post {
            kept.push(p);
        }
        proof {
            reveal_with_fuel(Seq::filter, 1);
            assert(posts@.take(i + 1).drop_last() =~= posts@.take(i as int));
            assert(posts@.take(i + 1).last() == p);
        }
    }
    proof {
        assert(posts@.take(n as int) =~= posts@);
    }
    kept
}

/// The newest `n` posts of `posts` (all of them where there are fewer), newest first.
pub(crate) fn newest_posts(posts: &VecDeque<LightPost>, n: usize) -> (newest: Vec<LightPost>)
    ensures
        newest@ == at_most(newest_first(posts@), n as nat),
{
    let len = posts.len();
    let count = if len < n { len } else { n };
    let mut newest: Vec<LightPost> = Vec::new();
    for j in 0..count
        invariant
            count <= len,
            len == posts@.len(),
            count == at_most(newest_first(posts@), n as nat).len(),
            newest@ == at_most(newest_first(posts@), n as nat).take(j as int),
    {
        newest.push(posts[len - 1 - j]);
        proof {
            assert(newest@ =~= at_most(newest_first(posts@), n as nat).take(j + 1));
        }
    }
    proof {
        assert(at_most(newest_first(posts@), n as nat).take(count as int) =~= at_most(newest_first(posts@), n as nat));
    }
    newest
}

/// Pops the expired prefix of `posts`; where `key` is `DELETE_EVENT_KEY`, the
/// tombstones of the popped posts are dropped from `deleted`. Returns how many
/// posts were popped.
fn trim_deque(posts: &mut VecDeque<LightPost>, key: i64, deleted: &mut TombstoneMap, now: u64, retention_seconds: u64) -> (popped: usize)
    requires
        trim_safe(old(posts)@, now, retention_seconds),
        expired_prefix_len(old(posts)@, now, retention_seconds) <= usize::MAX,
    ensures
        popped == expired_prefix_len(old(posts)@, now, retention_seconds),
        final(posts)@ == trim_posts(old(posts)@, now, retention_seconds),
        tombstone_contents(*final(deleted)).dom() == if key == DELETE_EVENT_KEY {
            tombstone_contents(*old(deleted)).dom().difference(ids_of_prefix(old(posts)@, popped as int))
        } else {
            tombstone_contents(*old(deleted)).dom()
        },
{
    let ghost s0 = posts@;
    let ghost d0 = tombstone_contents(*deleted).dom();
    let mut popped: usize = 0;
    assert(s0.skip(0) =~= s0);
    assert(d0.difference(ids_of_prefix(s0, 0)) =~= d0);
    while posts.len() > 0
        invariant
            posts@ == s0.skip(popped as int),
            popped <= s0.len(),
            popped + expired_prefix_len(posts@, now, retention_seconds) == expired_prefix_len(s0, now, retention_seconds),
            trim_safe(posts@, now, retention_seconds),
            expired_prefix_len(s0, now, retention_seconds) <= usize::MAX,
            tombstone_contents(*deleted).dom() == if key == DELETE_EVENT_KEY {
                d0.difference(ids_of_prefix(s0, popped as int))
            } else {
                d0
            },
        ensures
            popped == expired_prefix_len(s0, now, retention_seconds),
            posts@ == s0.skip(popped as int),
            tombstone_contents(*deleted).dom() == if key == DELETE_EVENT_KEY {
                d0.difference(ids_of_prefix(s0, popped as int))
            } else {
                d0
            },
        decreases posts.len(),
    {
        let p = posts[0];
        let c = p.created_at;
        let created = c as u64;
        assert(c >= 0 ==> created == c) by (bit_vector)
            requires created == c as u64;
        assert(c < 0 ==> created == c + 0x1_0000_0000_0000_0000) by (bit_vector)
            requires created == c as u64;
        assert(created == created_as_u64(p));
        assert(age_known(p, now));
        if now - created > retention_seconds {
            let ghost before = posts@;
            posts.pop_front();
            assert(posts@ =~= before.drop_first());
            assert(s0.skip(popped + 1) =~= before.drop_first());
            if key == DELETE_EVENT_KEY {
                tombstone_remove(deleted, p.post_id);
                proof {
                    assert(s0[popped as int] == p);
                    assert(ids_of_prefix(s0, popped + 1) =~= ids_of_prefix(s0, popped as int).insert(p.post_id));
                    assert(tombstone_contents(*deleted).dom() =~= d0.difference(ids_of_prefix(s0, popped + 1)));
                }
            }
            popped = popped + 1;
        } else {
            break;
        }
    }
    popped
}

/// Trims every deque of `map` as `trim_deque` does, and drops the keys whose
/// deque ends up empty. Returns how many posts were popped in all.
fn trim_map_in_place(map: &mut PostMap, deleted: &mut TombstoneMap, now: u64, retention_seconds: u64) -> (count: usize)
    requires
        post_map_contents(*old(map)).dom().finite(),
        map_trim_safe(post_map_contents(*old(map)), now, retention_seconds),
        trimmed_count(post_map_contents(*old(map)), now, retention_seconds) <= usize::MAX,
    ensures
        count == trimmed_count(post_map_contents(*old(map)), now, retention_seconds),
        post_map_contents(*final(map)) == trim_map(post_map_contents(*old(map)), now, retention_seconds),
        tombstone_contents(*final(deleted)).dom() == tombstone_contents(*old(deleted)).dom().difference(
            expired_tombstones(post_map_contents(*old(map)), now, retention_seconds),
        ),
{
    let ghost m0 = post_map_contents(*map);
    let ghost d0 = tombstone_contents(*deleted).dom();
    let ghost f = |k: i64| expired_prefix_len(m0[k], now, retention_seconds);
    let keys = post_map_keys(map);
    let n = keys.len();
    let mut count: usize = 0;
    proof {
        assert(prefix_keys(keys@, 0) =~= Set::empty());
        assert(m0.dom().difference(prefix_keys(keys@, 0)) =~= m0.dom());
        assert(d0.difference(Set::empty()) =~= d0);
    }
    for i in 0..n
        invariant
            n == keys@.len(),
            keys@.to_set() == m0.dom(),
            keys@.no_duplicates(),
            m0.dom().finite(),
            map_trim_safe(m0, now, retention_seconds),
            f == (|k: i64| expired_prefix_len(m0[k], now, retention_seconds)),
            sum_over(m0.dom(), f) <= usize::MAX,
            count + sum_over(m0.dom().difference(prefix_keys(keys@, i as int)), f) == sum_over(m0.dom(), f),
            forall|k: i64| #[trigger] post_map_contents(*map).contains_key(k) <==> (m0.contains_key(k)
                && (prefix_keys(keys@, i as int).contains(k) ==> trim_posts(m0[k], now, retention_seconds).len() > 0)),
            forall|k: i64| #[trigger] post_map_contents(*map).contains_key(k) ==> post_map_contents(*map)[k] == (
                if prefix_keys(keys@, i as int).contains(k) { trim_posts(m0[k], now, retention_seconds) } else { m0[k] }),
            tombstone_contents(*deleted).dom() == d0.difference(
                if prefix_keys(keys@, i as int).contains(DELETE_EVENT_KEY) {
                    expired_tombstones(m0, now, retention_seconds)
                } else {
                    Set::empty()
                }),
    {
        let key = keys[i];
        proof {
            assert(keys@.to_set().contains(key));
            if prefix_keys(keys@, i as int).contains(key) {
                let j = choose|j: int| 0 <= j < i && keys@[j] == key;
                assert(keys@[j] == keys@[i as int]);
            }
            assert(!prefix_keys(keys@, i as int).contains(key));
            assert(post_map_contents(*map).contains_key(key));
            assert(prefix_keys(keys@, i + 1) =~= prefix_keys(keys@, i as int).insert(key));
            let rest = m0.dom().difference(prefix_keys(keys@, i as int));
            lemma_sum_over_remove(rest, f, key);
            assert(rest.remove(key) =~= m0.dom().difference(prefix_keys(keys@, i + 1)));
        }
        let mut posts = match post_map_remove(map, key) {
            Some(posts) => posts,
            None => VecDeque::new(),
        };
        assert(posts@ == m0[key]);
        let popped = trim_deque(&mut posts, key, deleted, now, retention_seconds);
        count = count + popped;
        if posts.len() > 0 {
            post_map_insert(map, key, posts);
        }
        proof {
            assert forall|k: i64| #[trigger] post_map_contents(*map).contains_key(k) <==> (m0.contains_key(k)
                && (prefix_keys(keys@, i + 1).contains(k) ==> trim_posts(m0[k], now, retention_seconds).len() > 0)) by {
                if k != key {
                    assert(prefix_keys(keys@, i + 1).contains(k) == prefix_keys(keys@, i as int).contains(k));
                }
            }
            if key == DELETE_EVENT_KEY {
                assert(tombstone_contents(*deleted).dom() =~= d0.difference(expired_tombstones(m0, now, retention_seconds)));
            }
        }
    }
    proof {
        assert(prefix_keys(keys@, n as int) =~= m0.dom()) by {
            assert forall|k: i64| prefix_keys(keys@, n as int).contains(k) <==> m0.dom().contains(k) by {
                if m0.dom().contains(k) {
                    assert(keys@.to_set().contains(k));
                    let j = choose|j: int| 0 <= j < keys@.len() && keys@[j] == k;
                }
            }
        }
        assert(m0.dom().difference(m0.dom()) =~= Set::empty());
        assert(post_map_contents(*map) =~= trim_map(m0, now, retention_seconds));
        if !m0.contains_key(DELETE_EVENT_KEY) {
            assert(tombstone_contents(*deleted).dom() =~= d0.difference(expired_tombstones(m0, now, retention_seconds)));
        }
    }
    count
}

/// A copy of `posts` without the posts whose id is `post_id`.
fn without_post(posts: &VecDeque<LightPost>, post_id: i64) -> (kept: VecDeque<LightPost>)
    ensures
        kept@ == purge_ids(posts@, Set::empty().insert(post_id)),
{
    let mut kept: VecDeque<LightPost> = VecDeque::new();
    let n = posts.len();
    for i in 0..n
        invariant
            n == posts@.len(),
            kept@ == purge_ids(posts@.take(i as int), Set::empty().insert(post_id)),
    {
        let p = posts[i];
        if p.post_id != post_id {
            kept.push_back(p);
        }
        proof {
            reveal_with_fuel(Seq::filter, 1);
            assert(posts@.take(i + 1).drop_last() =~= posts@.take(i as int));
            assert(posts@.take(i + 1).last() == p);
        }
    }
    proof {
        assert(posts@.take(n as int) =~= posts@);
    }
    kept
}

/// Drops the posts whose id is `post_id` from every deque of `map`, except the
/// `DELETE_EVENT_KEY` deque when `spare_delete_events`.
fn purge_map_in_place(map: &mut PostMap, post_id: i64, spare_delete_events: bool)
    ensures
        post_map_contents(*final(map)) == purge_map(post_map_contents(*old(map)), Set::empty().insert(post_id), spare_delete_events),
{
    let ghost m0 = post_map_contents(*map);
    let ghost ids = Set::<i64>::empty().insert(post_id);
    let keys = post_map_keys(map);
    let n = keys.len();
    for i in 0..n
        invariant
            n == keys@.len(),
            keys@.to_set() == m0.dom(),
            keys@.no_duplicates(),
            ids == Set::<i64>::empty().insert(post_id),
            post_map_contents(*map).dom() == m0.dom(),
            forall|k: i64| #[trigger] post_map_contents(*map).contains_key(k) ==> post_map_contents(*map)[k] == (
                if prefix_keys(keys@, i as int).contains(k) && !(spare_delete_events && k == DELETE_EVENT_KEY) {
                    purge_ids(m0[k], ids)
                } else {
                    m0[k]
                }),
    {
        let key = keys[i];
        proof {
            assert(keys@.to_set().contains(key));
            if prefix_keys(keys@, i as int).contains(key) {
                let j = choose|j: int| 0 <= j < i && keys@[j] == key;
                assert(keys@[j] == keys@[i as int]);
            }
            assert(prefix_keys(keys@, i + 1) =~= prefix_keys(keys@, i as int).insert(key));
        }
        if !(spare_delete_events && key == DELETE_EVENT_KEY) {
            let posts = match post_map_remove(map, key) {
                Some(posts) => posts,
                None => VecDeque::new(),
            };
            let kept = without_post(&posts, post_id);
            post_map_insert(map, key, kept);
            proof {
                assert(post_map_contents(*map).dom() =~= m0.dom());
            }
        }
    }
    proof {
        assert(prefix_keys(keys@, n as int) =~= m0.dom()) by {
            assert forall|k: i64| prefix_keys(keys@, n as int).contains(k) <==> m0.dom().contains(k) by {
                if m0.dom().contains(k) {
                    assert(keys@.to_set().contains(k));
                    let j = choose|j: int| 0 <= j < keys@.len() && keys@[j] == k;
                }
            }
        }
        assert(post_map_contents(*map) =~= purge_map(m0, ids, spare_delete_events));
    }
}

/// Sorts `posts` oldest first, through a `Vec` that the slice sort orders.
fn sort_deque_oldest_first(posts: &mut VecDeque<LightPost>)
    ensures
        final(posts)@.to_multiset() == old(posts)@.to_multiset(),
        sorted_oldest_first(final(posts)@),
{
    let n = posts.len();
    let mut items: Vec<LightPost> = Vec::new();
    for i in 0..n
        invariant
            n == posts@.len(),
            items@ == posts@.take(i as int),
    {
        items.push(posts[i]);
        proof {
            assert(items@ =~= posts@.take(i + 1));
        }
    }
    assert(items@ =~= posts@);
    sort_oldest_first(&mut items);
    let mut sorted: VecDeque<LightPost> = VecDeque::new();
    let m = items.len();
    for j in 0..m
        invariant
            m == items@.len(),
            sorted@ == items@.take(j as int),
    {
        sorted.push_back(items[j]);
        proof {
            assert(sorted@ =~= items@.take(j + 1));
        }
    }
    assert(sorted@ =~= items@);
    *posts = sorted;
}

/// Sorts every deque of `map` oldest first.
fn sort_map_in_place(map: &mut PostMap)
    ensures
        sorted_map_of(post_map_contents(*old(map)), post_map_contents(*final(map))),
{
    let ghost m0 = post_map_contents(*map);
    let keys = post_map_keys(map);
    let n = keys.len();
    for i in 0..n
        invariant
            n == keys@.len(),
            keys@.to_set() == m0.dom(),
            keys@.no_duplicates(),
            post_map_contents(*map).dom() == m0.dom(),
            forall|k: i64| #[trigger] post_map_contents(*map).contains_key(k) ==> (
                if prefix_keys(keys@, i as int).contains(k) {
                    post_map_contents(*map)[k].to_multiset() == m0[k].to_multiset()
                        && sorted_oldest_first(post_map_contents(*map)[k])
                } else {
                    post_map_contents(*map)[k] == m0[k]
                }),
    {
        let key = keys[i];
        proof {
            assert(keys@.to_set().contains(key));
            if prefix_keys(keys@, i as int).contains(key) {
                let j = choose|j: int| 0 <= j < i && keys@[j] == key;
                assert(keys@[j] == keys@[i as int]);
            }
            assert(prefix_keys(keys@, i + 1) =~= prefix_keys(keys@, i as int).insert(key));
        }
        let mut posts = match post_map_remove(map, key) {
            Some(posts) => posts,
            None => VecDeque::new(),
        };
        sort_deque_oldest_first(&mut posts);
        post_map_insert(map, key, posts);
        proof {
            assert(post_map_contents(*map).dom() =~= m0.dom());
        }
    }
    proof {
        assert(prefix_keys(keys@, n as int) =~= m0.dom()) by {
            assert forall|k: i64| prefix_keys(keys@, n as int).contains(k) <==> m0.dom().contains(k) by {
                if m0.dom().contains(k) {
                    assert(keys@.to_set().contains(k));
                    let j = choose|j: int| 0 <= j < keys@.len() && keys@[j] == k;
                }
            }
        }
    }
}

/// Whether `posts` can be trimmed at `now` without an age below zero, and if so
/// how many posts the trim pops.
fn deque_trim_check(posts: &VecDeque<LightPost>, now: u64, retention_seconds: u64) -> (result: (bool, usize))
    ensures
        result.0 == trim_safe(posts@, now, retention_seconds),
        result.0 ==> result.1 == expired_prefix_len(posts@, now, retention_seconds),
{
    let n = posts.len();
    let mut i: usize = 0;
    assert(posts@.skip(0) =~= posts@);
    loop
        invariant
            n == posts@.len(),
            i <= n,
            trim_safe(posts@, now, retention_seconds) == trim_safe(posts@.skip(i as int), now, retention_seconds),
            expired_prefix_len(posts@, now, retention_seconds) == i + expired_prefix_len(posts@.skip(i as int), now, retention_seconds),
        decreases n - i,
    {
        if i == n {
            return (true, i);
        }
        let p = posts[i];
        let c = p.created_at;
        let created = c as u64;
        assert(c >= 0 ==> created == c) by (bit_vector)
            requires created == c as u64;
        assert(c < 0 ==> created == c + 0x1_0000_0000_0000_0000) by (bit_vector)
            requires created == c as u64;
        let ghost rest = posts@.skip(i as int);
        assert(rest[0] == p);
        assert(created == created_as_u64(p));
        if created > now {
            return (false, 0);
        }
        if now - created > retention_seconds {
            assert(rest.drop_first() =~= posts@.skip(i + 1));
            i = i + 1;
        } else {
            return (true, i);
        }
    }
}

/// Whether every deque of `map` can be trimmed at `now` without an age below
/// zero, and if so the number of posts the trim pops, where it fits in a `usize`.
fn map_trim_check(map: &PostMap, now: u64, retention_seconds: u64) -> (result: (bool, Option<usize>))
    ensures
        post_map_contents(*map).dom().finite(),
        result.0 == map_trim_safe(post_map_contents(*map), now, retention_seconds),
        result.0 ==> match result.1 {
            Some(count) => count == trimmed_count(post_map_contents(*map), now, retention_seconds),
            None => trimmed_count(post_map_contents(*map), now, retention_seconds) > usize::MAX,
        },
{
    broadcast use vstd::seq_lib::seq_to_set_is_finite;
    let ghost m0 = post_map_contents(*map);
    let ghost f = |k: i64| expired_prefix_len(m0[k], now, retention_seconds);
    let keys = post_map_keys(map);
    let n = keys.len();
    let mut count: usize = 0;
    let mut overflow = false;
    proof {
        assert(prefix_keys(keys@, 0) =~= Set::empty());
        assert(m0.dom().difference(prefix_keys(keys@, 0)) =~= m0.dom());
    }
    let mut i: usize = 0;
    while i < n
        invariant
            i <= n,
            n == keys@.len(),
            keys@.to_set() == m0.dom(),
            keys@.no_duplicates(),
            m0.dom().finite(),
            m0 == post_map_contents(*map),
            f == (|k: i64| expired_prefix_len(m0[k], now, retention_seconds)),
            forall|k: i64| #[trigger] prefix_keys(keys@, i as int).contains(k) ==> trim_safe(m0[k], now, retention_seconds),
            !overflow ==> count + sum_over(m0.dom().difference(prefix_keys(keys@, i as int)), f) == sum_over(m0.dom(), f),
            overflow ==> sum_over(m0.dom(), f) > usize::MAX,
        decreases n - i,
    {
        let key = keys[i];
        proof {
            assert(keys@.to_set().contains(key));
            if prefix_keys(keys@, i as int).contains(key) {
                let j = choose|j: int| 0 <= j < i && keys@[j] == key;
                assert(keys@[j] == keys@[i as int]);
            }
            assert(prefix_keys(keys@, i + 1) =~= prefix_keys(keys@, i as int).insert(key));
            let rest = m0.dom().difference(prefix_keys(keys@, i as int));
            lemma_sum_over_remove(rest, f, key);
            assert(rest.remove(key) =~= m0.dom().difference(prefix_keys(keys@, i + 1)));
        }
        let posts = match post_map_get(map, key) {
            Some(posts) => posts,
            None => VecDeque::new(),
        };
        let (safe, popped) = deque_trim_check(&posts, now, retention_seconds);
        if !safe {
            proof {
                assert(m0.contains_key(key));
            }
            return (false, None);
        }
        if !overflow {
            if count > usize::MAX - popped {
                overflow = true;
            } else {
                count = count + popped;
            }
        }
        i = i + 1;
    }
    proof {
        assert(prefix_keys(keys@, n as int) =~= m0.dom()) by {
            assert forall|k: i64| prefix_keys(keys@, n as int).contains(k) <==> m0.dom().contains(k) by {
                if m0.dom().contains(k) {
                    assert(keys@.to_set().contains(k));
                    let j = choose|j: int| 0 <= j < keys@.len() && keys@[j] == k;
                }
            }
        }
        assert(m0.dom().difference(m0.dom()) =~= Set::empty());
    }
    if overflow {
        (true, None)
    } else {
        (true, Some(count))
    }
}

/// The number of posts over all deques of `map`, or `None` where it does not
/// fit in a `usize`.
fn count_posts(map: &PostMap) -> (count: Option<usize>)
    ensures
        match count {
            Some(c) => c == total_posts(post_map_contents(*map)),
            None => total_posts(post_map_contents(*map)) > usize::MAX,
        },
{
    let ghost m0 = post_map_contents(*map);
    let ghost f = |k: i64| m0[k].len();
    let keys = post_map_keys(map);
    let n = keys.len();
    let mut count: usize = 0;
    proof {
        assert(prefix_keys(keys@, 0) =~= Set::empty());
        assert(m0.dom().difference(prefix_keys(keys@, 0)) =~= m0.dom());
    }
    for i in 0..n
        invariant
            n == keys@.len(),
            keys@.to_set() == m0.dom(),
            keys@.no_duplicates(),
            m0 == post_map_contents(*map),
            f == (|k: i64| m0[k].len()),
            count + sum_over(m0.dom().difference(prefix_keys(keys@, i as int)), f) == sum_over(m0.dom(), f),
    {
        let key = keys[i];
        proof {
            assert(keys@.to_set().contains(key));
            if prefix_keys(keys@, i as int).contains(key) {
                let j = choose|j: int| 0 <= j < i && keys@[j] == key;
                assert(keys@[j] == keys@[i as int]);
            }
            assert(prefix_keys(keys@, i + 1) =~= prefix_keys(keys@, i as int).insert(key));
            let rest = m0.dom().difference(prefix_keys(keys@, i as int));
            lemma_sum_over_remove(rest, f, key);
            assert(rest.remove(key) =~= m0.dom().difference(prefix_keys(keys@, i + 1)));
        }
        let len = match post_map_get(map, key) {
            Some(posts) => posts.len(),
            None => 0,
        };
        if count > usize::MAX - len {
            return None;
        }
        count = count + len;
    }
    proof {
        assert(prefix_keys(keys@, n as int) =~= m0.dom()) by {
            assert forall|k: i64| prefix_keys(keys@, n as int).contains(k) <==> m0.dom().contains(k) by {
                if m0.dom().contains(k) {
                    assert(keys@.to_set().contains(k));
                    let j = choose|j: int| 0 <= j < keys@.len() && keys@[j] == k;
                }
            }
        }
        assert(m0.dom().difference(m0.dom()) =~= Set::empty());
    }
    Some(count)
}

/// Whether a retrieval that has run for `elapsed_ms` milliseconds has spent its
/// budget of `request_timeout_ms` milliseconds (zero: no limit).
pub fn budget_spent(request_timeout_ms: u64, elapsed_ms: u128) -> (spent: bool)
    ensures
        spent == (request_timeout_ms != 0 && elapsed_ms >= request_timeout_ms),
{
    request_timeout_ms != 0 && elapsed_ms >= request_timeout_ms as u128
}

/// Whether the age at `now` of each post of `posts` created before `now` fits in
/// an `i64`, as `insert_posts` needs.
pub fn batch_ages_fit(posts: &Vec<LightPost>, now: i64) -> (fit: bool)
    ensures
        fit == ages_fit(posts@, now),
{
    let n = posts.len();
    for i in 0..n
        invariant
            n == posts@.len(),
            forall|j: int| 0 <= j < i && posts@[j].created_at < now ==> now - posts@[j].created_at <= i64::MAX,
    {
        let c = posts[i].created_at;
        if c < now && c < 0 && now > i64::MAX + c {
            return false;
        }
    }
    true
}

/// The set of the ids in `ids`.
fn id_set(ids: &[i64]) -> (set: HashSet<i64>)
    ensures
        set@ == ids@.to_set(),
{
    let mut set: HashSet<i64> = HashSet::new();
    let n = ids.len();
    proof {
        assert(prefix_keys(ids@, 0) =~= Set::empty());
    }
    for i in 0..n
        invariant
            n == ids@.len(),
            set@ == prefix_keys(ids@, i as int),
    {
        set.insert(ids[i]);
        proof {
            assert(prefix_keys(ids@, i + 1) =~= prefix_keys(ids@, i as int).insert(ids@[i as int]));
        }
    }
    proof {
        assert(prefix_keys(ids@, n as int) =~= ids@.to_set());
    }
    set
}

impl PostStore {
    /// An empty store that keeps posts for `retention_seconds` and gives one
    /// retrieval `request_timeout_ms` milliseconds (zero: no limit).
    pub fn new(retention_seconds: u64, request_timeout_ms: u64) -> (store: Self)
        ensures
            store@.original.dom() == Set::<i64>::empty(),
            store@.secondary.dom() == Set::<i64>::empty(),
            store@.video.dom() == Set::<i64>::empty(),
            store@.deleted == Set::<i64>::empty(),
            store@.retention_seconds == retention_seconds,
            store@.request_timeout_ms == request_timeout_ms,
            store_sorted(store@),
            store_kinds(store@),
            video_mirrors(store@),
            tombstones_recorded(store@),
    {
        let store = PostStore {
            original_posts_by_user: post_map_new(),
            secondary_posts_by_user: post_map_new(),
            video_posts_by_user: post_map_new(),
            deleted_posts: tombstone_new(),
            retention_seconds,
            request_timeout_ms,
        };
        proof {
            lemma_empty_store_mirrors(store@);
            lemma_no_tombstones_recorded(store@);
        }
        store
    }

    /// Tombstones each deleted post and records the deletion, placed by its
    /// deletion time, in the `DELETE_EVENT_KEY` deque, in the order of `posts`.
    pub fn mark_as_deleted(&mut self, posts: Vec<TweetDeleteEvent>)
        ensures
            final(self)@ == delete_all(old(self)@, posts@),
            store_sorted(old(self)@) ==> store_sorted(final(self)@),
            store_kinds(old(self)@) ==> store_kinds(final(self)@),
            video_mirrors(old(self)@) ==> video_mirrors(final(self)@),
            tombstones_recorded(old(self)@) ==> tombstones_recorded(final(self)@),
    {
        proof {
            lemma_delete_all_keeps(old(self)@, posts@);
            if video_mirrors(old(self)@) {
                lemma_delete_all_keeps_mirror(old(self)@, posts@);
            }
            if tombstones_recorded(old(self)@) {
                lemma_delete_all_keeps_records(old(self)@, posts@);
            }
        }
        let n = posts.len();
        for i in 0..n
            invariant
                n == posts@.len(),
                self@ == delete_all(old(self)@, posts@.take(i as int)),
        {
            let e = posts[i];
            proof {
                assert(posts@.take(i + 1).drop_last() =~= posts@.take(i as int));
            }
            tombstone_insert(&mut self.deleted_posts, e.post_id);
            let sentinel = LightPost {
                post_id: e.post_id,
                author_id: 0,
                created_at: e.deleted_at,
                is_reply: false,
                is_retweet: false,
                has_video: false,
                source_user_id: None,
                in_reply_to_post_id: None,
                in_reply_to_user_id: None,
            };
            place_in_map_at(&mut self.original_posts_by_user, DELETE_EVENT_KEY, sentinel);
            proof {
                assert(self@ == delete_one(delete_all(old(self)@, posts@.take(i as int)), e));
            }
        }
        proof {
            assert(posts@.take(n as int) =~= posts@);
        }
    }

    /// The retention window, in seconds.
    pub fn retention_seconds(&self) -> (seconds: u64)
        ensures
            seconds == self@.retention_seconds,
    {
        self.retention_seconds
    }

    /// Takes in a batch of posts at time `current_time` (seconds since the Unix
    /// epoch): the posts within the retention window are taken in oldest first,
    /// as `insert_all` says, each placed by its creation time in its deque, so
    /// that a store ordered oldest first stays so; posts of equal creation time
    /// come in an order that the sort leaves open.
    pub fn insert_posts(&mut self, posts: Vec<LightPost>, current_time: i64)
        requires
            ages_fit(posts@, current_time),
        ensures
            exists|batch: Seq<LightPost>|
                {
                    &&& batch.to_multiset() == posts@.filter(
                        |p: LightPost| within_retention(p, current_time, old(self)@.retention_seconds),
                    ).to_multiset()
                    &&& sorted_oldest_first(batch)
                    &&& final(self)@ == insert_all(old(self)@, batch)
                },
            store_sorted(old(self)@) ==> store_sorted(final(self)@),
            store_kinds(old(self)@) ==> store_kinds(final(self)@),
            video_mirrors(old(self)@) ==> video_mirrors(final(self)@),
            tombstones_recorded(old(self)@) ==> tombstones_recorded(final(self)@),
    {
        let mut kept = retained_posts(&posts, current_time, self.retention_seconds);
        sort_oldest_first(&mut kept);
        let ghost batch = kept@;
        self.insert_posts_internal(kept);
        assert(sorted_oldest_first(batch));
        proof {
            if store_sorted(old(self)@) {
                lemma_insert_all_keeps_sorted(old(self)@, batch);
            }
            if store_kinds(old(self)@) {
                lemma_insert_all_keeps_kinds(old(self)@, batch);
            }
            if video_mirrors(old(self)@) {
                lemma_insert_all_keeps_mirror(old(self)@, batch);
            }
            if tombstones_recorded(old(self)@) {
                lemma_insert_all_keeps_records(old(self)@, batch);
            }
        }
    }

    /// Whether a trim at `now` (seconds since the Unix epoch) can run: no post
    /// that it looks at was created after `now` or before the epoch, and the
    /// number of posts that it pops fits in a `usize`.
    pub fn check_trim(&self, now: u64) -> (result: Result<(), StoreError>)
        ensures
            result is Ok <==> trim_ready(self@, now),
            result == Err::<(), StoreError>(StoreError::CreatedAfterNow) <==> !(
                map_trim_safe(self@.original, now, self@.retention_seconds)
                && map_trim_safe(self@.secondary, now, self@.retention_seconds)
                && map_trim_safe(self@.video, now, self@.retention_seconds)),
    {
        let retention = self.retention_seconds;
        let (original_safe, original) = map_trim_check(&self.original_posts_by_user, now, retention);
        let (secondary_safe, secondary) = map_trim_check(&self.secondary_posts_by_user, now, retention);
        let (video_safe, video) = map_trim_check(&self.video_posts_by_user, now, retention);
        if !(original_safe && secondary_safe && video_safe) {
            return Err(StoreError::CreatedAfterNow);
        }
        match (original, secondary, video) {
            (Some(o), Some(s), Some(_)) => {
                if o > usize::MAX - s {
                    Err(StoreError::CountOverflow)
                } else {
                    Ok(())
                }
            },
            _ => Err(StoreError::CountOverflow),
        }
    }

    /// Drops the posts older than the retention window at `now` (seconds since
    /// the Unix epoch) from the front of every deque, drops the deques that end
    /// up empty, and drops the tombstones whose delete event was popped. Returns
    /// the number of original, reply and retweet posts popped (videos are not counted).
    pub fn trim_old_posts(&mut self, now: u64) -> (trimmed: usize)
        requires
            trim_ready(old(self)@, now),
        ensures
            final(self)@ == trim_view(old(self)@, now),
            trimmed == trimmed_count(old(self)@.original, now, old(self)@.retention_seconds)
                + trimmed_count(old(self)@.secondary, now, old(self)@.retention_seconds),
            store_sorted(old(self)@) ==> store_sorted(final(self)@),
            store_kinds(old(self)@) ==> store_kinds(final(self)@),
            video_mirrors(old(self)@) && store_sorted(old(self)@) && times_not_negative(old(self)@.original)
                && times_not_negative(old(self)@.video) ==> video_mirrors(final(self)@),
            tombstones_recorded(old(self)@) ==> tombstones_recorded(final(self)@),
    {
        proof {
            lemma_trim_keeps(old(self)@, now);
            if tombstones_recorded(old(self)@) {
                lemma_trim_keeps_records(old(self)@, now);
            }
            if video_mirrors(old(self)@) && store_sorted(old(self)@) && times_not_negative(old(self)@.original)
                && times_not_negative(old(self)@.video) {
                lemma_trim_keeps_mirror(old(self)@, now);
            }
        }
        let retention = self.retention_seconds;
        let original = trim_map_in_place(&mut self.original_posts_by_user, &mut self.deleted_posts, now, retention);
        let secondary = trim_map_in_place(&mut self.secondary_posts_by_user, &mut self.deleted_posts, now, retention);
        let _videos = trim_map_in_place(&mut self.video_posts_by_user, &mut self.deleted_posts, now, retention);
        original + secondary
    }

    /// Drops the posts whose id is `post_id` from every deque of every map, but
    /// not the delete events, which stay until a trim drops their tombstones.
    fn purge_from_user_deques(&mut self, post_id: i64)
        ensures
            final(self)@ == purge_view(old(self)@, Set::empty().insert(post_id)),
    {
        purge_map_in_place(&mut self.original_posts_by_user, post_id, true);
        purge_map_in_place(&mut self.secondary_posts_by_user, post_id, false);
        purge_map_in_place(&mut self.video_posts_by_user, post_id, false);
    }

    /// Sorts every deque of every map oldest first.
    pub fn sort_all_user_posts(&mut self)
        ensures
            sorted_view_of(old(self)@, final(self)@),
            store_sorted(final(self)@),
            store_kinds(old(self)@) ==> store_kinds(final(self)@),
            video_mirrors(old(self)@) ==> video_mirrors(final(self)@),
            tombstones_recorded(old(self)@) ==> tombstones_recorded(final(self)@),
    {
        sort_map_in_place(&mut self.original_posts_by_user);
        sort_map_in_place(&mut self.secondary_posts_by_user);
        sort_map_in_place(&mut self.video_posts_by_user);
        proof {
            lemma_sort_keeps(old(self)@, self@);
            if video_mirrors(old(self)@) {
                lemma_sort_keeps_mirror(old(self)@, self@);
            }
            if tombstones_recorded(old(self)@) {
                lemma_sort_keeps_records(old(self)@, self@);
            }
        }
    }

    /// Ends the initial load at `now`: sorts every deque oldest first, trims the
    /// posts older than the retention window, then drops from every deque the
    /// posts whose id is still tombstoned; the delete events stay in their deque,
    /// so that a later trim drops each tombstone once its event expires. Where
    /// the sorted store cannot be trimmed at `now` (see `check_trim`), it stays
    /// sorted and the error says why.
    pub fn finalize_init(&mut self, now: u64) -> (result: Result<(), StoreError>)
        ensures
            exists|sorted: PostStoreView|
                {
                    &&& sorted_view_of(old(self)@, sorted)
                    &&& match result {
                        Ok(()) => {
                            &&& trim_ready(sorted, now)
                            &&& final(self)@ == purge_view(trim_view(sorted, now), trim_view(sorted, now).deleted)
                            &&& deque_or_empty(final(self)@.original, DELETE_EVENT_KEY)
                                == deque_or_empty(trim_view(sorted, now).original, DELETE_EVENT_KEY)
                        },
                        Err(e) => {
                            &&& !trim_ready(sorted, now)
                            &&& final(self)@ == sorted
                            &&& (e == StoreError::CreatedAfterNow <==> !(
                                map_trim_safe(sorted.original, now, sorted.retention_seconds)
                                && map_trim_safe(sorted.secondary, now, sorted.retention_seconds)
                                && map_trim_safe(sorted.video, now, sorted.retention_seconds)))
                        },
                    }
                },
            store_sorted(final(self)@),
            store_kinds(old(self)@) ==> store_kinds(final(self)@),
            video_mirrors(old(self)@) && times_not_negative(old(self)@.original) && times_not_negative(old(self)@.video)
                && delete_key_videos_outside(old(self)@, old(self)@.deleted) ==> video_mirrors(final(self)@),
            tombstones_recorded(old(self)@) ==> tombstones_recorded(final(self)@),
    {
        self.sort_all_user_posts();
        let ghost sorted = self@;
        match self.check_trim(now) {
            Ok(()) => {},
            Err(e) => {
                return Err(e);
            },
        }
        proof {
            if times_not_negative(old(self)@.original) && times_not_negative(old(self)@.video) {
                lemma_sort_keeps_times(old(self)@.original, sorted.original);
                lemma_sort_keeps_times(old(self)@.video, sorted.video);
            }
            if delete_key_videos_outside(old(self)@, old(self)@.deleted) {
                lemma_sort_keeps_delete_key_videos(old(self)@, sorted);
                lemma_trim_keeps_delete_key_videos(sorted, now);
            }
        }
        self.trim_old_posts(now);
        let ghost trimmed = self@;
        proof {
            lemma_trim_keeps(sorted, now);
            if tombstones_recorded(sorted) {
                lemma_trim_keeps_records(sorted, now);
            }
        }
        let del_keys = tombstone_keys(&self.deleted_posts);
        let n = del_keys.len();
        proof {
            assert(prefix_keys(del_keys@, 0) =~= Set::empty());
            lemma_purge_view_nothing(trimmed);
        }
        for i in 0..n
            invariant
                n == del_keys@.len(),
                self@ == purge_view(trimmed, prefix_keys(del_keys@, i as int)),
        {
            let post_id = del_keys[i];
            self.purge_from_user_deques(post_id);
            proof {
                lemma_purge_view_step(trimmed, prefix_keys(del_keys@, i as int), post_id);
                assert(prefix_keys(del_keys@, i + 1) =~= prefix_keys(del_keys@, i as int).insert(post_id));
            }
        }
        proof {
            assert(prefix_keys(del_keys@, n as int) =~= trimmed.deleted) by {
                assert forall|k: i64| prefix_keys(del_keys@, n as int).contains(k) <==> trimmed.deleted.contains(k) by {
                    if trimmed.deleted.contains(k) {
                        assert(del_keys@.to_set().contains(k));
                        let j = choose|j: int| 0 <= j < del_keys@.len() && del_keys@[j] == k;
                    }
                }
            }
            lemma_purge_keeps(trimmed, trimmed.deleted);
            if video_mirrors(trimmed) && delete_key_videos_outside(trimmed, trimmed.deleted) {
                lemma_purge_keeps_mirror(trimmed, trimmed.deleted);
            }
            if tombstones_recorded(trimmed) {
                lemma_purge_keeps_records(trimmed, trimmed.deleted);
            }
        }
        Ok(())
    }

    /// The map that `kind` names.
    fn map_of_kind(&self, kind: PostKind) -> (map: &PostMap)
        ensures
            post_map_contents(*map) == posts_of_kind(self@, kind),
    {
        match kind {
            PostKind::Original => &self.original_posts_by_user,
            PostKind::Secondary => &self.secondary_posts_by_user,
            PostKind::Video => &self.video_posts_by_user,
        }
    }

    /// Whether the retrieval rules let `p` through.
    fn allows(&self, p: &LightPost, exclude_tweet_ids: &HashSet<i64>, following_users: &HashSet<i64>, request_user_id: i64) -> (allowed: bool)
        ensures
            allowed == (ServeRules {
                exclude: exclude_tweet_ids@,
                deleted: self@.deleted,
                following: following_users@,
                request_user_id,
            }).allows(*p),
    {
        if exclude_tweet_ids.contains(&p.post_id) {
            return false;
        }
        if tombstone_contains(&self.deleted_posts, p.post_id) {
            return false;
        }
        let own_retweet = p.is_retweet && match p.source_user_id {
            Some(source) => source == request_user_id,
            None => false,
        };
        if own_retweet {
            return false;
        }
        if following_users.is_empty() {
            return true;
        }
        match p.in_reply_to_post_id {
            None => true,
            Some(_) => match p.in_reply_to_user_id {
                Some(uid) => following_users.contains(&uid),
                None => false,
            },
        }
    }

    /// Among the newest `MAX_TINY_POSTS_PER_USER_SCAN` posts of `posts`, newest
    /// first, the first `max_per_user` that the rules let through.
    fn select_user_posts(&self, scanned_posts: &Vec<LightPost>, max_per_user: usize, exclude_tweet_ids: &HashSet<i64>, following_users: &HashSet<i64>, request_user_id: i64) -> (selected: Vec<LightPost>)
        ensures
            selected@ == at_most(scanned_posts@.filter(|p: LightPost| (ServeRules {
                exclude: exclude_tweet_ids@,
                deleted: self@.deleted,
                following: following_users@,
                request_user_id,
            }).allows(p)), max_per_user as nat),
    {
        let ghost rules = ServeRules {
            exclude: exclude_tweet_ids@,
            deleted: self@.deleted,
            following: following_users@,
            request_user_id,
        };
        let ghost scanned = scanned_posts@;
        let scan = scanned_posts.len();
        let mut selected: Vec<LightPost> = Vec::new();
        let mut j: usize = 0;
        loop
            invariant
                scan == scanned.len(),
                scanned == scanned_posts@,
                j <= scan,
                rules == (ServeRules {
                    exclude: exclude_tweet_ids@,
                    deleted: self@.deleted,
                    following: following_users@,
                    request_user_id,
                }),
                selected@ == at_most(scanned.take(j as int).filter(|p: LightPost| rules.allows(p)), max_per_user as nat),
            ensures
                selected@ == at_most(scanned.filter(|p: LightPost| rules.allows(p)), max_per_user as nat),
            decreases scan - j,
        {
            if j >= scan {
                assert(scanned.take(scan as int) =~= scanned);
                break;
            }
            if selected.len() >= max_per_user {
                proof {
                    lemma_at_most_filter_prefix(scanned, j as int, |p: LightPost| rules.allows(p), max_per_user as nat);
                }
                break;
            }
            let p = scanned_posts[j];
            let allowed = self.allows(&p, exclude_tweet_ids, following_users, request_user_id);
            if allowed {
                selected.push(p);
            }
            proof {
                reveal_with_fuel(Seq::filter, 1);
                assert(scanned.take(j + 1).drop_last() =~= scanned.take(j as int));
                assert(scanned.take(j + 1).last() == p);
                let a = scanned.take(j as int).filter(|p: LightPost| rules.allows(p));
                assert(a.len() < max_per_user);
            }
            j = j + 1;
        }
        selected
    }

    /// The posts of `user_ids` in the map that `kind` names: for each author in
    /// turn, among the newest `MAX_TINY_POSTS_PER_USER_SCAN` posts, newest first,
    /// the first `max_per_user` that are not excluded, not deleted, not a retweet
    /// of the requester's own post and, when `following_users` is not empty, not a
    /// reply to someone outside it. When the store has a request timeout and it
    /// has run out since `start_time`, the authors not reached yet are skipped.
    pub fn get_posts_from_map(
        &self,
        kind: PostKind,
        user_ids: &[i64],
        max_per_user: usize,
        exclude_tweet_ids: &HashSet<i64>,
        following_users: &HashSet<i64>,
        start_time: Instant,
        request_user_id: i64,
    ) -> (posts: Vec<LightPost>)
        ensures
            exists|reached: int|
                {
                    &&& 0 <= reached <= user_ids@.len()
                    &&& (self@.request_timeout_ms == 0 ==> reached == user_ids@.len())
                    &&& posts@ == gather(
                        posts_of_kind(self@, kind),
                        user_ids@.take(reached),
                        MAX_TINY_POSTS_PER_USER_SCAN as nat,
                        max_per_user as nat,
                        ServeRules {
                            exclude: exclude_tweet_ids@,
                            deleted: self@.deleted,
                            following: following_users@,
                            request_user_id,
                        },
                    )
                },
    {
        let ghost rules = ServeRules {
            exclude: exclude_tweet_ids@,
            deleted: self@.deleted,
            following: following_users@,
            request_user_id,
        };
        let ghost m = posts_of_kind(self@, kind);
        let map = self.map_of_kind(kind);
        let mut light_posts: Vec<LightPost> = Vec::new();
        let n = user_ids.len();
        let mut i: usize = 0;
        assert(user_ids@.take(0) =~= Seq::<i64>::empty());
        while i < n
            invariant
                n == user_ids@.len(),
                i <= n,
                post_map_contents(*map) == m,
                m == posts_of_kind(self@, kind),
                rules == (ServeRules {
                    exclude: exclude_tweet_ids@,
                    deleted: self@.deleted,
                    following: following_users@,
                    request_user_id,
                }),
                light_posts@ == gather(m, user_ids@.take(i as int), MAX_TINY_POSTS_PER_USER_SCAN as nat, max_per_user as nat, rules),
            ensures
                self@.request_timeout_ms == 0 ==> i == n,
                i <= n,
                light_posts@ == gather(m, user_ids@.take(i as int), MAX_TINY_POSTS_PER_USER_SCAN as nat, max_per_user as nat, rules),
            decreases n - i,
        {
            if self.request_timeout_ms != 0 {
                let elapsed_ms = whole_millis(&elapsed_since(&start_time));
                if budget_spent(self.request_timeout_ms, elapsed_ms) {
                    break;
                }
            }
            let user_id = user_ids[i];
            proof {
                assert(user_ids@.take(i + 1).drop_last() =~= user_ids@.take(i as int));
                assert(user_ids@.take(i + 1).last() == user_id);
            }
            match post_map_newest(map, user_id, MAX_TINY_POSTS_PER_USER_SCAN) {
                Some(scanned) => {
                    let mut selected = self.select_user_posts(&scanned, max_per_user, exclude_tweet_ids, following_users, request_user_id);
                    let ghost before = light_posts@;
                    light_posts.append(&mut selected);
                }
                None => {
                    assert(gather(m, user_ids@.take(i + 1), MAX_TINY_POSTS_PER_USER_SCAN as nat, max_per_user as nat, rules)
                        =~= gather(m, user_ids@.take(i as int), MAX_TINY_POSTS_PER_USER_SCAN as nat, max_per_user as nat, rules));
                }
            }
            i = i + 1;
        }
        light_posts
    }

    /// The video posts of `user_ids`: up to `MAX_VIDEO_POSTS_PER_AUTHOR` per
    /// author, as `get_posts_from_map` selects them, without the reply rule.
    pub fn get_videos_by_users(
        &self,
        user_ids: &[i64],
        exclude_tweet_ids: &HashSet<i64>,
        start_time: Instant,
        request_user_id: i64,
    ) -> (posts: Vec<LightPost>)
        ensures
            videos_served(self@, user_ids@, exclude_tweet_ids@, request_user_id, posts@),
    {
        let no_following: HashSet<i64> = HashSet::new();
        self.get_posts_from_map(
            PostKind::Video,
            user_ids,
            MAX_VIDEO_POSTS_PER_AUTHOR,
            exclude_tweet_ids,
            &no_following,
            start_time,
            request_user_id,
        )
    }

    /// The original posts of `user_ids` (up to `MAX_ORIGINAL_POSTS_PER_AUTHOR` per
    /// author, without the reply rule), followed by their replies and retweets (up
    /// to `MAX_REPLY_POSTS_PER_AUTHOR` per author, replies only to users in
    /// `user_ids`), each part as `get_posts_from_map` selects it.
    pub fn get_all_posts_by_users(
        &self,
        user_ids: &[i64],
        exclude_tweet_ids: &HashSet<i64>,
        start_time: Instant,
        request_user_id: i64,
    ) -> (posts: Vec<LightPost>)
        ensures
            all_posts_served(self@, user_ids@, exclude_tweet_ids@, request_user_id, posts@),
    {
        let following_set = id_set(user_ids);
        let no_following: HashSet<i64> = HashSet::new();
        let mut all = self.get_posts_from_map(
            PostKind::Original,
            user_ids,
            MAX_ORIGINAL_POSTS_PER_AUTHOR,
            exclude_tweet_ids,
            &no_following,
            start_time,
            request_user_id,
        );
        let mut secondary = self.get_posts_from_map(
            PostKind::Secondary,
            user_ids,
            MAX_REPLY_POSTS_PER_AUTHOR,
            exclude_tweet_ids,
            &following_set,
            start_time,
            request_user_id,
        );
        let ghost original_part = all@;
        let ghost secondary_part = secondary@;
        all.append(&mut secondary);
        assert(all@ == original_part + secondary_part);
        all
    }

    /// Sizes of the store: authors with an original deque, posts in each map, and
    /// tombstones.
    pub fn stats(&self) -> (stats: PostStoreStats)
        requires
            total_posts(self@.original) <= usize::MAX,
            total_posts(self@.secondary) <= usize::MAX,
            total_posts(self@.video) <= usize::MAX,
        ensures
            stats.user_count == self@.original.dom().len(),
            stats.original_count == total_posts(self@.original),
            stats.secondary_count == total_posts(self@.secondary),
            stats.video_count == total_posts(self@.video),
            stats.deleted_count == self@.deleted.len(),
    {
        PostStoreStats {
            user_count: post_map_len(&self.original_posts_by_user),
            original_count: count_posts(&self.original_posts_by_user).unwrap_or(0),
            secondary_count: count_posts(&self.secondary_posts_by_user).unwrap_or(0),
            video_count: count_posts(&self.video_posts_by_user).unwrap_or(0),
            deleted_count: tombstone_len(&self.deleted_posts),
        }
    }

    /// Whether the post counts of `stats` fit in a `usize`.
    pub fn stats_fit(&self) -> (fit: bool)
        ensures
            fit == (total_posts(self@.original) <= usize::MAX && total_posts(self@.secondary) <= usize::MAX
                && total_posts(self@.video) <= usize::MAX),
    {
        count_posts(&self.original_posts_by_user).is_some() && count_posts(&self.secondary_posts_by_user).is_some()
            && count_posts(&self.video_posts_by_user).is_some()
    }

    /// Empties every map and drops every tombstone.
    pub fn clear(&mut self)
        ensures
            final(self)@.original.dom() == Set::<i64>::empty(),
            final(self)@.secondary.dom() == Set::<i64>::empty(),
            final(self)@.video.dom() == Set::<i64>::empty(),
            final(self)@.deleted == Set::<i64>::empty(),
            final(self)@.retention_seconds == old(self)@.retention_seconds,
            final(self)@.request_timeout_ms == old(self)@.request_timeout_ms,
            store_sorted(final(self)@),
            store_kinds(final(self)@),
            video_mirrors(final(self)@),
            tombstones_recorded(final(self)@),
    {
        post_map_clear(&mut self.original_posts_by_user);
        post_map_clear(&mut self.secondary_posts_by_user);
        post_map_clear(&mut self.video_posts_by_user);
        tombstone_clear(&mut self.deleted_posts);
        proof {
            lemma_empty_store_mirrors(self@);
            lemma_no_tombstones_recorded(self@);
        }
    }

    /// Takes in one post, as `insert_one` says.
    fn insert_post(&mut self, post: LightPost)
        ensures
            final(self)@ == insert_one(old(self)@, post),
    {
        if tombstone_contains(&self.deleted_posts, post.post_id) {
            return;
        }
        let author_id = post.author_id;
        let is_original = !post.is_reply && !post.is_retweet;
        if is_original {
            let mut user_posts = match post_map_remove(&mut self.original_posts_by_user, author_id) {
                Some(posts) => posts,
                None => VecDeque::new(),
            };
            let pos = place_index(&user_posts, post.created_at);
            proof {
                lemma_insert_pos(user_posts@, post.created_at);
            }
            if pos > 0 && user_posts[pos - 1].post_id == post.post_id {
                post_map_insert(&mut self.original_posts_by_user, author_id, user_posts);
                proof {
                    assert(self@.original =~= insert_one(old(self)@, post).original);
                }
                return;
            }
            if post.has_video {
                place_in_map_at(&mut self.video_posts_by_user, author_id, post);
            }
            user_posts.insert(pos, post);
            post_map_insert(&mut self.original_posts_by_user, author_id, user_posts);
            proof {
                assert(self@.original =~= insert_one(old(self)@, post).original);
            }
        } else {
            let mut user_posts = match post_map_remove(&mut self.secondary_posts_by_user, author_id) {
                Some(posts) => posts,
                None => VecDeque::new(),
            };
            let pos = place_index(&user_posts, post.created_at);
            proof {
                lemma_insert_pos(user_posts@, post.created_at);
            }
            if pos > 0 && user_posts[pos - 1].post_id == post.post_id {
                post_map_insert(&mut self.secondary_posts_by_user, author_id, user_posts);
                proof {
                    assert(self@.secondary =~= insert_one(old(self)@, post).secondary);
                }
                return;
            }
            user_posts.insert(pos, post);
            post_map_insert(&mut self.secondary_posts_by_user, author_id, user_posts);
            proof {
                assert(self@.secondary =~= insert_one(old(self)@, post).secondary);
            }
        }
    }

    /// Takes in `posts` in their order, as `insert_all` says.
    fn insert_posts_internal(&mut self, posts: Vec<LightPost>)
        ensures
            final(self)@ == insert_all(old(self)@, posts@),
    {
        let n = posts.len();
        for i in 0..n
            invariant
                n == posts@.len(),
                self@ == insert_all(old(self)@, posts@.take(i as int)),
        {
            proof {
                assert(posts@.take(i + 1).drop_last() =~= posts@.take(i as int));
            }
            self.insert_post(posts[i]);
        }
        proof {
            assert(posts@.take(n as int) =~= posts@);
        }
    }
}

impl Default for PostStore {
    /// A store that keeps posts for two days, with no request timeout.
    fn default() -> (store: Self)
        ensures
            store@.original.dom() == Set::<i64>::empty(),
            store@.secondary.dom() == Set::<i64>::empty(),
            store@.video.dom() == Set::<i64>::empty(),
            store@.deleted == Set::<i64>::empty(),
            store@.retention_seconds == 2 * 24 * 60 * 60,
            store@.request_timeout_ms == 0,
    {
        Self::new(2 * 24 * 60 * 60, 0)
    }
}

} // verus!
