//! The store as values: what each operation of `PostStore` does, written over
//! maps from author to sequences of posts.
use vstd::prelude::*;
use crate::config::{
    DELETE_EVENT_KEY, MAX_TINY_POSTS_PER_USER_SCAN, MAX_VIDEO_POSTS_PER_AUTHOR,
    MAX_ORIGINAL_POSTS_PER_AUTHOR, MAX_REPLY_POSTS_PER_AUTHOR,
};
use crate::post::{LightPost, TweetDeleteEvent, sorted_oldest_first};

verus! {

/// What a store holds, as values.
pub struct PostStoreView {
    /// Original posts (neither reply nor retweet) of each author, oldest first.
    pub original: Map<i64, Seq<LightPost>>,
    /// Replies and retweets of each author, oldest first.
    pub secondary: Map<i64, Seq<LightPost>>,
    /// Original posts with a video, of each author, oldest first.
    pub video: Map<i64, Seq<LightPost>>,
    /// Ids of deleted posts.
    pub deleted: Set<i64>,
    pub retention_seconds: u64,
    /// Time budget of one retrieval, in milliseconds; zero means no limit.
    pub request_timeout_ms: u64,
}

/// The posts of `author` in `m`; none where `m` has no entry for `author`.
pub open spec fn deque_or_empty(m: Map<i64, Seq<LightPost>>, author: i64) -> Seq<LightPost> {
    if m.contains_key(author) {
        m[author]
    } else {
        Seq::empty()
    }
}

/// Where a post created at `created_at` goes in `posts`: before the run of
/// newer posts at the back, after the post that precedes that run.
pub open spec fn insert_pos(posts: Seq<LightPost>, created_at: i64) -> nat
    decreases posts.len(),
{
    if posts.len() > 0 && posts.last().created_at > created_at {
        insert_pos(posts.drop_last(), created_at)
    } else {
        posts.len()
    }
}

/// `posts` with `p` put at its place by creation time.
pub open spec fn place_post(posts: Seq<LightPost>, p: LightPost) -> Seq<LightPost> {
    posts.insert(insert_pos(posts, p.created_at) as int, p)
}

/// The post right before the place of `p` in `posts` has the id of `p`: `p` was
/// taken in already.
pub open spec fn duplicate_at_place(posts: Seq<LightPost>, p: LightPost) -> bool {
    let pos = insert_pos(posts, p.created_at) as int;
    pos > 0 && posts[pos - 1].post_id == p.post_id
}

/// `m` after placing `p` in the deque of `author` (which is created if absent).
pub open spec fn place_in_map(m: Map<i64, Seq<LightPost>>, author: i64, p: LightPost) -> Map<i64, Seq<LightPost>> {
    m.insert(author, place_post(deque_or_empty(m, author), p))
}

/// What `insert_pos` is: a position from which on every post is newer than
/// `created_at`, right after a post that is not.
pub proof fn lemma_insert_pos(posts: Seq<LightPost>, created_at: i64)
    ensures
        insert_pos(posts, created_at) <= posts.len(),
        forall|j: int| insert_pos(posts, created_at) <= j < posts.len() ==> #[trigger] posts[j].created_at > created_at,
        insert_pos(posts, created_at) > 0 ==> posts[insert_pos(posts, created_at) - 1].created_at <= created_at,
    decreases posts.len(),
{
    if posts.len() > 0 && posts.last().created_at > created_at {
        let d = posts.drop_last();
        lemma_insert_pos(d, created_at);
        let k = insert_pos(posts, created_at) as int;
        assert forall|j: int| k <= j < posts.len() implies #[trigger] posts[j].created_at > created_at by {
            if j < posts.len() - 1 {
                assert(posts[j] == d[j]);
            }
        }
        if k > 0 {
            assert(posts[k - 1] == d[k - 1]);
        }
    }
}

/// The properties of `lemma_insert_pos` pin the position down.
pub proof fn lemma_insert_pos_unique(posts: Seq<LightPost>, created_at: i64, k: int)
    requires
        0 <= k <= posts.len(),
        forall|j: int| k <= j < posts.len() ==> #[trigger] posts[j].created_at > created_at,
        k > 0 ==> posts[k - 1].created_at <= created_at,
    ensures
        insert_pos(posts, created_at) == k,
    decreases posts.len(),
{
    if k < posts.len() {
        assert(posts[posts.len() - 1].created_at > created_at);
        let d = posts.drop_last();
        assert forall|j: int| k <= j < d.len() implies #[trigger] d[j].created_at > created_at by {
            assert(d[j] == posts[j]);
        }
        if k > 0 {
            assert(d[k - 1] == posts[k - 1]);
        }
        lemma_insert_pos_unique(d, created_at, k);
    }
}

/// Placing a post adds exactly that post, at the position `insert_pos` gives,
/// and keeps a deque that is ordered oldest first ordered.
pub proof fn lemma_place_post(posts: Seq<LightPost>, p: LightPost)
    ensures
        place_post(posts, p).len() == posts.len() + 1,
        place_post(posts, p).to_multiset() == posts.to_multiset().insert(p),
        place_post(posts, p)[insert_pos(posts, p.created_at) as int] == p,
        forall|i: int| 0 <= i < insert_pos(posts, p.created_at) ==> #[trigger] place_post(posts, p)[i] == posts[i],
        forall|i: int| insert_pos(posts, p.created_at) < i <= posts.len() ==> #[trigger] place_post(posts, p)[i] == posts[i - 1],
        forall|i: int| 0 <= i < place_post(posts, p).len() ==> #[trigger] place_post(posts, p)[i] == p
            || posts.contains(place_post(posts, p)[i]),
        sorted_oldest_first(posts) ==> sorted_oldest_first(place_post(posts, p)),
{
    broadcast use vstd::seq_lib::to_multiset_insert;
    lemma_insert_pos(posts, p.created_at);
    let k = insert_pos(posts, p.created_at) as int;
    let r = place_post(posts, p);
    posts.insert_ensures(k, p);
    assert forall|i: int| k < i <= posts.len() implies #[trigger] r[i] == posts[i - 1] by {
        assert(r[(i - 1) + 1] == posts[i - 1]);
    }
    assert forall|i: int| 0 <= i < r.len() implies #[trigger] r[i] == p || posts.contains(r[i]) by {
        if i < k {
            assert(r[i] == posts[i]);
        } else if i > k {
            assert(r[i] == posts[i - 1]);
        }
    }
    if sorted_oldest_first(posts) {
        assert forall|i: int, j: int| 0 <= i <= j < r.len() implies r[i].created_at <= r[j].created_at by {
            if i < k && j < k {
                assert(r[i] == posts[i] && r[j] == posts[j]);
            } else if i < k && j == k {
                assert(r[i] == posts[i]);
                assert(posts[i].created_at <= posts[k - 1].created_at);
            } else if i < k && j > k {
                assert(r[i] == posts[i] && r[j] == posts[j - 1]);
            } else if i == k && j > k {
                assert(r[j] == posts[j - 1]);
            } else if i > k {
                assert(r[i] == posts[i - 1] && r[j] == posts[j - 1]);
            }
        }
    }
}

/// Placing a post again right after placing it finds it at its place.
pub proof fn lemma_place_twice(posts: Seq<LightPost>, p: LightPost)
    ensures
        duplicate_at_place(place_post(posts, p), p),
        insert_pos(place_post(posts, p), p.created_at) == insert_pos(posts, p.created_at) + 1,
{
    lemma_place_post(posts, p);
    lemma_insert_pos(posts, p.created_at);
    let k = insert_pos(posts, p.created_at) as int;
    let r = place_post(posts, p);
    assert forall|j: int| k + 1 <= j < r.len() implies #[trigger] r[j].created_at > p.created_at by {
        assert(r[j] == posts[j - 1]);
    }
    lemma_insert_pos_unique(r, p.created_at, k + 1);
}

/// No post of `posts` is newer than `p`.
pub open spec fn none_newer(posts: Seq<LightPost>, p: LightPost) -> bool {
    forall|i: int| 0 <= i < posts.len() ==> #[trigger] posts[i].created_at <= p.created_at
}

/// The store after taking in one post. A post whose id is tombstoned is dropped.
/// An original post goes to its author's original deque, and to the video deque
/// as well when it has a video; a reply or retweet goes to the secondary deque.
/// Each deque stays ordered by creation time: the post is placed after the
/// posts not newer than it. A post whose id is right before its place in the
/// deque it would join is not taken in again (its author's entry is still
/// created, empty, if absent).
pub open spec fn insert_one(v: PostStoreView, p: LightPost) -> PostStoreView {
    if v.deleted.contains(p.post_id) {
        v
    } else if p.is_original() {
        let dq = deque_or_empty(v.original, p.author_id);
        if duplicate_at_place(dq, p) {
            PostStoreView { original: v.original.insert(p.author_id, dq), ..v }
        } else {
            PostStoreView {
                original: v.original.insert(p.author_id, place_post(dq, p)),
                video: if p.has_video { place_in_map(v.video, p.author_id, p) } else { v.video },
                ..v
            }
        }
    } else {
        let dq = deque_or_empty(v.secondary, p.author_id);
        if duplicate_at_place(dq, p) {
            PostStoreView { secondary: v.secondary.insert(p.author_id, dq), ..v }
        } else {
            PostStoreView { secondary: v.secondary.insert(p.author_id, place_post(dq, p)), ..v }
        }
    }
}

/// The store after taking in `posts`, first to last.
pub open spec fn insert_all(v: PostStoreView, posts: Seq<LightPost>) -> PostStoreView
    decreases posts.len(),
{
    if posts.len() == 0 {
        v
    } else {
        insert_one(insert_all(v, posts.drop_last()), posts.last())
    }
}

/// `p` was created before `now` and no longer ago than `retention_seconds`
/// (a window too large for an `i64` keeps nothing).
pub open spec fn within_retention(p: LightPost, now: i64, retention_seconds: u64) -> bool {
    &&& p.created_at < now
    &&& retention_seconds <= i64::MAX
    &&& now - p.created_at <= retention_seconds
}

/// The age `now - p.created_at` of each post created before `now` fits in an `i64`.
pub open spec fn ages_fit(posts: Seq<LightPost>, now: i64) -> bool {
    forall|i: int| 0 <= i < posts.len() && posts[i].created_at < now ==> now - posts[i].created_at <= i64::MAX
}

/// The post that records a deletion in the deque of `DELETE_EVENT_KEY`, so that
/// the tombstone can be dropped once the deletion is older than the retention window.
pub open spec fn tombstone_post(e: TweetDeleteEvent) -> LightPost {
    LightPost {
        post_id: e.post_id,
        author_id: 0,
        created_at: e.deleted_at,
        is_reply: false,
        is_retweet: false,
        has_video: false,
        source_user_id: None,
        in_reply_to_post_id: None,
        in_reply_to_user_id: None,
    }
}

/// The store after one delete event: the post id is tombstoned and the event is
/// placed by its deletion time in the `DELETE_EVENT_KEY` deque.
pub open spec fn delete_one(v: PostStoreView, e: TweetDeleteEvent) -> PostStoreView {
    PostStoreView {
        deleted: v.deleted.insert(e.post_id),
        original: place_in_map(v.original, DELETE_EVENT_KEY, tombstone_post(e)),
        ..v
    }
}

/// The store after `events`, first to last.
pub open spec fn delete_all(v: PostStoreView, events: Seq<TweetDeleteEvent>) -> PostStoreView
    decreases events.len(),
{
    if events.len() == 0 {
        v
    } else {
        delete_one(delete_all(v, events.drop_last()), events.last())
    }
}


/// `p.created_at` read as a `u64`, as a cast of the `i64` gives it.
pub open spec fn created_as_u64(p: LightPost) -> int {
    if p.created_at >= 0 {
        p.created_at as int
    } else {
        p.created_at + 0x1_0000_0000_0000_0000
    }
}

/// The age of `p` at `now` can be computed without going below zero.
pub open spec fn age_known(p: LightPost, now: u64) -> bool {
    created_as_u64(p) <= now
}

/// `p` is older than the retention window at `now`.
pub open spec fn expired(p: LightPost, now: u64, retention_seconds: u64) -> bool {
    now - created_as_u64(p) > retention_seconds
}

/// How many posts a trim pops from the front of `posts`: the longest prefix of
/// expired posts.
pub open spec fn expired_prefix_len(posts: Seq<LightPost>, now: u64, retention_seconds: u64) -> nat
    decreases posts.len(),
{
    if posts.len() > 0 && age_known(posts[0], now) && expired(posts[0], now, retention_seconds) {
        1 + expired_prefix_len(posts.drop_first(), now, retention_seconds)
    } else {
        0
    }
}

/// A trim of `posts` never computes an age below zero: each post that it looks
/// at (the expired prefix and the post after it) has a known age.
pub open spec fn trim_safe(posts: Seq<LightPost>, now: u64, retention_seconds: u64) -> bool
    decreases posts.len(),
{
    posts.len() == 0 || (age_known(posts[0], now) && (expired(posts[0], now, retention_seconds)
        ==> trim_safe(posts.drop_first(), now, retention_seconds)))
}

/// `posts` without its expired prefix.
pub open spec fn trim_posts(posts: Seq<LightPost>, now: u64, retention_seconds: u64) -> Seq<LightPost> {
    posts.skip(expired_prefix_len(posts, now, retention_seconds) as int)
}

/// `m` after a trim: each deque loses its expired prefix, and the keys whose
/// deque is then empty are gone.
pub open spec fn trim_map(m: Map<i64, Seq<LightPost>>, now: u64, retention_seconds: u64) -> Map<i64, Seq<LightPost>> {
    Map::new(
        |k: i64| m.contains_key(k) && trim_posts(m[k], now, retention_seconds).len() > 0,
        |k: i64| trim_posts(m[k], now, retention_seconds),
    )
}

/// The ids of the first `n` posts of `posts`.
pub open spec fn ids_of_prefix(posts: Seq<LightPost>, n: int) -> Set<i64> {
    Set::new(|id: i64| exists|i: int| 0 <= i < n && posts[i].post_id == id)
}

/// The tombstones that a trim of `m` drops: the ids of the expired prefix of the
/// `DELETE_EVENT_KEY` deque.
pub open spec fn expired_tombstones(m: Map<i64, Seq<LightPost>>, now: u64, retention_seconds: u64) -> Set<i64> {
    if m.contains_key(DELETE_EVENT_KEY) {
        let dq = m[DELETE_EVENT_KEY];
        ids_of_prefix(dq, expired_prefix_len(dq, now, retention_seconds) as int)
    } else {
        Set::empty()
    }
}

/// The sum of `f` over a finite set of keys.
pub open spec fn sum_over(keys: Set<i64>, f: spec_fn(i64) -> nat) -> nat
    decreases keys.len(),
    when keys.finite()
{
    if keys.len() == 0 {
        0
    } else {
        let k = keys.choose();
        f(k) + sum_over(keys.remove(k), f)
    }
}

/// Taking one key out of a finite set takes its term out of the sum.
pub proof fn lemma_sum_over_remove(keys: Set<i64>, f: spec_fn(i64) -> nat, a: i64)
    requires
        keys.finite(),
        keys.contains(a),
    ensures
        sum_over(keys, f) == f(a) + sum_over(keys.remove(a), f),
    decreases keys.len(),
{
    let c = keys.choose();
    assert(keys.len() > 0);
    if c != a {
        lemma_sum_over_remove(keys.remove(c), f, a);
        lemma_sum_over_remove(keys.remove(a), f, c);
        assert(keys.remove(c).remove(a) =~= keys.remove(a).remove(c));
    }
}

/// How many posts a trim pops from all deques of `m`.
pub open spec fn trimmed_count(m: Map<i64, Seq<LightPost>>, now: u64, retention_seconds: u64) -> nat {
    sum_over(m.dom(), |k: i64| expired_prefix_len(m[k], now, retention_seconds))
}

/// Every deque of `m` can be trimmed without an age below zero.
pub open spec fn map_trim_safe(m: Map<i64, Seq<LightPost>>, now: u64, retention_seconds: u64) -> bool {
    forall|k: i64| #[trigger] m.contains_key(k) ==> trim_safe(m[k], now, retention_seconds)
}

/// A trim of the store at `now` computes no age below zero and its counts fit in a `usize`.
pub open spec fn trim_ready(v: PostStoreView, now: u64) -> bool {
    &&& v.original.dom().finite()
    &&& v.secondary.dom().finite()
    &&& v.video.dom().finite()
    &&& map_trim_safe(v.original, now, v.retention_seconds)
    &&& map_trim_safe(v.secondary, now, v.retention_seconds)
    &&& map_trim_safe(v.video, now, v.retention_seconds)
    &&& trimmed_count(v.original, now, v.retention_seconds) + trimmed_count(v.secondary, now, v.retention_seconds) <= usize::MAX
    &&& trimmed_count(v.video, now, v.retention_seconds) <= usize::MAX
}

/// The store after a trim at `now`.
pub open spec fn trim_view(v: PostStoreView, now: u64) -> PostStoreView {
    let r = v.retention_seconds;
    PostStoreView {
        original: trim_map(v.original, now, r),
        secondary: trim_map(v.secondary, now, r),
        video: trim_map(v.video, now, r),
        deleted: v.deleted.difference(expired_tombstones(v.original, now, r)).difference(
            expired_tombstones(v.secondary, now, r),
        ).difference(expired_tombstones(v.video, now, r)),
        ..v
    }
}


/// The keys among the first `n` entries of `keys`.
pub open spec fn prefix_keys(keys: Seq<i64>, n: int) -> Set<i64> {
    Set::new(|k: i64| exists|j: int| 0 <= j < n && keys[j] == k)
}


/// `posts` without the posts whose id is in `ids`.
pub open spec fn purge_ids(posts: Seq<LightPost>, ids: Set<i64>) -> Seq<LightPost> {
    posts.filter(|p: LightPost| !ids.contains(p.post_id))
}

/// `m` with the posts whose id is in `ids` dropped from every deque, except the
/// `DELETE_EVENT_KEY` deque when `spare_delete_events`; the keys stay.
pub open spec fn purge_map(m: Map<i64, Seq<LightPost>>, ids: Set<i64>, spare_delete_events: bool) -> Map<i64, Seq<LightPost>> {
    Map::new(
        |k: i64| m.contains_key(k),
        |k: i64| if spare_delete_events && k == DELETE_EVENT_KEY { m[k] } else { purge_ids(m[k], ids) },
    )
}

/// The store with the posts whose id is in `ids` dropped from every deque but
/// the `DELETE_EVENT_KEY` deque of the original posts, whose delete events stay
/// so that a trim can drop their tombstones once they expire.
pub open spec fn purge_view(v: PostStoreView, ids: Set<i64>) -> PostStoreView {
    PostStoreView {
        original: purge_map(v.original, ids, true),
        secondary: purge_map(v.secondary, ids, false),
        video: purge_map(v.video, ids, false),
        ..v
    }
}

/// Filtering twice keeps what both predicates keep.
pub proof fn lemma_filter_filter(s: Seq<LightPost>, f: spec_fn(LightPost) -> bool, g: spec_fn(LightPost) -> bool, h: spec_fn(LightPost) -> bool)
    requires
        forall|p: LightPost| #[trigger] h(p) == (f(p) && g(p)),
    ensures
        s.filter(f).filter(g) == s.filter(h),
    decreases s.len(),
{
    reveal_with_fuel(Seq::filter, 1);
    if s.len() > 0 {
        lemma_filter_filter(s.drop_last(), f, g, h);
        let last = s.last();
        if f(last) {
            assert(s.filter(f).drop_last() =~= s.drop_last().filter(f));
            assert(s.filter(f).last() == last);
        } else {
            assert(s.filter(f) == s.drop_last().filter(f));
        }
    }
}

/// Purging by `ids` and then by `extra` purges by their union.
pub proof fn lemma_purge_twice(posts: Seq<LightPost>, ids: Set<i64>, extra: Set<i64>)
    ensures
        purge_ids(purge_ids(posts, ids), extra) == purge_ids(posts, ids.union(extra)),
{
    lemma_filter_filter(
        posts,
        |p: LightPost| !ids.contains(p.post_id),
        |p: LightPost| !extra.contains(p.post_id),
        |p: LightPost| !ids.union(extra).contains(p.post_id),
    );
}

/// `m2` holds the deques of `m`, each sorted oldest first.
pub open spec fn sorted_map_of(m: Map<i64, Seq<LightPost>>, m2: Map<i64, Seq<LightPost>>) -> bool {
    &&& m2.dom() == m.dom()
    &&& forall|k: i64| #[trigger] m.contains_key(k) ==> m2[k].to_multiset() == m[k].to_multiset()
        && sorted_oldest_first(m2[k])
}

/// `v2` is `v` with every deque sorted oldest first.
pub open spec fn sorted_view_of(v: PostStoreView, v2: PostStoreView) -> bool {
    &&& sorted_map_of(v.original, v2.original)
    &&& sorted_map_of(v.secondary, v2.secondary)
    &&& sorted_map_of(v.video, v2.video)
    &&& v2.deleted == v.deleted
    &&& v2.retention_seconds == v.retention_seconds
    &&& v2.request_timeout_ms == v.request_timeout_ms
}


/// Filtering by a predicate that keeps everything changes nothing.
pub proof fn lemma_filter_keeps_all(s: Seq<LightPost>, f: spec_fn(LightPost) -> bool)
    requires
        forall|p: LightPost| #[trigger] f(p),
    ensures
        s.filter(f) == s,
    decreases s.len(),
{
    reveal_with_fuel(Seq::filter, 1);
    if s.len() > 0 {
        lemma_filter_keeps_all(s.drop_last(), f);
        assert(s.drop_last().push(s.last()) =~= s);
    }
}

/// Purging by no ids changes nothing.
pub proof fn lemma_purge_view_nothing(v: PostStoreView)
    ensures
        purge_view(v, Set::empty()) == v,
{
    assert forall|s: Seq<LightPost>| #[trigger] purge_ids(s, Set::empty()) == s by {
        lemma_filter_keeps_all(s, |p: LightPost| !Set::<i64>::empty().contains(p.post_id));
    }
    assert(purge_map(v.original, Set::empty(), true) =~= v.original);
    assert(purge_map(v.secondary, Set::empty(), false) =~= v.secondary);
    assert(purge_map(v.video, Set::empty(), false) =~= v.video);
}

/// Purging by `ids` and then by one more id purges by both.
pub proof fn lemma_purge_view_step(v: PostStoreView, ids: Set<i64>, post_id: i64)
    ensures
        purge_view(purge_view(v, ids), Set::empty().insert(post_id)) == purge_view(v, ids.insert(post_id)),
{
    let one = Set::<i64>::empty().insert(post_id);
    assert(ids.union(one) =~= ids.insert(post_id));
    assert forall|s: Seq<LightPost>| #[trigger] purge_ids(purge_ids(s, ids), one) == purge_ids(s, ids.insert(post_id)) by {
        lemma_purge_twice(s, ids, one);
    }
    assert(purge_map(purge_map(v.original, ids, true), one, true) =~= purge_map(v.original, ids.insert(post_id), true));
    assert(purge_map(purge_map(v.secondary, ids, false), one, false) =~= purge_map(v.secondary, ids.insert(post_id), false));
    assert(purge_map(purge_map(v.video, ids, false), one, false) =~= purge_map(v.video, ids.insert(post_id), false));
}


/// Every deque of `m` is ordered by creation time, oldest first.
pub open spec fn map_sorted(m: Map<i64, Seq<LightPost>>) -> bool {
    forall|k: i64| #[trigger] m.contains_key(k) ==> sorted_oldest_first(m[k])
}

/// Every deque of the store is ordered by creation time, oldest first.
pub open spec fn store_sorted(v: PostStoreView) -> bool {
    &&& map_sorted(v.original)
    &&& map_sorted(v.secondary)
    &&& map_sorted(v.video)
}

/// Which of the store's three post maps a retrieval reads.
pub enum PostKind {
    Original,
    Secondary,
    Video,
}

/// The posts map of `v` that `kind` names.
pub open spec fn posts_of_kind(v: PostStoreView, kind: PostKind) -> Map<i64, Seq<LightPost>> {
    match kind {
        PostKind::Original => v.original,
        PostKind::Secondary => v.secondary,
        PostKind::Video => v.video,
    }
}

/// `p` may stand in a deque of the map that `kind` names: an original post in
/// the original map, a reply or retweet in the secondary map, an original post
/// with a video in the video map.
pub open spec fn fits_kind(p: LightPost, kind: PostKind) -> bool {
    match kind {
        PostKind::Original => p.is_original(),
        PostKind::Secondary => !p.is_original(),
        PostKind::Video => p.is_original() && p.has_video,
    }
}

/// Every post in `m` fits `kind`.
pub open spec fn map_fits_kind(m: Map<i64, Seq<LightPost>>, kind: PostKind) -> bool {
    forall|k: i64, i: int| #![trigger m[k][i]] m.contains_key(k) && 0 <= i < m[k].len() ==> fits_kind(m[k][i], kind)
}

/// Every post of the store is in the map of its kind.
pub open spec fn store_kinds(v: PostStoreView) -> bool {
    &&& map_fits_kind(v.original, PostKind::Original)
    &&& map_fits_kind(v.secondary, PostKind::Secondary)
    &&& map_fits_kind(v.video, PostKind::Video)
}

/// What a retrieval lets through.
pub struct ServeRules {
    /// Post ids the requester has already seen.
    pub exclude: Set<i64>,
    /// Tombstoned post ids.
    pub deleted: Set<i64>,
    /// Users the requester follows, for the reply rule; empty turns the rule off.
    pub following: Set<i64>,
    /// The requester.
    pub request_user_id: i64,
}

impl ServeRules {
    /// `p` is not excluded, not deleted, not a retweet of the requester's own
    /// post, and, when `following` is not empty, either not a reply or a reply to
    /// a followed user.
    pub open spec fn allows(self, p: LightPost) -> bool {
        &&& !self.exclude.contains(p.post_id)
        &&& !self.deleted.contains(p.post_id)
        &&& !(p.is_retweet && p.source_user_id == Some(self.request_user_id))
        &&& (self.following.is_empty() || p.in_reply_to_post_id is None || (p.in_reply_to_user_id matches Some(
            uid,
        ) && self.following.contains(uid)))
    }
}

/// `s`, last element first.
pub open spec fn newest_first(s: Seq<LightPost>) -> Seq<LightPost> {
    Seq::new(s.len(), |i: int| s[s.len() - 1 - i])
}

/// The first `n` elements of `s`, or all of `s` where it is shorter.
pub open spec fn at_most(s: Seq<LightPost>, n: nat) -> Seq<LightPost> {
    if s.len() <= n {
        s
    } else {
        s.take(n as int)
    }
}

/// What a retrieval takes from one author's deque: among the `scan` newest
/// posts, newest first, the first `max_per_user` that `rules` allows.
pub open spec fn user_selection(posts: Seq<LightPost>, scan: nat, max_per_user: nat, rules: ServeRules) -> Seq<LightPost> {
    at_most(at_most(newest_first(posts), scan).filter(|p: LightPost| rules.allows(p)), max_per_user)
}

/// The selections of the authors of `users` in `m`, in the order of `users`;
/// an author without a deque contributes nothing.
pub open spec fn gather(m: Map<i64, Seq<LightPost>>, users: Seq<i64>, scan: nat, max_per_user: nat, rules: ServeRules) -> Seq<LightPost>
    decreases users.len(),
{
    if users.len() == 0 {
        Seq::empty()
    } else {
        let last = users.last();
        gather(m, users.drop_last(), scan, max_per_user, rules) + if m.contains_key(last) {
            user_selection(m[last], scan, max_per_user, rules)
        } else {
            Seq::empty()
        }
    }
}

/// Once a prefix of `s` holds `n` matching elements, the first `n` matches of
/// `s` are those of the prefix.
pub proof fn lemma_at_most_filter_prefix(s: Seq<LightPost>, j: int, f: spec_fn(LightPost) -> bool, n: nat)
    requires
        0 <= j <= s.len(),
        s.take(j).filter(f).len() >= n,
    ensures
        at_most(s.filter(f), n) == at_most(s.take(j).filter(f), n),
{
    assert(s == s.take(j) + s.skip(j));
    Seq::filter_distributes_over_add(s.take(j), s.skip(j), f);
    let a = s.take(j).filter(f);
    let b = s.skip(j).filter(f);
    assert((a + b).take(n as int) =~= a.take(n as int));
}


/// The number of posts over all deques of `m`.
pub open spec fn total_posts(m: Map<i64, Seq<LightPost>>) -> nat {
    sum_over(m.dom(), |k: i64| m[k].len())
}


/// `posts` is what a video retrieval of `users` from `v` returns: the
/// selections of the authors reached before any timeout, at most
/// `MAX_VIDEO_POSTS_PER_AUTHOR` each, without the reply rule.
pub open spec fn videos_served(v: PostStoreView, users: Seq<i64>, exclude: Set<i64>, request_user_id: i64, posts: Seq<LightPost>) -> bool {
    exists|reached: int|
        {
            &&& 0 <= reached <= users.len()
            &&& (v.request_timeout_ms == 0 ==> reached == users.len())
            &&& posts == gather(
                v.video,
                users.take(reached),
                MAX_TINY_POSTS_PER_USER_SCAN as nat,
                MAX_VIDEO_POSTS_PER_AUTHOR as nat,
                ServeRules { exclude, deleted: v.deleted, following: Set::empty(), request_user_id },
            )
        }
}

/// `posts` is what a retrieval of all posts of `users` from `v` returns: the
/// original posts (at most `MAX_ORIGINAL_POSTS_PER_AUTHOR` per author, without
/// the reply rule), then the replies and retweets (at most
/// `MAX_REPLY_POSTS_PER_AUTHOR` per author, replies only to users of `users`),
/// each over the authors reached before any timeout.
pub open spec fn all_posts_served(v: PostStoreView, users: Seq<i64>, exclude: Set<i64>, request_user_id: i64, posts: Seq<LightPost>) -> bool {
    exists|reached_original: int, reached_secondary: int|
        {
            &&& 0 <= reached_original <= users.len()
            &&& 0 <= reached_secondary <= users.len()
            &&& (v.request_timeout_ms == 0 ==> reached_original == users.len() && reached_secondary == users.len())
            &&& posts == gather(
                v.original,
                users.take(reached_original),
                MAX_TINY_POSTS_PER_USER_SCAN as nat,
                MAX_ORIGINAL_POSTS_PER_AUTHOR as nat,
                ServeRules { exclude, deleted: v.deleted, following: Set::empty(), request_user_id },
            ) + gather(
                v.secondary,
                users.take(reached_secondary),
                MAX_TINY_POSTS_PER_USER_SCAN as nat,
                MAX_REPLY_POSTS_PER_AUTHOR as nat,
                ServeRules { exclude, deleted: v.deleted, following: users.to_set(), request_user_id },
            )
        }
}

} // verus!
